//! Attribute lists: names, values, lookup and the order in which attributes
//! are written out.

use vstd::prelude::*;
use crate::text::{chars_of, same_chars, same_text};

verus! {

/// One attribute as a pair of texts: name, then value.
pub type AttrModel = (Seq<char>, Seq<char>);

/// The name that marks a page element as the provider of a slot.
pub open spec fn for_slot_name() -> Seq<char> {
    "for-slot"@
}

/// The texts of a vector of name and value pairs.
pub open spec fn pairs_view(pairs: Seq<(String, String)>) -> Seq<AttrModel> {
    Seq::new(pairs.len(), |i: int| (pairs[i].0@, pairs[i].1@))
}

/// No two entries carry the same name.
pub open spec fn names_distinct(entries: Seq<AttrModel>) -> bool {
    forall|i: int, j: int| 0 <= i < j < entries.len() ==> entries[i].0 != entries[j].0
}

/// The index of the first entry called `name`, or the length where there is
/// none.
pub open spec fn key_index<V>(entries: Seq<(Seq<char>, V)>, name: Seq<char>) -> int
    decreases entries.len(),
{
    if entries.len() == 0 {
        0
    } else if entries[0].0 == name {
        0
    } else {
        1 + key_index(entries.skip(1), name)
    }
}

/// The index of the attribute called `name`, or the length where there is
/// none.
pub open spec fn attr_index(entries: Seq<AttrModel>, name: Seq<char>) -> int {
    key_index(entries, name)
}

/// The value stored under `name`, if any.
pub open spec fn attr_lookup(entries: Seq<AttrModel>, name: Seq<char>) -> Option<Seq<char>> {
    let i = attr_index(entries, name);
    if i < entries.len() {
        Some(entries[i].1)
    } else {
        None
    }
}

/// `entries` with `name` set to `value`: an entry of that name is overwritten
/// in place, a new name is added at the end.
pub open spec fn attr_put(entries: Seq<AttrModel>, name: Seq<char>, value: Seq<char>) -> Seq<
    AttrModel,
> {
    let i = attr_index(entries, name);
    if i < entries.len() {
        entries.update(i, (name, value))
    } else {
        entries.push((name, value))
    }
}

/// `key_index` is in range, points at an entry of that name where it is below
/// the length, and no entry before it has the name.
pub proof fn lemma_key_index<V>(entries: Seq<(Seq<char>, V)>, name: Seq<char>)
    ensures
        0 <= key_index(entries, name) <= entries.len(),
        key_index(entries, name) < entries.len() ==> entries[key_index(entries, name)].0 == name,
        forall|k: int| 0 <= k < key_index(entries, name) ==> entries[k].0 != name,
    decreases entries.len(),
{
    if entries.len() > 0 && entries[0].0 != name {
        let rest = entries.skip(1);
        lemma_key_index(rest, name);
        assert forall|k: int| 0 <= k < key_index(entries, name) implies entries[k].0 != name by {
            if k > 0 {
                assert(rest[k - 1] == entries[k]);
            }
        }
    }
}

/// An index whose entry has the name, with no such entry before it, is the
/// one that `key_index` gives; where no entry has the name it gives the
/// length.
pub proof fn lemma_key_index_is<V>(entries: Seq<(Seq<char>, V)>, name: Seq<char>, i: int)
    requires
        0 <= i <= entries.len(),
        i < entries.len() ==> entries[i].0 == name,
        forall|k: int| 0 <= k < i ==> entries[k].0 != name,
    ensures
        key_index(entries, name) == i,
{
    lemma_key_index(entries, name);
    let j = key_index(entries, name);
    if j < i {
        assert(entries[j].0 != name);
    }
}

/// Setting a name keeps the names distinct.
pub proof fn lemma_put_keeps_distinct(entries: Seq<AttrModel>, name: Seq<char>, value: Seq<char>)
    requires
        names_distinct(entries),
    ensures
        names_distinct(attr_put(entries, name, value)),
        attr_lookup(attr_put(entries, name, value), name) == Some(value),
{
    lemma_key_index(entries, name);
    let out = attr_put(entries, name, value);
    let i = attr_index(entries, name);
    lemma_key_index(out, name);
    assert(out[i].0 == name);
    if attr_index(out, name) > i {
        assert(out[i].0 != name);
    }
    if attr_index(out, name) < i {
        assert(entries[attr_index(out, name)].0 != name);
    }
}

/// A list of attributes with distinct names, in the order in which the names
/// were first set.
#[derive(Debug, PartialEq, Eq)]
pub struct Attributes {
    entries: Vec<(String, String)>,
}

impl View for Attributes {
    type V = Seq<AttrModel>;

    closed spec fn view(&self) -> Seq<AttrModel> {
        Seq::new(self.entries@.len(), |i: int| (self.entries@[i].0@, self.entries@[i].1@))
    }
}

impl Clone for Attributes {
    fn clone(&self) -> (r: Self)
        ensures
            r@ == self@,
    {
        proof {
            use_type_invariant(self);
        }
        let fresh = self.entries();
        assert(pairs_view(fresh@) =~= Seq::new(
            fresh@.len(),
            |i: int| (fresh@[i].0@, fresh@[i].1@),
        ));
        Attributes { entries: fresh }
    }
}

impl Attributes {
    #[verifier::type_invariant]
    spec fn distinct(&self) -> bool {
        names_distinct(self@)
    }

    /// The empty list.
    pub fn new() -> (a: Self)
        ensures
            a@ == Seq::<AttrModel>::empty(),
    {
        let a = Attributes { entries: Vec::new() };
        assert(a@ =~= Seq::<AttrModel>::empty());
        a
    }

    /// The number of attributes.
    pub fn len(&self) -> (n: usize)
        ensures
            n == self@.len(),
    {
        self.entries.len()
    }

    /// The attributes as pairs of name and value, in the order in which the
    /// names were first set.
    pub fn entries(&self) -> (r: Vec<(String, String)>)
        ensures
            pairs_view(r@) == self@,
    {
        let mut out: Vec<(String, String)> = Vec::new();
        let mut i: usize = 0;
        while i < self.entries.len()
            invariant
                i <= self.entries.len(),
                out@.len() == i,
                forall|k: int| 0 <= k < i ==> (#[trigger] out@[k].0@, out@[k].1@) == self@[k],
            decreases self.entries.len() - i,
        {
            out.push((self.entries[i].0.clone(), self.entries[i].1.clone()));
            i += 1;
        }
        assert(pairs_view(out@) =~= self@);
        out
    }

    /// The place of `name` in the list, or the length where it is absent.
    fn position(&self, name: &str) -> (i: usize)
        ensures
            i == attr_index(self@, name@),
            i <= self@.len(),
    {
        let mut i: usize = 0;
        while i < self.entries.len()
            invariant
                i <= self.entries.len(),
                forall|k: int| 0 <= k < i ==> self@[k].0 != name@,
            decreases self.entries.len() - i,
        {
            if same_text(self.entries[i].0.as_str(), name) {
                proof {
                    lemma_key_index_is(self@, name@, i as int);
                }
                return i;
            }
            i += 1;
        }
        proof {
            lemma_key_index_is(self@, name@, i as int);
        }
        i
    }

    /// The value stored under `name`, if any.
    pub fn get(&self, name: &str) -> (r: Option<String>)
        ensures
            match r {
                Some(v) => attr_lookup(self@, name@) == Some(v@),
                None => attr_lookup(self@, name@) is None,
            },
    {
        let i = self.position(name);
        if i < self.entries.len() {
            Some(self.entries[i].1.clone())
        } else {
            None
        }
    }

    /// Sets `name` to `value`: overwrites the entry of that name, or adds one
    /// at the end.
    pub fn insert(&mut self, name: &str, value: &str)
        ensures
            final(self)@ == attr_put(old(self)@, name@, value@),
    {
        proof {
            use_type_invariant(&*self);
            lemma_put_keeps_distinct(self@, name@, value@);
        }
        let at = self.position(name);
        let ghost before = self@;
        let mut fresh: Vec<(String, String)> = Vec::new();
        let mut i: usize = 0;
        while i < self.entries.len()
            invariant
                i <= self.entries.len(),
                self@ == before,
                at == attr_index(before, name@),
                fresh@.len() == i,
                forall|k: int|
                    0 <= k < i ==> (#[trigger] fresh@[k].0@, fresh@[k].1@) == (if k == at {
                        (name@, value@)
                    } else {
                        before[k]
                    }),
            decreases self.entries.len() - i,
        {
            if i == at {
                fresh.push((name.to_owned(), value.to_owned()));
            } else {
                fresh.push((self.entries[i].0.clone(), self.entries[i].1.clone()));
            }
            i += 1;
        }
        if at >= self.entries.len() {
            fresh.push((name.to_owned(), value.to_owned()));
        }
        assert(Seq::new(fresh@.len(), |k: int| (fresh@[k].0@, fresh@[k].1@)) =~= attr_put(
            before,
            name@,
            value@,
        ));
        self.entries = fresh;
    }
}

// ---------------------------------------------------------------------------
// Order of attributes in written markup
// ---------------------------------------------------------------------------

/// Lexicographic order of texts by character code, strict.
pub open spec fn text_lt(a: Seq<char>, b: Seq<char>) -> bool
    decreases a.len(),
{
    if b.len() == 0 {
        false
    } else if a.len() == 0 {
        true
    } else if a[0] != b[0] {
        (a[0] as u32) < (b[0] as u32)
    } else {
        text_lt(a.skip(1), b.skip(1))
    }
}

/// The order of attribute names in written markup: `for-slot` comes before
/// every other name, the others follow lexicographically.
pub open spec fn name_before(a: Seq<char>, b: Seq<char>) -> bool {
    if a == for_slot_name() {
        b != for_slot_name()
    } else if b == for_slot_name() {
        false
    } else {
        text_lt(a, b)
    }
}

/// `a` put into the sorted list `sorted`, behind every entry that it does not
/// come strictly before.
pub open spec fn insert_sorted(sorted: Seq<AttrModel>, a: AttrModel) -> Seq<AttrModel>
    decreases sorted.len(),
{
    if sorted.len() == 0 {
        seq![a]
    } else if name_before(a.0, sorted[0].0) {
        seq![a] + sorted
    } else {
        seq![sorted[0]] + insert_sorted(sorted.skip(1), a)
    }
}

/// The entries in the order in which they are written: a stable sort by
/// `name_before`.
pub open spec fn sort_attributes(entries: Seq<AttrModel>) -> Seq<AttrModel>
    decreases entries.len(),
{
    if entries.len() == 0 {
        entries
    } else {
        insert_sorted(sort_attributes(entries.drop_last()), entries.last())
    }
}

/// No entry comes strictly before an earlier one.
pub open spec fn is_sorted(entries: Seq<AttrModel>) -> bool {
    forall|i: int, j: int| 0 <= i < j < entries.len() ==> !name_before(entries[j].0, entries[i].0)
}

/// The first index of `sorted` whose entry `name` comes strictly before, or
/// the length.
pub open spec fn insert_position(sorted: Seq<AttrModel>, name: Seq<char>) -> int
    decreases sorted.len(),
{
    if sorted.len() == 0 {
        0
    } else if name_before(name, sorted[0].0) {
        0
    } else {
        1 + insert_position(sorted.skip(1), name)
    }
}

/// An index with no entry before it that `name` comes strictly before, and
/// whose own entry, if there is one, `name` does come before, is the one that
/// `insert_position` gives.
pub proof fn lemma_insert_position_is(sorted: Seq<AttrModel>, name: Seq<char>, p: int)
    requires
        0 <= p <= sorted.len(),
        forall|k: int| 0 <= k < p ==> !name_before(name, #[trigger] sorted[k].0),
        p < sorted.len() ==> name_before(name, sorted[p].0),
    ensures
        insert_position(sorted, name) == p,
    decreases sorted.len(),
{
    if sorted.len() > 0 {
        if p == 0 {
        } else {
            assert(!name_before(name, sorted[0].0));
            let rest = sorted.skip(1);
            assert forall|k: int| 0 <= k < p - 1 implies !name_before(
                name,
                #[trigger] rest[k].0,
            ) by {
                assert(rest[k] == sorted[k + 1]);
            }
            lemma_insert_position_is(rest, name, p - 1);
        }
    }
}

/// `insert_sorted` puts the entry at `insert_position` and moves nothing else.
pub proof fn lemma_insert_sorted_at(sorted: Seq<AttrModel>, a: AttrModel)
    ensures
        0 <= insert_position(sorted, a.0) <= sorted.len(),
        insert_sorted(sorted, a) == sorted.insert(insert_position(sorted, a.0), a),
        forall|k: int|
            0 <= k < insert_position(sorted, a.0) ==> !name_before(a.0, #[trigger] sorted[k].0),
        insert_position(sorted, a.0) < sorted.len() ==> name_before(
            a.0,
            sorted[insert_position(sorted, a.0)].0,
        ),
    decreases sorted.len(),
{
    if sorted.len() == 0 {
        assert(seq![a] == sorted.insert(0, a));
    } else if name_before(a.0, sorted[0].0) {
        assert(seq![a] + sorted == sorted.insert(0, a));
    } else {
        let rest = sorted.skip(1);
        lemma_insert_sorted_at(rest, a);
        let p = insert_position(rest, a.0);
        assert(seq![sorted[0]] + rest.insert(p, a) == sorted.insert(p + 1, a));
        assert forall|k: int| 0 <= k < p + 1 implies !name_before(a.0, #[trigger] sorted[k].0) by {
            if k > 0 {
                assert(rest[k - 1] == sorted[k]);
            }
        }
    }
}

/// The written order holds the same entries, each as often as the list does.
pub proof fn lemma_sort_is_permutation(entries: Seq<AttrModel>)
    ensures
        sort_attributes(entries).to_multiset() == entries.to_multiset(),
        sort_attributes(entries).len() == entries.len(),
    decreases entries.len(),
{
    if entries.len() > 0 {
        let init = entries.drop_last();
        let a = entries.last();
        lemma_sort_is_permutation(init);
        let sorted = sort_attributes(init);
        lemma_insert_sorted_at(sorted, a);
        let p = insert_position(sorted, a.0);
        vstd::seq_lib::to_multiset_insert(sorted, p, a);
        vstd::seq_lib::to_multiset_build(init, a);
        assert(entries == init.push(a));
    } else {
        assert(sort_attributes(entries) == entries);
    }
}

/// Lexicographic order is transitive.
pub proof fn lemma_text_lt_transitive(a: Seq<char>, b: Seq<char>, c: Seq<char>)
    requires
        text_lt(a, b),
        text_lt(b, c),
    ensures
        text_lt(a, c),
    decreases a.len(),
{
    if a.len() > 0 && a[0] == b[0] && b[0] == c[0] {
        lemma_text_lt_transitive(a.skip(1), b.skip(1), c.skip(1));
    }
}

/// No text comes before itself.
pub proof fn lemma_text_lt_irreflexive(a: Seq<char>)
    ensures
        !text_lt(a, a),
    decreases a.len(),
{
    if a.len() > 0 {
        lemma_text_lt_irreflexive(a.skip(1));
    }
}

/// The written order of names is transitive.
pub proof fn lemma_name_before_transitive(a: Seq<char>, b: Seq<char>, c: Seq<char>)
    requires
        name_before(a, b),
        name_before(b, c),
    ensures
        name_before(a, c),
{
    if a != for_slot_name() {
        lemma_text_lt_transitive(a, b, c);
    }
}

/// The written order is sorted: no entry comes strictly before an earlier one.
pub proof fn lemma_sort_is_sorted(entries: Seq<AttrModel>)
    ensures
        is_sorted(sort_attributes(entries)),
    decreases entries.len(),
{
    if entries.len() > 0 {
        let init = entries.drop_last();
        let a = entries.last();
        lemma_sort_is_sorted(init);
        let sorted = sort_attributes(init);
        lemma_insert_sorted_at(sorted, a);
        let p = insert_position(sorted, a.0);
        let out = sorted.insert(p, a);
        assert forall|i: int, j: int| 0 <= i < j < out.len() implies !name_before(
            out[j].0,
            out[i].0,
        ) by {
            if i == p {
                assert(out[i] == a);
                assert(out[j] == sorted[j - 1]);
                if name_before(out[j].0, a.0) {
                    lemma_name_before_transitive(out[j].0, a.0, sorted[p].0);
                    lemma_text_lt_irreflexive(sorted[p].0);
                    assert(!name_before(sorted[j - 1].0, sorted[p].0));
                }
            } else if j == p {
                assert(out[j] == a);
                assert(out[i] == sorted[i]);
                assert(!name_before(a.0, sorted[i].0));
            } else {
                let si = if i < p { i } else { i - 1 };
                let sj = if j < p { j } else { j - 1 };
                assert(out[i] == sorted[si]);
                assert(out[j] == sorted[sj]);
            }
        }
    }
}

/// Of two different texts one comes before the other.
pub proof fn lemma_text_lt_total(a: Seq<char>, b: Seq<char>)
    requires
        a != b,
    ensures
        text_lt(a, b) || text_lt(b, a),
    decreases a.len(),
{
    if a.len() > 0 && b.len() > 0 {
        if a[0] == b[0] {
            if a.skip(1) == b.skip(1) {
                assert(a =~= seq![a[0]] + a.skip(1));
                assert(b =~= seq![b[0]] + b.skip(1));
            }
            lemma_text_lt_total(a.skip(1), b.skip(1));
        } else {
            if (a[0] as u32) == (b[0] as u32) {
                vstd::utf8::char_u32_cast(a[0], a[0] as u32);
                vstd::utf8::char_u32_cast(b[0], b[0] as u32);
            }
        }
    } else {
        if a.len() == 0 && b.len() == 0 {
            assert(a =~= b);
        }
    }
}

/// Of two different names one is written before the other.
pub proof fn lemma_name_before_total(a: Seq<char>, b: Seq<char>)
    requires
        a != b,
    ensures
        name_before(a, b) || name_before(b, a),
{
    if a != for_slot_name() && b != for_slot_name() {
        lemma_text_lt_total(a, b);
    }
}

/// Two sorted lists with distinct names that hold the same entries are the
/// same list.
pub proof fn lemma_sorted_is_unique(s: Seq<AttrModel>, t: Seq<AttrModel>)
    requires
        is_sorted(s),
        is_sorted(t),
        names_distinct(s),
        names_distinct(t),
        s.to_multiset() == t.to_multiset(),
    ensures
        s == t,
    decreases s.len(),
{
    vstd::seq_lib::to_multiset_len(s);
    vstd::seq_lib::to_multiset_len(t);
    if s.len() == 0 {
        assert(s =~= t);
    } else {
        let last = s.len() - 1;
        let x = s[last];
        let y = t[last];
        vstd::seq_lib::to_multiset_contains(s, x);
        vstd::seq_lib::to_multiset_contains(t, x);
        vstd::seq_lib::to_multiset_contains(s, y);
        vstd::seq_lib::to_multiset_contains(t, y);
        assert(s.contains(x));
        assert(t.contains(y));
        let k = choose|k: int| 0 <= k < t.len() && t[k] == x;
        let j = choose|j: int| 0 <= j < s.len() && s[j] == y;
        if k != last {
            assert(t[k].0 != t[last].0);
            assert(j != last);
            assert(s[j].0 != s[last].0);
            lemma_name_before_total(x.0, y.0);
            assert(!name_before(s[last].0, s[j].0));
            assert(!name_before(t[last].0, t[k].0));
        }
        assert(x == y);
        vstd::seq_lib::to_multiset_remove(s, last);
        vstd::seq_lib::to_multiset_remove(t, last);
        assert(s.remove(last) =~= s.drop_last());
        assert(t.remove(last) =~= t.drop_last());
        let s0 = s.drop_last();
        let t0 = t.drop_last();
        assert forall|i: int, j: int| 0 <= i < j < s0.len() implies !name_before(
            s0[j].0,
            s0[i].0,
        ) && s0[i].0 != s0[j].0 by {
            assert(s0[i] == s[i] && s0[j] == s[j]);
        }
        assert forall|i: int, j: int| 0 <= i < j < t0.len() implies !name_before(
            t0[j].0,
            t0[i].0,
        ) && t0[i].0 != t0[j].0 by {
            assert(t0[i] == t[i] && t0[j] == t[j]);
        }
        lemma_sorted_is_unique(s0, t0);
        assert(s =~= s0.push(x));
        assert(t =~= t0.push(y));
    }
}

/// A list that holds the same entries as a list with distinct names has
/// distinct names too.
pub proof fn lemma_permutation_keeps_distinct(entries: Seq<AttrModel>, other: Seq<AttrModel>)
    requires
        names_distinct(entries),
        other.to_multiset() == entries.to_multiset(),
    ensures
        names_distinct(other),
{
    assert forall|i: int, j: int| 0 <= i < j < other.len() implies other[i].0 != other[j].0 by {
        // Take the entry at `j` out of both lists. The entry at `i` stays in
        // `other`, so it stands in what is left of `entries` as well, at
        // another place than the one taken out.
        let x = other[j];
        let y = other[i];
        vstd::seq_lib::to_multiset_contains(entries, x);
        vstd::seq_lib::to_multiset_contains(other, x);
        assert(other.contains(x));
        let k = choose|k: int| 0 <= k < entries.len() && entries[k] == x;
        vstd::seq_lib::to_multiset_remove(other, j);
        vstd::seq_lib::to_multiset_remove(entries, k);
        let rest_other = other.remove(j);
        let rest = entries.remove(k);
        assert(rest_other[i] == y);
        vstd::seq_lib::to_multiset_contains(rest_other, y);
        vstd::seq_lib::to_multiset_contains(rest, y);
        assert(rest_other.contains(y));
        assert(rest.contains(y));
        let m = choose|m: int| 0 <= m < rest.len() && rest[m] == y;
        let at = if m < k {
            m
        } else {
            m + 1
        };
        assert(entries[at] == y);
        if at < k {
            assert(entries[at].0 != entries[k].0);
        } else {
            assert(entries[k].0 != entries[at].0);
        }
    }
}

/// Sorting keeps the names distinct.
pub proof fn lemma_sort_keeps_distinct(entries: Seq<AttrModel>)
    requires
        names_distinct(entries),
    ensures
        names_distinct(sort_attributes(entries)),
{
    lemma_sort_is_permutation(entries);
    lemma_permutation_keeps_distinct(entries, sort_attributes(entries));
}

/// The written order does not depend on the order in which the attributes
/// were set: two lists with distinct names that hold the same entries are
/// written alike.
pub proof fn lemma_written_order_ignores_insertion(a: Seq<AttrModel>, b: Seq<AttrModel>)
    requires
        names_distinct(a),
        names_distinct(b),
        a.to_multiset() == b.to_multiset(),
    ensures
        sort_attributes(a) == sort_attributes(b),
{
    lemma_sort_is_permutation(a);
    lemma_sort_is_permutation(b);
    lemma_sort_is_sorted(a);
    lemma_sort_is_sorted(b);
    lemma_sort_keeps_distinct(a);
    lemma_sort_keeps_distinct(b);
    lemma_sorted_is_unique(sort_attributes(a), sort_attributes(b));
}

// ---------------------------------------------------------------------------
// Sorting
// ---------------------------------------------------------------------------

/// Whether `a` comes before `b` in lexicographic order.
pub fn text_less(a: &Vec<char>, b: &Vec<char>) -> (r: bool)
    ensures
        r == text_lt(a@, b@),
{
    let mut i: usize = 0;
    assert(a@.skip(0) == a@ && b@.skip(0) == b@);
    while i < a.len() && i < b.len()
        invariant
            i <= a.len(),
            i <= b.len(),
            text_lt(a@, b@) == text_lt(a@.skip(i as int), b@.skip(i as int)),
        decreases a.len() - i,
    {
        if a[i] != b[i] {
            let x: u32 = a[i] as u32;
            let y: u32 = b[i] as u32;
            return x < y;
        }
        assert(a@.skip(i as int).skip(1) == a@.skip(i + 1));
        assert(b@.skip(i as int).skip(1) == b@.skip(i + 1));
        i += 1;
    }
    i < b.len()
}

/// Whether the name `a` is written before the name `b`.
pub fn comes_before(a: &Vec<char>, b: &Vec<char>) -> (r: bool)
    ensures
        r == name_before(a@, b@),
{
    let marker = chars_of("for-slot");
    if same_chars(a, &marker) {
        !same_chars(b, &marker)
    } else if same_chars(b, &marker) {
        false
    } else {
        text_less(a, b)
    }
}

impl Attributes {
    /// The attributes in the order in which they are written.
    pub fn sorted(&self) -> (out: Vec<(String, String)>)
        ensures
            pairs_view(out@) == sort_attributes(self@),
    {
        let mut out: Vec<(String, String)> = Vec::new();
        let mut i: usize = 0;
        assert(pairs_view(out@) =~= sort_attributes(self@.take(0)));
        while i < self.entries.len()
            invariant
                i <= self.entries.len(),
                pairs_view(out@) == sort_attributes(self@.take(i as int)),
            decreases self.entries.len() - i,
        {
            let name = chars_of(self.entries[i].0.as_str());
            let ghost sorted = pairs_view(out@);
            let ghost entry = self@[i as int];
            let mut p: usize = 0;
            while p < out.len() && !comes_before(&name, &chars_of(out[p].0.as_str()))
                invariant
                    p <= out.len(),
                    sorted == pairs_view(out@),
                    name@ == entry.0,
                    forall|k: int| 0 <= k < p ==> !name_before(name@, #[trigger] sorted[k].0),
                decreases out.len() - p,
            {
                p += 1;
            }
            proof {
                lemma_insert_position_is(sorted, entry.0, p as int);
                lemma_insert_sorted_at(sorted, entry);
                assert(self@.take(i + 1).drop_last() == self@.take(i as int));
            }
            out.insert(p, (self.entries[i].0.clone(), self.entries[i].1.clone()));
            assert(pairs_view(out@) =~= sorted.insert(p as int, entry));
            i += 1;
        }
        assert(self@.take(self.entries.len() as int) == self@);
        out
    }
}

} // verus!
