//! The rebuild scheduler: change notifications gathered until they have been
//! quiet for the debounce window, then handed out as one batch; and the plan
//! for a batch, a full rebuild or a partial one.

use vstd::prelude::*;
use crate::paths::{is_transient_file, transient_name};
use crate::text::{
    each_once, holds, lemma_with_item_each_once, opt_str, opt_text, texts_view, with_item,
};

verus! {

/// How long, in milliseconds, the changes must have been quiet before a
/// rebuild starts.
pub const DEBOUNCE_MS: u64 = 150;

/// How often a path that is not there is looked for again before it counts as
/// gone.
pub const PROBE_RETRIES: u8 = 3;

/// How long, in milliseconds, to wait before looking again.
pub const PROBE_WAIT_MS: u64 = 10;

// ---------------------------------------------------------------------------
// Debouncing
// ---------------------------------------------------------------------------

/// The two states of the scheduler.
#[derive(Debug, Clone, Copy, PartialEq, Eq, Structural)]
pub enum SchedulerState {
    /// Nothing is pending.
    Idle,
    /// Changes are pending and the debounce window is running.
    PendingDebounce,
}

/// The scheduler as plain values: the pending paths, each once, in the order
/// in which they first came; whether the debounce window is running; and the
/// time of the last change.
pub struct SchedulerModel {
    pub pending: Seq<Seq<char>>,
    pub waiting: bool,
    pub last_change_ms: u64,
}

/// The scheduler before any change.
pub open spec fn idle() -> SchedulerModel {
    SchedulerModel { pending: Seq::empty(), waiting: false, last_change_ms: 0 }
}

/// The scheduler after a change of `path` at time `now_ms`. A transient file
/// changes nothing. Any other path joins the pending set and starts the
/// debounce window anew.
pub open spec fn after_change(
    s: SchedulerModel,
    path: Seq<char>,
    file_name: Option<Seq<char>>,
    now_ms: u64,
) -> SchedulerModel {
    if transient_name(file_name) {
        s
    } else {
        SchedulerModel {
            pending: with_item(s.pending, path),
            waiting: true,
            last_change_ms: now_ms,
        }
    }
}

/// Whether the debounce window has run out at time `now_ms`.
pub open spec fn window_over(s: SchedulerModel, now_ms: u64) -> bool {
    s.waiting && now_ms >= s.last_change_ms && now_ms - s.last_change_ms >= DEBOUNCE_MS
}

/// The batch that a look at the clock at `now_ms` hands out: the pending
/// paths once the window has run out, nothing before.
pub open spec fn batch_at(s: SchedulerModel, now_ms: u64) -> Option<Seq<Seq<char>>> {
    if window_over(s, now_ms) {
        Some(s.pending)
    } else {
        None
    }
}

/// The scheduler after a look at the clock at `now_ms`: idle and empty once
/// the window has run out, unchanged before.
pub open spec fn after_poll(s: SchedulerModel, now_ms: u64) -> SchedulerModel {
    if window_over(s, now_ms) {
        SchedulerModel { pending: Seq::empty(), waiting: false, last_change_ms: s.last_change_ms }
    } else {
        s
    }
}

/// Gathers change notifications and hands them out in batches.
#[derive(Debug)]
pub struct RebuildScheduler {
    pending: Vec<String>,
    waiting: bool,
    last_change_ms: u64,
}

impl View for RebuildScheduler {
    type V = SchedulerModel;

    closed spec fn view(&self) -> SchedulerModel {
        SchedulerModel {
            pending: texts_view(self.pending@),
            waiting: self.waiting,
            last_change_ms: self.last_change_ms,
        }
    }
}

impl RebuildScheduler {
    #[verifier::type_invariant]
    spec fn well_formed(&self) -> bool {
        each_once(self@.pending)
    }

    /// A scheduler with nothing pending.
    pub fn new() -> (r: Self)
        ensures
            r@ == idle(),
    {
        let pending: Vec<String> = Vec::new();
        assert(texts_view(pending@) =~= Seq::<Seq<char>>::empty());
        RebuildScheduler { pending, waiting: false, last_change_ms: 0 }
    }

    /// The state: pending while the debounce window runs, idle otherwise.
    pub fn state(&self) -> (r: SchedulerState)
        ensures
            r == (if self@.waiting {
                SchedulerState::PendingDebounce
            } else {
                SchedulerState::Idle
            }),
    {
        if self.waiting {
            SchedulerState::PendingDebounce
        } else {
            SchedulerState::Idle
        }
    }

    /// The number of paths pending.
    pub fn pending_len(&self) -> (n: usize)
        ensures
            n == self@.pending.len(),
    {
        self.pending.len()
    }

    /// Takes a change notification for `path`, whose last component is
    /// `file_name`, at time `now_ms`.
    pub fn on_change(self, path: String, file_name: Option<&str>, now_ms: u64) -> (r: Self)
        ensures
            r@ == after_change(self@, path@, opt_str(file_name), now_ms),
    {
        if is_transient_file(file_name) {
            return self;
        }
        proof {
            use_type_invariant(&self);
            lemma_with_item_each_once(self@.pending, path@);
        }
        let ghost before = self@.pending;
        let mut pending = self.pending;
        if !holds(&pending, path.as_str()) {
            pending.push(path);
            assert(texts_view(pending@) =~= before.push(path@));
        }
        RebuildScheduler { pending, waiting: true, last_change_ms: now_ms }
    }

    /// Looks at the clock: hands out the pending paths as one batch once the
    /// changes have been quiet for the debounce window, and nothing before.
    pub fn on_tick(self, now_ms: u64) -> (r: (Self, Option<Vec<String>>))
        ensures
            r.0@ == after_poll(self@, now_ms),
            match r.1 {
                Some(batch) => batch_at(self@, now_ms) == Some(texts_view(batch@)),
                None => batch_at(self@, now_ms) is None,
            },
    {
        if self.waiting && now_ms >= self.last_change_ms && now_ms - self.last_change_ms
            >= DEBOUNCE_MS {
            let empty: Vec<String> = Vec::new();
            assert(texts_view(empty@) =~= Seq::<Seq<char>>::empty());
            let last_change_ms = self.last_change_ms;
            let batch = self.pending;
            (RebuildScheduler { pending: empty, waiting: false, last_change_ms }, Some(batch))
        } else {
            (self, None)
        }
    }
}

/// The scheduler after a run of changes, one path at each of the given times,
/// none of them a transient file.
pub open spec fn after_changes(
    s: SchedulerModel,
    paths: Seq<Seq<char>>,
    times: Seq<u64>,
) -> SchedulerModel
    decreases paths.len(),
{
    if paths.len() == 0 || times.len() != paths.len() {
        s
    } else {
        after_change(
            after_changes(s, paths.drop_last(), times.drop_last()),
            paths.last(),
            None,
            times.last(),
        )
    }
}

/// A run of changes of distinct paths, starting from an empty pending set,
/// leaves exactly those paths pending, in their order, with the window
/// running from the last change.
pub proof fn lemma_changes_gather(s: SchedulerModel, paths: Seq<Seq<char>>, times: Seq<u64>)
    requires
        s.pending.len() == 0,
        paths.len() == times.len(),
        paths.len() > 0,
        each_once(paths),
    ensures
        after_changes(s, paths, times).pending == paths,
        after_changes(s, paths, times).waiting,
        after_changes(s, paths, times).last_change_ms == times.last(),
    decreases paths.len(),
{
    let init = paths.drop_last();
    if init.len() == 0 {
        assert(after_changes(s, init, times.drop_last()) == s);
        assert(s.pending =~= Seq::<Seq<char>>::empty());
        assert(!s.pending.contains(paths.last()));
        assert(s.pending.push(paths.last()) =~= paths);
    } else {
        assert forall|i: int, j: int| 0 <= i < j < init.len() implies init[i] != init[j] by {
            assert(init[i] == paths[i] && init[j] == paths[j]);
        }
        lemma_changes_gather(s, init, times.drop_last());
        assert(!init.contains(paths.last())) by {
            if init.contains(paths.last()) {
                let k = choose|k: int| 0 <= k < init.len() && init[k] == paths.last();
                assert(paths[k] == paths[paths.len() - 1]);
            }
        }
        assert(init.push(paths.last()) =~= paths);
    }
}

/// A burst of changes of distinct paths is handed out as one batch that holds
/// them all: a look at the clock before the window has run out since the last
/// change hands out nothing and changes nothing; the first look after it hands
/// out all the paths; and after that look nothing is pending, so that a
/// further look hands out nothing.
pub proof fn lemma_burst_is_one_batch(
    paths: Seq<Seq<char>>,
    times: Seq<u64>,
    early_ms: u64,
    now_ms: u64,
    later_ms: u64,
)
    requires
        paths.len() == times.len(),
        paths.len() > 0,
        each_once(paths),
        early_ms < times.last() + DEBOUNCE_MS,
        now_ms >= times.last() + DEBOUNCE_MS,
    ensures
        batch_at(after_changes(idle(), paths, times), early_ms) is None,
        after_poll(after_changes(idle(), paths, times), early_ms) == after_changes(
            idle(),
            paths,
            times,
        ),
        batch_at(after_changes(idle(), paths, times), now_ms) == Some(paths),
        batch_at(after_poll(after_changes(idle(), paths, times), now_ms), later_ms) is None,
{
    lemma_changes_gather(idle(), paths, times);
}

// ---------------------------------------------------------------------------
// Planning a rebuild
// ---------------------------------------------------------------------------

/// What is known of one path of a batch.
#[derive(Debug, Clone, PartialEq, Eq)]
pub struct Change {
    /// The path is gone, also after looking again.
    pub missing: bool,
    /// The path is the layout.
    pub is_layout: bool,
    /// The page that the path stands for, where it stands for one.
    pub page: Option<String>,
}

/// A change as plain values.
pub struct ChangeModel {
    pub missing: bool,
    pub is_layout: bool,
    pub page: Option<Seq<char>>,
}

impl View for Change {
    type V = ChangeModel;

    open spec fn view(&self) -> ChangeModel {
        ChangeModel { missing: self.missing, is_layout: self.is_layout, page: opt_text(self.page) }
    }
}

/// The models of a vector of changes.
pub open spec fn changes_view(changes: Seq<Change>) -> Seq<ChangeModel> {
    Seq::new(changes.len(), |i: int| changes[i]@)
}

/// The models of an optional batch.
pub open spec fn batch_view(batch: Option<&Vec<Change>>) -> Option<Seq<ChangeModel>> {
    match batch {
        Some(changes) => Some(changes_view(changes@)),
        None => None,
    }
}

/// What to rebuild.
#[derive(Debug, Clone, PartialEq, Eq)]
pub enum RebuildPlan {
    /// Every page.
    Full,
    /// These pages only.
    Partial(Vec<String>),
}

/// Whether a batch asks for a full rebuild: a build that no batch started
/// does, an empty batch does, and so does a batch that holds a path that is
/// gone or the layout.
pub open spec fn needs_full_rebuild(batch: Option<Seq<ChangeModel>>) -> bool {
    match batch {
        None => true,
        Some(changes) => changes.len() == 0 || exists|i: int|
            0 <= i < changes.len() && ((#[trigger] changes[i]).missing || changes[i].is_layout),
    }
}

/// The pages of a batch, each once, in the order in which they first come up.
pub open spec fn pages_of(changes: Seq<ChangeModel>) -> Seq<Seq<char>>
    decreases changes.len(),
{
    if changes.len() == 0 {
        Seq::empty()
    } else {
        let earlier = pages_of(changes.drop_last());
        match changes.last().page {
            Some(page) => with_item(earlier, page),
            None => earlier,
        }
    }
}

/// Whether a batch asks for a full rebuild.
pub fn full_rebuild_needed(batch: Option<&Vec<Change>>) -> (r: bool)
    ensures
        r == needs_full_rebuild(batch_view(batch)),
{
    match batch {
        None => true,
        Some(changes) => {
            if changes.len() == 0 {
                return true;
            }
            let ghost models = changes_view(changes@);
            let mut i: usize = 0;
            while i < changes.len()
                invariant
                    i <= changes.len(),
                    models == changes_view(changes@),
                    batch_view(batch) == Some(models),
                    models.len() > 0,
                    forall|k: int|
                        0 <= k < i ==> !((#[trigger] models[k]).missing || models[k].is_layout),
                decreases changes.len() - i,
            {
                if changes[i].missing || changes[i].is_layout {
                    assert(models[i as int].missing || models[i as int].is_layout);
                    return true;
                }
                i += 1;
            }
            false
        },
    }
}

/// The pages of a batch, each once.
pub fn changed_pages(changes: &Vec<Change>) -> (r: Vec<String>)
    ensures
        texts_view(r@) == pages_of(changes_view(changes@)),
{
    let mut out: Vec<String> = Vec::new();
    let mut i: usize = 0;
    let ghost models = changes_view(changes@);
    assert(models.take(0) =~= Seq::<ChangeModel>::empty());
    assert(texts_view(out@) =~= Seq::<Seq<char>>::empty());
    while i < changes.len()
        invariant
            i <= changes.len(),
            models == changes_view(changes@),
            texts_view(out@) == pages_of(models.take(i as int)),
        decreases changes.len() - i,
    {
        assert(models.take(i + 1).drop_last() == models.take(i as int));
        assert(models.take(i + 1).last() == changes@[i as int]@);
        match &changes[i].page {
            Some(page) => {
                if !holds(&out, page.as_str()) {
                    let ghost before = texts_view(out@);
                    out.push(page.clone());
                    assert(texts_view(out@) =~= before.push(page@));
                }
            },
            None => {},
        }
        i += 1;
    }
    assert(models.take(changes.len() as int) == models);
    out
}

/// The plan for a batch: a full rebuild where the batch asks for one, else a
/// rebuild of the batch's pages. `None` stands for a build that no batch
/// started.
pub fn plan_rebuild(batch: Option<&Vec<Change>>) -> (r: RebuildPlan)
    ensures
        match r {
            RebuildPlan::Full => needs_full_rebuild(batch_view(batch)),
            RebuildPlan::Partial(pages) => !needs_full_rebuild(batch_view(batch)) && batch is Some
                && texts_view(pages@) == pages_of(changes_view(batch->0@)),
        },
{
    if full_rebuild_needed(batch) {
        return RebuildPlan::Full;
    }
    match batch {
        Some(changes) => RebuildPlan::Partial(changed_pages(changes)),
        None => RebuildPlan::Full,
    }
}

/// The plan for a batch when it is known whether some page of the source
/// directory was never built: such a page asks for a full rebuild too.
pub fn plan_with_outputs(batch: Option<&Vec<Change>>, output_missing: bool) -> (r: RebuildPlan)
    ensures
        match r {
            RebuildPlan::Full => needs_full_rebuild(batch_view(batch)) || output_missing,
            RebuildPlan::Partial(pages) => !needs_full_rebuild(batch_view(batch))
                && !output_missing && batch is Some && texts_view(pages@) == pages_of(
                changes_view(batch->0@),
            ),
        },
{
    if output_missing {
        RebuildPlan::Full
    } else {
        plan_rebuild(batch)
    }
}

/// The pages of a batch hold no page twice.
pub proof fn lemma_pages_each_once(changes: Seq<ChangeModel>)
    ensures
        each_once(pages_of(changes)),
    decreases changes.len(),
{
    if changes.len() > 0 {
        lemma_pages_each_once(changes.drop_last());
        match changes.last().page {
            Some(page) => lemma_with_item_each_once(pages_of(changes.drop_last()), page),
            None => {},
        }
    }
}

/// A batch that holds the layout asks for a full rebuild, whatever else it
/// holds.
pub proof fn lemma_layout_change_forces_full(changes: Seq<ChangeModel>, i: int)
    requires
        0 <= i < changes.len(),
        changes[i].is_layout,
    ensures
        needs_full_rebuild(Some(changes)),
{
}

// ---------------------------------------------------------------------------
// Looking again for a path that is gone
// ---------------------------------------------------------------------------

/// What to do after a look at a path.
#[derive(Debug, Clone, Copy, PartialEq, Eq, Structural)]
pub enum Probe {
    /// The path is there.
    Present,
    /// The path is gone.
    Missing,
    /// Wait this many milliseconds and look again.
    LookAgain(u64),
}

/// What to do after a look that found the path (`exists`) or did not, when
/// `retries` further looks have been made before it: a path that is there is
/// present; one that is not is looked for again until the retries are used
/// up, and is gone after that.
pub open spec fn probe_step(exists: bool, retries: u8) -> Probe {
    if exists {
        Probe::Present
    } else if retries < PROBE_RETRIES {
        Probe::LookAgain(PROBE_WAIT_MS)
    } else {
        Probe::Missing
    }
}

/// What to do after a look at a path.
pub fn next_probe(exists: bool, retries: u8) -> (r: Probe)
    ensures
        r == probe_step(exists, retries),
{
    if exists {
        Probe::Present
    } else if retries < PROBE_RETRIES {
        Probe::LookAgain(PROBE_WAIT_MS)
    } else {
        Probe::Missing
    }
}

/// Whether a path counts as gone, from the looks made at it in turn: it does
/// when the first look and the retries after it all failed to find it.
pub open spec fn missing_after(looks: Seq<bool>) -> bool {
    looks.len() > PROBE_RETRIES && forall|i: int| 0 <= i <= PROBE_RETRIES ==> !looks[i]
}

/// Whether a path counts as gone, from the looks made at it in turn; looks
/// beyond the last retry are not read.
pub fn path_missing_with_retry(looks: &Vec<bool>) -> (r: bool)
    ensures
        r == missing_after(looks@),
{
    let mut retries: u8 = 0;
    loop
        invariant
            retries <= PROBE_RETRIES,
            forall|i: int| 0 <= i < retries ==> i < looks@.len() && !looks@[i],
        decreases PROBE_RETRIES - retries,
    {
        if retries as usize >= looks.len() {
            return false;
        }
        match next_probe(looks[retries as usize], retries) {
            Probe::Present => {
                assert(looks@[retries as int]);
                return false;
            },
            Probe::Missing => {
                return true;
            },
            Probe::LookAgain(_) => {
                retries += 1;
            },
        }
    }
}

} // verus!
