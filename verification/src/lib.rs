//! A compiler for static pages that share one layout.
//!
//! The layout is an HTML document that declares named slots with
//! `slot="name"`. A page is an HTML document whose elements provide content
//! for slots with `for-slot="name"`. For each page the compiler fills the
//! slots of the layout from the page and leaves every other character of the
//! layout as it stands. It also keeps the pages themselves in a canonical
//! form: one provider for each slot, in the layout's order, with a blank line
//! between them.
//!
//! A text is handed to the parser only where it is short enough and its
//! document is nested no deeper than the parser's crate can write out; the
//! functions whose names begin with `try_` test that first.
//!
//! The library works on texts and plain values. Reading and writing files,
//! watching a directory and keeping time are the caller's part; the library
//! says what to build, what to write and what to take away.
//!
//! # Modules
//!
//! - [`text`]: texts as sequences of characters: case, prefixes, trimming,
//!   line endings.
//! - [`attributes`]: attribute lists and the order in which attributes are
//!   written.
//! - [`markup`]: slots, providers, and the markup of a provider.
//! - [`pattern`]: pattern search, as the `regex` crate does it.
//! - [`document`]: the elements of a document, as the `kuchiki` crate parses
//!   it.
//! - [`catalog`]: the slots of a layout.
//! - [`extract`]: the providers of a page.
//! - [`normalize`]: the canonical form of a page.
//! - [`merge`]: one slot filled in the layout's text.
//! - [`page`]: one page through the whole pipeline.
//! - [`assets`]: content digests, by the `sha2` crate, and the copying of
//!   assets.
//! - [`paths`]: what is read off a path.
//! - [`outputs`]: expected and stale outputs.
//! - [`scheduler`]: debouncing of change notifications and the plan for a
//!   rebuild.
//! - [`report`]: numbers for the build report.
//!
//! # What is taken on trust
//!
//! Everything in this crate is verified but the calls into other crates,
//! which stand in small functions of their own whose contracts are believed:
//! `escape`, `find_first`, `capture_first` and `remove_matches` in
//! [`pattern`], `outline_of` and `select_elements` in [`document`], the hasher
//! of [`assets`], and `push_char` in [`text`] for `String::push`. Where such a call gives a
//! result that cannot be stated in a few lines, the result has a name, and
//! the contracts of the library speak of that name.

pub mod assets;
pub mod attributes;
pub mod catalog;
pub mod document;
pub mod extract;
pub mod markup;
pub mod merge;
pub mod normalize;
pub mod outputs;
pub mod page;
pub mod paths;
pub mod pattern;
pub mod report;
pub mod scheduler;
pub mod text;
