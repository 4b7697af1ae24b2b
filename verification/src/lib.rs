//! A server-rendered book catalog browser's core: the faceted
//! query-and-render pipeline.
//!
//! The library turns a catalog snapshot into an alphabetical author facet
//! index with counts, resolves a set of selected authors into a filtered
//! book list, composes the HTML view over the result, and decides whether a
//! request gets the full page shell or only the inner fragment.

pub mod book;
pub mod chars;
pub mod codec;
pub mod facets;
pub mod laws;
pub mod numcast;
pub mod render;
pub mod selection;
pub mod store;
pub mod view;

use vstd::prelude::*;

verus! {

/// Cap on every book listing: at most this many rows come back from a query.
pub const TOP_LIMIT: usize = 30;

/// The images of a sequence of strings.
pub open spec fn str_views(s: Seq<String>) -> Seq<Seq<char>> {
    s.map_values(|t: String| t@)
}

/// Relies on String::push: appends exactly the one character to the string.
pub assume_specification[ String::push ](s: &mut String, ch: char)
    ensures
        final(s)@ == old(s)@.push(ch),
;

} // verus!
