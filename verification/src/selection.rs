//! The selection resolver.
//!
//! The visitor's filter arrives as zero or more raw author-name values. With
//! none given, no filter applies and the plain top listing is the result.
//! Otherwise the values collapse into a set — the first occurrence of each
//! exact name keeps its place — and one by-author query per distinct name
//! runs, in that order; the result is the plain concatenation of the
//! per-author listings, each independently capped and ordered.

use vstd::prelude::*;

use crate::book::{Book, BookView, book_views};
use crate::chars::str_equal;
use crate::store::{books_by_author, top_books, list_books_by_author, list_top_books};
use crate::str_views;

verus! {

/// Does the list hold exactly the name `x`?
pub open spec fn contains_name(s: Seq<Seq<char>>, x: Seq<char>) -> bool {
    exists|j: int| 0 <= j < s.len() && #[trigger] s[j] == x
}

/// The raw values with exact duplicates dropped: of each repeated name the
/// first occurrence keeps its place.
pub open spec fn dedup_exact(s: Seq<Seq<char>>) -> Seq<Seq<char>>
    decreases s.len(),
{
    if s.len() == 0 {
        Seq::empty()
    } else {
        let p = dedup_exact(s.drop_last());
        if contains_name(p, s.last()) {
            p
        } else {
            p.push(s.last())
        }
    }
}

/// The concatenation of the by-author listings of the given names, in order.
pub open spec fn selection_books(cat: Seq<BookView>, sel: Seq<Seq<char>>) -> Seq<BookView>
    decreases sel.len(),
{
    if sel.len() == 0 {
        Seq::empty()
    } else {
        selection_books(cat, sel.drop_last()) + books_by_author(cat, sel.last())
    }
}

/// What the resolver returns: the top listing when no value was given, else
/// the concatenated by-author listings of the distinct names.
pub open spec fn resolved_books(cat: Seq<BookView>, raw: Seq<Seq<char>>) -> Seq<BookView> {
    if raw.len() == 0 {
        top_books(cat)
    } else {
        selection_books(cat, dedup_exact(raw))
    }
}

/// Is exactly the name `x` among the selection?
pub fn selection_contains(sel: &Vec<String>, x: &str) -> (r: bool)
    ensures
        r == contains_name(str_views(sel@), x@),
{
    let mut j: usize = 0;
    while j < sel.len()
        invariant
            j <= sel.len(),
            forall|k: int| 0 <= k < j ==> #[trigger] str_views(sel@)[k] != x@,
        decreases sel.len() - j,
    {
        if str_equal(sel[j].as_str(), x) {
            proof {
                assert(str_views(sel@)[j as int] == sel@[j as int]@);
            }
            return true;
        }
        proof {
            assert(str_views(sel@)[j as int] == sel@[j as int]@);
        }
        j += 1;
    }
    false
}

/// Collapses the raw values into the selection: exact duplicates drop, the
/// first occurrence of each name keeps its place.
pub fn dedup_selection(raw: &Vec<String>) -> (r: Vec<String>)
    ensures
        str_views(r@) == dedup_exact(str_views(raw@)),
{
    let mut out: Vec<String> = Vec::new();
    let mut i: usize = 0;
    while i < raw.len()
        invariant
            i <= raw.len(),
            str_views(out@) == dedup_exact(str_views(raw@.take(i as int))),
        decreases raw.len() - i,
    {
        proof {
            assert(str_views(raw@.take(i + 1)).drop_last() =~= str_views(raw@.take(i as int)));
            assert(str_views(raw@.take(i + 1)).last() == raw@[i as int]@);
        }
        if !selection_contains(&out, raw[i].as_str()) {
            let ghost prev = str_views(out@);
            let name = raw[i].clone();
            out.push(name);
            proof {
                assert(str_views(out@) =~= prev.push(raw@[i as int]@));
            }
        }
        i += 1;
    }
    proof {
        assert(raw@.take(raw@.len() as int) =~= raw@);
    }
    out
}

/// Resolves the raw filter values against the snapshot: the top listing for
/// an empty selection, else one by-author listing per distinct name, in
/// arrival order, concatenated.
pub fn resolve_books(catalog: &Vec<Book>, raw: &Vec<String>) -> (r: Vec<Book>)
    ensures
        book_views(r@) == resolved_books(book_views(catalog@), str_views(raw@)),
{
    if raw.len() == 0 {
        return list_top_books(catalog);
    }
    let sel = dedup_selection(raw);
    let mut out: Vec<Book> = Vec::new();
    let mut i: usize = 0;
    while i < sel.len()
        invariant
            i <= sel.len(),
            str_views(sel@) == dedup_exact(str_views(raw@)),
            book_views(out@) == selection_books(
                book_views(catalog@),
                str_views(sel@).take(i as int),
            ),
        decreases sel.len() - i,
    {
        let mut rows = list_books_by_author(catalog, &sel[i]);
        let ghost prev = book_views(out@);
        let ghost rv = book_views(rows@);
        out.append(&mut rows);
        proof {
            assert(book_views(out@) =~= prev + rv);
            assert(str_views(sel@).take(i + 1).drop_last() =~= str_views(sel@).take(i as int));
            assert(str_views(sel@).take(i + 1).last() == sel@[i as int]@);
        }
        i += 1;
    }
    proof {
        assert(str_views(sel@).take(str_views(sel@).len() as int) =~= str_views(sel@));
    }
    out
}

} // verus!
