//! The catalog store's read operations over a request-scoped snapshot.
//!
//! Both listings keep only eligible books (non-empty cover image), order
//! them by descending numeric rating count — a stable order, ties keep the
//! snapshot order — and cap the result at `TOP_LIMIT` rows. The by-author
//! listing further restricts to an exact author match under case-insensitive
//! collation.

use vstd::prelude::*;

use crate::book::{Book, BookView, book_views, eligible, rating_key};
use crate::chars::{ci_eq, ci_equal};
use crate::numcast::rating_value;
use crate::TOP_LIMIT;

verus! {

/// The eligible books of a snapshot, in snapshot order.
pub open spec fn eligible_books(s: Seq<BookView>) -> Seq<BookView>
    decreases s.len(),
{
    if s.len() == 0 {
        Seq::empty()
    } else {
        let p = eligible_books(s.drop_last());
        if eligible(s.last()) {
            p.push(s.last())
        } else {
            p
        }
    }
}

/// The eligible books of a snapshot whose author is `a` under
/// case-insensitive collation, in snapshot order.
pub open spec fn author_books(s: Seq<BookView>, a: Seq<char>) -> Seq<BookView>
    decreases s.len(),
{
    if s.len() == 0 {
        Seq::empty()
    } else {
        let p = author_books(s.drop_last(), a);
        if eligible(s.last()) && ci_eq(s.last().author, a) {
            p.push(s.last())
        } else {
            p
        }
    }
}

/// Insertion of a book into a run sorted by descending rating key: it lands
/// after every book with an equal or greater key, so equal keys keep their
/// arrival order.
pub open spec fn insert_desc(t: Seq<BookView>, x: BookView) -> Seq<BookView>
    decreases t.len(),
{
    if t.len() == 0 {
        seq![x]
    } else if rating_key(x) > rating_key(t[0]) {
        seq![x] + t
    } else {
        seq![t[0]] + insert_desc(t.drop_first(), x)
    }
}

/// Stable sort by descending rating key.
pub open spec fn sort_desc(s: Seq<BookView>) -> Seq<BookView>
    decreases s.len(),
{
    if s.len() == 0 {
        Seq::empty()
    } else {
        insert_desc(sort_desc(s.drop_last()), s.last())
    }
}

/// The first rows of a listing, up to the cap.
pub open spec fn capped(s: Seq<BookView>) -> Seq<BookView> {
    if s.len() <= TOP_LIMIT {
        s
    } else {
        s.take(TOP_LIMIT as int)
    }
}

/// What `list_top_books` returns, of the snapshot's image.
pub open spec fn top_books(cat: Seq<BookView>) -> Seq<BookView> {
    capped(sort_desc(eligible_books(cat)))
}

/// What `list_books_by_author` returns, of the snapshot's image.
pub open spec fn books_by_author(cat: Seq<BookView>, a: Seq<char>) -> Seq<BookView> {
    capped(sort_desc(author_books(cat, a)))
}

/// Inserting before the first strictly smaller key is what `insert_desc`
/// does: the new book lands at the first index whose key its own exceeds.
proof fn lemma_insert_desc_at(t: Seq<BookView>, x: BookView, j: int)
    requires
        0 <= j <= t.len(),
        forall|k: int| 0 <= k < j ==> !(rating_key(x) > rating_key(#[trigger] t[k])),
        j < t.len() ==> rating_key(x) > rating_key(t[j]),
    ensures
        insert_desc(t, x) == t.take(j) + seq![x] + t.skip(j),
    decreases j,
{
    if j == 0 {
        assert(insert_desc(t, x) =~= t.take(0) + seq![x] + t.skip(0));
    } else {
        assert(!(rating_key(x) > rating_key(t[0])));
        lemma_insert_desc_at(t.drop_first(), x, j - 1);
        assert(t.drop_first().take(j - 1) =~= t.take(j).drop_first());
        assert(t.drop_first().skip(j - 1) =~= t.skip(j));
        assert(seq![t[0]] + (t.take(j).drop_first() + seq![x] + t.skip(j)) =~= t.take(j) + seq![x]
            + t.skip(j));
    }
}

/// Filters a snapshot to its eligible books, or to the eligible books of one
/// author when `author` is given.
fn filter_books(catalog: &Vec<Book>, author: Option<&String>) -> (r: Vec<Book>)
    ensures
        author is None ==> book_views(r@) == eligible_books(book_views(catalog@)),
        author matches Some(a) ==> book_views(r@) == author_books(book_views(catalog@), a@),
{
    let mut out: Vec<Book> = Vec::new();
    let mut i: usize = 0;
    while i < catalog.len()
        invariant
            i <= catalog.len(),
            author is None ==> book_views(out@) == eligible_books(
                book_views(catalog@.take(i as int)),
            ),
            author matches Some(a) ==> book_views(out@) == author_books(
                book_views(catalog@.take(i as int)),
                a@,
            ),
        decreases catalog.len() - i,
    {
        let b = &catalog[i];
        let keep = match author {
            None => !b.cover_img.as_str().is_empty(),
            Some(a) => !b.cover_img.as_str().is_empty() && ci_equal(b.author.as_str(), a.as_str()),
        };
        proof {
            assert(book_views(catalog@.take(i + 1)).drop_last() =~= book_views(
                catalog@.take(i as int),
            ));
            assert(book_views(catalog@.take(i + 1)).last() == catalog@[i as int]@);
        }
        if keep {
            out.push(b.duplicate());
        }
        i += 1;
    }
    proof {
        assert(catalog@.take(catalog@.len() as int) =~= catalog@);
    }
    out
}

/// Sorts books by descending numeric rating count; equal counts keep their
/// order of arrival.
fn sort_books(input: Vec<Book>) -> (r: Vec<Book>)
    ensures
        book_views(r@) == sort_desc(book_views(input@)),
{
    let mut out: Vec<Book> = Vec::new();
    let mut i: usize = 0;
    while i < input.len()
        invariant
            i <= input.len(),
            book_views(out@) == sort_desc(book_views(input@.take(i as int))),
        decreases input.len() - i,
    {
        let b = &input[i];
        let kb = rating_value(b.num_ratings.as_str());
        let mut j: usize = 0;
        while j < out.len() && !(kb > rating_value(out[j].num_ratings.as_str()))
            invariant
                j <= out.len(),
                kb as int == rating_key(b@),
                forall|k: int|
                    0 <= k < j ==> !(rating_key(b@) > rating_key(#[trigger] book_views(out@)[k])),
            decreases out.len() - j,
        {
            j += 1;
        }
        proof {
            let t = book_views(out@);
            lemma_insert_desc_at(t, b@, j as int);
            assert(book_views(input@.take(i + 1)).drop_last() =~= book_views(
                input@.take(i as int),
            ));
            assert(book_views(input@.take(i + 1)).last() == input@[i as int]@);
        }
        let dup = b.duplicate();
        out.insert(j, dup);
        proof {
            assert(book_views(out@) =~= sort_desc(book_views(input@.take(i + 1))));
        }
        i += 1;
    }
    proof {
        assert(input@.take(input@.len() as int) =~= input@);
    }
    out
}

/// Caps a listing at `TOP_LIMIT` rows.
fn cap_books(books: &mut Vec<Book>)
    ensures
        book_views(final(books)@) == capped(book_views(old(books)@)),
{
    if books.len() > TOP_LIMIT {
        books.truncate(TOP_LIMIT);
        proof {
            assert(book_views(old(books)@.subrange(0, TOP_LIMIT as int)) =~= book_views(
                old(books)@,
            ).take(TOP_LIMIT as int));
        }
    }
}

/// The eligible books, ordered by descending numeric rating count, capped at
/// `TOP_LIMIT` rows.
pub fn list_top_books(catalog: &Vec<Book>) -> (r: Vec<Book>)
    ensures
        book_views(r@) == top_books(book_views(catalog@)),
{
    let filtered = filter_books(catalog, None);
    let mut sorted = sort_books(filtered);
    cap_books(&mut sorted);
    sorted
}

/// The eligible books whose author matches `author` under case-insensitive
/// collation, ordered by descending numeric rating count, capped at
/// `TOP_LIMIT` rows.
pub fn list_books_by_author(catalog: &Vec<Book>, author: &String) -> (r: Vec<Book>)
    ensures
        book_views(r@) == books_by_author(book_views(catalog@), author@),
{
    let filtered = filter_books(catalog, Some(author));
    let mut sorted = sort_books(filtered);
    cap_books(&mut sorted);
    sorted
}

} // verus!
