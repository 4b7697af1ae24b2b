//! The library's stated laws: what holds of the facet index, the selection
//! resolver, the listings and the render mode, over all inputs.

use vstd::prelude::*;

use crate::book::{BookView, eligible, rating_key};
use crate::chars::{ci_eq, ci_lt, lemma_ci_lt_trans};
use crate::codec::{has_delim, split_names, join_names, lemma_split_join_names};
use crate::facets::{facet_index, facet_of, group_by_letter, sort_ci, insert_ci, dedup_ci,
    author_names, letter_of};
use crate::render::{RenderMode, mode_of_marker};
use crate::selection::{dedup_exact, contains_name, selection_books, resolved_books};
use crate::store::{top_books, books_by_author, sort_desc, insert_desc, eligible_books,
    author_books, capped};
use crate::TOP_LIMIT;

verus! {

/// Ascending case-insensitive order: no later name is strictly before an
/// earlier one.
pub open spec fn sorted_ci(s: Seq<Seq<char>>) -> bool {
    forall|i: int, j: int| 0 <= i < j < s.len() ==> !ci_lt(#[trigger] s[j], #[trigger] s[i])
}

/// Descending rating order: no later book outranks an earlier one.
pub open spec fn sorted_by_ratings(s: Seq<BookView>) -> bool {
    forall|i: int, j: int|
        0 <= i < j < s.len() ==> rating_key(#[trigger] s[j]) <= rating_key(#[trigger] s[i])
}

/// The buckets flattened back into one run of names.
pub open spec fn flat_groups(groups: Seq<Seq<Seq<char>>>) -> Seq<Seq<char>>
    decreases groups.len(),
{
    if groups.len() == 0 {
        Seq::empty()
    } else {
        flat_groups(groups.drop_last()) + groups.last()
    }
}

/// No name is strictly before itself.
proof fn lemma_ci_lt_irrefl(a: Seq<char>)
    ensures
        !ci_lt(a, a),
    decreases a.len(),
{
    if a.len() > 0 {
        lemma_ci_lt_irrefl(a.drop_first());
    }
}

/// Every name of an insertion is the inserted one or one of the run.
proof fn lemma_insert_ci_elems(t: Seq<Seq<char>>, x: Seq<char>)
    ensures
        insert_ci(t, x).len() == t.len() + 1,
        forall|k: int|
            0 <= k < insert_ci(t, x).len() ==> (#[trigger] insert_ci(t, x)[k] == x || exists|m: int|
                0 <= m < t.len() && t[m] == insert_ci(t, x)[k]),
    decreases t.len(),
{
    if t.len() == 0 {
    } else if ci_lt(x, t[0]) {
        assert forall|k: int| 0 <= k < insert_ci(t, x).len() implies (#[trigger] insert_ci(t, x)[k]
            == x || exists|m: int| 0 <= m < t.len() && t[m] == insert_ci(t, x)[k]) by {
            if k > 0 {
                assert(t[k - 1] == insert_ci(t, x)[k]);
            }
        }
    } else {
        lemma_insert_ci_elems(t.drop_first(), x);
        let r = insert_ci(t, x);
        assert forall|k: int| 0 <= k < r.len() implies (#[trigger] r[k] == x || exists|m: int|
            0 <= m < t.len() && t[m] == r[k]) by {
            if k == 0 {
                assert(t[0] == r[0]);
            } else {
                let ri = insert_ci(t.drop_first(), x);
                assert(r[k] == ri[k - 1]);
                if ri[k - 1] != x {
                    let m = choose|m: int| 0 <= m < t.drop_first().len() && t.drop_first()[m] == ri[k - 1];
                    assert(t[m + 1] == r[k]);
                }
            }
        }
    }
}

/// Insertion keeps the run sorted.
proof fn lemma_insert_ci_sorted(t: Seq<Seq<char>>, x: Seq<char>)
    requires
        sorted_ci(t),
    ensures
        sorted_ci(insert_ci(t, x)),
    decreases t.len(),
{
    if t.len() == 0 {
    } else if ci_lt(x, t[0]) {
        let r = insert_ci(t, x);
        assert forall|i: int, j: int| 0 <= i < j < r.len() implies !ci_lt(#[trigger] r[j],
            #[trigger] r[i]) by {
            assert(r[j] == t[j - 1]);
            if i == 0 {
                if ci_lt(t[j - 1], x) {
                    lemma_ci_lt_trans(t[j - 1], x, t[0]);
                    if j == 1 {
                        lemma_ci_lt_irrefl(t[0]);
                    }
                }
            } else {
                assert(r[i] == t[i - 1]);
            }
        }
    } else {
        assert(sorted_ci(t.drop_first())) by {
            assert forall|i: int, j: int| 0 <= i < j < t.drop_first().len() implies !ci_lt(
                #[trigger] t.drop_first()[j],
                #[trigger] t.drop_first()[i],
            ) by {
                assert(t.drop_first()[j] == t[j + 1]);
                assert(t.drop_first()[i] == t[i + 1]);
            }
        }
        lemma_insert_ci_sorted(t.drop_first(), x);
        lemma_insert_ci_elems(t.drop_first(), x);
        let ri = insert_ci(t.drop_first(), x);
        let r = insert_ci(t, x);
        assert forall|i: int, j: int| 0 <= i < j < r.len() implies !ci_lt(#[trigger] r[j],
            #[trigger] r[i]) by {
            if i == 0 {
                assert(r[0] == t[0]);
                assert(r[j] == ri[j - 1]);
                if ri[j - 1] == x {
                    assert(!ci_lt(x, t[0]));
                } else {
                    let m = choose|m: int| 0 <= m < t.drop_first().len() && t.drop_first()[m] == ri[j - 1];
                    assert(t[m + 1] == ri[j - 1]);
                    assert(!ci_lt(t[m + 1], t[0]));
                }
            } else {
                assert(r[i] == ri[i - 1]);
                assert(r[j] == ri[j - 1]);
            }
        }
    }
}

/// The sort is sorted.
proof fn lemma_sort_ci_sorted(s: Seq<Seq<char>>)
    ensures
        sorted_ci(sort_ci(s)),
    decreases s.len(),
{
    if s.len() > 0 {
        lemma_sort_ci_sorted(s.drop_last());
        lemma_insert_ci_sorted(sort_ci(s.drop_last()), s.last());
    }
}

/// Every name of the sort comes out of the input.
proof fn lemma_sort_ci_elems(s: Seq<Seq<char>>)
    ensures
        forall|k: int|
            0 <= k < sort_ci(s).len() ==> exists|m: int|
                0 <= m < s.len() && s[m] == #[trigger] sort_ci(s)[k],
    decreases s.len(),
{
    if s.len() > 0 {
        lemma_sort_ci_elems(s.drop_last());
        lemma_insert_ci_elems(sort_ci(s.drop_last()), s.last());
        let r = sort_ci(s);
        assert forall|k: int| 0 <= k < r.len() implies exists|m: int|
            0 <= m < s.len() && s[m] == #[trigger] r[k] by {
            if r[k] == s.last() {
                assert(s[s.len() - 1] == r[k]);
            } else {
                let p = choose|p: int|
                    0 <= p < sort_ci(s.drop_last()).len() && sort_ci(s.drop_last())[p] == r[k];
                let m = choose|m: int|
                    0 <= m < s.drop_last().len() && s.drop_last()[m] == sort_ci(s.drop_last())[p];
                assert(s[m] == r[k]);
            }
        }
    }
}

/// Every name kept by the deduplication comes out of the input.
proof fn lemma_dedup_ci_elems(s: Seq<Seq<char>>)
    ensures
        forall|k: int|
            0 <= k < dedup_ci(s).len() ==> exists|m: int|
                0 <= m < s.len() && s[m] == #[trigger] dedup_ci(s)[k],
    decreases s.len(),
{
    if s.len() > 0 {
        lemma_dedup_ci_elems(s.drop_last());
        let r = dedup_ci(s);
        assert forall|k: int| 0 <= k < r.len() implies exists|m: int|
            0 <= m < s.len() && s[m] == #[trigger] r[k] by {
            let p = dedup_ci(s.drop_last());
            if k < p.len() {
                let m = choose|m: int| 0 <= m < s.drop_last().len() && s.drop_last()[m] == p[k];
                assert(s[m] == r[k]);
            } else {
                assert(s[s.len() - 1] == r[k]);
            }
        }
    }
}

/// Every eligible book comes out of the snapshot, and is eligible.
proof fn lemma_eligible_books_elems(s: Seq<BookView>)
    ensures
        forall|k: int|
            0 <= k < eligible_books(s).len() ==> exists|m: int|
                0 <= m < s.len() && s[m] == #[trigger] eligible_books(s)[k],
        forall|k: int| 0 <= k < eligible_books(s).len() ==> eligible(#[trigger] eligible_books(s)[k]),
    decreases s.len(),
{
    if s.len() > 0 {
        lemma_eligible_books_elems(s.drop_last());
        let r = eligible_books(s);
        assert forall|k: int| 0 <= k < r.len() implies exists|m: int|
            0 <= m < s.len() && s[m] == #[trigger] r[k] by {
            let p = eligible_books(s.drop_last());
            if k < p.len() {
                let m = choose|m: int| 0 <= m < s.drop_last().len() && s.drop_last()[m] == p[k];
                assert(s[m] == r[k]);
            } else {
                assert(s[s.len() - 1] == r[k]);
            }
        }
        assert forall|k: int| 0 <= k < r.len() implies eligible(#[trigger] r[k]) by {
            let p = eligible_books(s.drop_last());
            if k < p.len() {
                assert(r[k] == p[k]);
            } else {
                assert(r[k] == s.last());
            }
        }
    }
}

/// Every listed by-author book comes out of the snapshot, is eligible, and
/// carries the asked-for author.
proof fn lemma_author_books_elems(s: Seq<BookView>, a: Seq<char>)
    ensures
        forall|k: int|
            0 <= k < author_books(s, a).len() ==> exists|m: int|
                0 <= m < s.len() && s[m] == #[trigger] author_books(s, a)[k],
        forall|k: int|
            0 <= k < author_books(s, a).len() ==> eligible(#[trigger] author_books(s, a)[k])
                && ci_eq(author_books(s, a)[k].author, a),
    decreases s.len(),
{
    if s.len() > 0 {
        lemma_author_books_elems(s.drop_last(), a);
        let r = author_books(s, a);
        assert forall|k: int| 0 <= k < r.len() implies exists|m: int|
            0 <= m < s.len() && s[m] == #[trigger] r[k] by {
            let p = author_books(s.drop_last(), a);
            if k < p.len() {
                let m = choose|m: int| 0 <= m < s.drop_last().len() && s.drop_last()[m] == p[k];
                assert(s[m] == r[k]);
            } else {
                assert(s[s.len() - 1] == r[k]);
            }
        }
        assert forall|k: int| 0 <= k < r.len() implies eligible(#[trigger] r[k]) && ci_eq(
            r[k].author,
            a,
        ) by {
            let p = author_books(s.drop_last(), a);
            if k < p.len() {
                assert(r[k] == p[k]);
            } else {
                assert(r[k] == s.last());
            }
        }
    }
}

/// Every book of an insertion is the inserted one or one of the run.
proof fn lemma_insert_desc_elems(t: Seq<BookView>, x: BookView)
    ensures
        insert_desc(t, x).len() == t.len() + 1,
        forall|k: int|
            0 <= k < insert_desc(t, x).len() ==> (#[trigger] insert_desc(t, x)[k] == x || exists|
                m: int,
            | 0 <= m < t.len() && t[m] == insert_desc(t, x)[k]),
    decreases t.len(),
{
    if t.len() == 0 {
    } else if rating_key(x) > rating_key(t[0]) {
        assert forall|k: int| 0 <= k < insert_desc(t, x).len() implies (#[trigger] insert_desc(
            t,
            x,
        )[k] == x || exists|m: int| 0 <= m < t.len() && t[m] == insert_desc(t, x)[k]) by {
            if k > 0 {
                assert(t[k - 1] == insert_desc(t, x)[k]);
            }
        }
    } else {
        lemma_insert_desc_elems(t.drop_first(), x);
        let r = insert_desc(t, x);
        assert forall|k: int| 0 <= k < r.len() implies (#[trigger] r[k] == x || exists|m: int|
            0 <= m < t.len() && t[m] == r[k]) by {
            if k == 0 {
                assert(t[0] == r[0]);
            } else {
                let ri = insert_desc(t.drop_first(), x);
                assert(r[k] == ri[k - 1]);
                if ri[k - 1] != x {
                    let m = choose|m: int| 0 <= m < t.drop_first().len() && t.drop_first()[m] == ri[k - 1];
                    assert(t[m + 1] == r[k]);
                }
            }
        }
    }
}

/// Insertion keeps the run sorted by descending rating.
proof fn lemma_insert_desc_sorted(t: Seq<BookView>, x: BookView)
    requires
        sorted_by_ratings(t),
    ensures
        sorted_by_ratings(insert_desc(t, x)),
    decreases t.len(),
{
    if t.len() == 0 {
    } else if rating_key(x) > rating_key(t[0]) {
        let r = insert_desc(t, x);
        assert forall|i: int, j: int| 0 <= i < j < r.len() implies rating_key(#[trigger] r[j])
            <= rating_key(#[trigger] r[i]) by {
            assert(r[j] == t[j - 1]);
            if i > 0 {
                assert(r[i] == t[i - 1]);
            }
        }
    } else {
        assert(sorted_by_ratings(t.drop_first())) by {
            assert forall|i: int, j: int| 0 <= i < j < t.drop_first().len() implies rating_key(
                #[trigger] t.drop_first()[j],
            ) <= rating_key(#[trigger] t.drop_first()[i]) by {
                assert(t.drop_first()[j] == t[j + 1]);
                assert(t.drop_first()[i] == t[i + 1]);
            }
        }
        lemma_insert_desc_sorted(t.drop_first(), x);
        lemma_insert_desc_elems(t.drop_first(), x);
        let ri = insert_desc(t.drop_first(), x);
        let r = insert_desc(t, x);
        assert forall|i: int, j: int| 0 <= i < j < r.len() implies rating_key(#[trigger] r[j])
            <= rating_key(#[trigger] r[i]) by {
            if i == 0 {
                assert(r[0] == t[0]);
                assert(r[j] == ri[j - 1]);
                if ri[j - 1] != x {
                    let m = choose|m: int| 0 <= m < t.drop_first().len() && t.drop_first()[m] == ri[j - 1];
                    assert(t[m + 1] == ri[j - 1]);
                }
            } else {
                assert(r[i] == ri[i - 1]);
                assert(r[j] == ri[j - 1]);
            }
        }
    }
}

/// The rating sort is sorted, and its books come out of the input.
proof fn lemma_sort_desc_props(s: Seq<BookView>)
    ensures
        sorted_by_ratings(sort_desc(s)),
        forall|k: int|
            0 <= k < sort_desc(s).len() ==> exists|m: int|
                0 <= m < s.len() && s[m] == #[trigger] sort_desc(s)[k],
    decreases s.len(),
{
    if s.len() > 0 {
        lemma_sort_desc_props(s.drop_last());
        lemma_insert_desc_sorted(sort_desc(s.drop_last()), s.last());
        lemma_insert_desc_elems(sort_desc(s.drop_last()), s.last());
        let r = sort_desc(s);
        assert forall|k: int| 0 <= k < r.len() implies exists|m: int|
            0 <= m < s.len() && s[m] == #[trigger] r[k] by {
            if r[k] == s.last() {
                assert(s[s.len() - 1] == r[k]);
            } else {
                let p = choose|p: int|
                    0 <= p < sort_desc(s.drop_last()).len() && sort_desc(s.drop_last())[p] == r[k];
                let m = choose|m: int|
                    0 <= m < s.drop_last().len() && s.drop_last()[m] == sort_desc(s.drop_last())[p];
                assert(s[m] == r[k]);
            }
        }
    }
}

/// Every book of a listing: the cap holds, the order is descending by
/// rating count, only eligible books appear, and the by-author listing
/// carries only the asked-for author. No book with an empty cover image
/// ever comes back.
pub proof fn lemma_listings_sound(cat: Seq<BookView>, a: Seq<char>)
    ensures
        top_books(cat).len() <= TOP_LIMIT,
        books_by_author(cat, a).len() <= TOP_LIMIT,
        sorted_by_ratings(top_books(cat)),
        sorted_by_ratings(books_by_author(cat, a)),
        forall|k: int| 0 <= k < top_books(cat).len() ==> eligible(#[trigger] top_books(cat)[k]),
        forall|k: int|
            0 <= k < books_by_author(cat, a).len() ==> eligible(#[trigger] books_by_author(cat, a)[k])
                && ci_eq(books_by_author(cat, a)[k].author, a),
{
    lemma_eligible_books_elems(cat);
    lemma_author_books_elems(cat, a);
    lemma_sort_desc_props(eligible_books(cat));
    lemma_sort_desc_props(author_books(cat, a));
    let st = sort_desc(eligible_books(cat));
    let sa = sort_desc(author_books(cat, a));
    assert(capped(st).len() <= st.len() && capped(st).len() <= TOP_LIMIT);
    assert(capped(sa).len() <= sa.len() && capped(sa).len() <= TOP_LIMIT);
    assert forall|k: int| 0 <= k < top_books(cat).len() implies eligible(
        #[trigger] top_books(cat)[k],
    ) by {
        assert(top_books(cat)[k] == st[k]);
        let m = choose|m: int|
            0 <= m < eligible_books(cat).len() && eligible_books(cat)[m] == st[k];
    }
    assert forall|k: int| 0 <= k < books_by_author(cat, a).len() implies eligible(
        #[trigger] books_by_author(cat, a)[k],
    ) && ci_eq(books_by_author(cat, a)[k].author, a) by {
        assert(books_by_author(cat, a)[k] == sa[k]);
        let m = choose|m: int|
            0 <= m < author_books(cat, a).len() && author_books(cat, a)[m] == sa[k];
    }
}

/// The buckets, flattened, give back the run they divided.
proof fn lemma_group_flat(s: Seq<Seq<char>>)
    ensures
        flat_groups(group_by_letter(s)) == s,
    decreases s.len(),
{
    if s.len() == 0 {
        assert(flat_groups(group_by_letter(s)) =~= s);
    } else {
        lemma_group_flat(s.drop_last());
        let g = group_by_letter(s.drop_last());
        let x = s.last();
        if s.len() >= 2 && letter_of(s[s.len() - 2]) == letter_of(x)
            && g.len() > 0 {
            let g2 = g.update(g.len() - 1, g.last().push(x));
            assert(g2.drop_last() =~= g.drop_last());
            assert(g2.last() == g.last().push(x));
            assert(flat_groups(g2) == flat_groups(g.drop_last()) + g.last().push(x));
            assert(flat_groups(g) == flat_groups(g.drop_last()) + g.last());
            assert(flat_groups(g.drop_last()) + g.last().push(x) =~= (flat_groups(g.drop_last())
                + g.last()).push(x));
            assert(s.drop_last().push(x) =~= s);
        } else {
            let g2 = g.push(seq![x]);
            assert(g2.drop_last() =~= g);
            assert(g2.last() == seq![x]);
            assert(flat_groups(g2) == flat_groups(g) + seq![x]);
            assert(s.drop_last() + seq![x] =~= s);
        }
    }
}

/// No bucket is empty.
proof fn lemma_groups_nonempty(s: Seq<Seq<char>>)
    ensures
        forall|i: int|
            0 <= i < group_by_letter(s).len() ==> #[trigger] group_by_letter(s)[i].len() > 0,
    decreases s.len(),
{
    if s.len() > 0 {
        lemma_groups_nonempty(s.drop_last());
        let g = group_by_letter(s.drop_last());
        let r = group_by_letter(s);
        assert forall|i: int| 0 <= i < r.len() implies #[trigger] r[i].len() > 0 by {
            if s.len() >= 2 && letter_of(s[s.len() - 2]) == letter_of(
                s.last(),
            ) && g.len() > 0 {
                if i < g.len() - 1 {
                    assert(r[i] == g[i]);
                }
            } else {
                if i < g.len() {
                    assert(r[i] == g[i]);
                }
            }
        }
    }
}

/// A bucket member stands somewhere in the flattened run.
proof fn lemma_flat_elem(groups: Seq<Seq<Seq<char>>>, i: int, j: int)
    requires
        0 <= i < groups.len(),
        0 <= j < groups[i].len(),
    ensures
        exists|k: int|
            0 <= k < flat_groups(groups).len() && flat_groups(groups)[k] == groups[i][j],
    decreases groups.len(),
{
    if i == groups.len() - 1 {
        let k = flat_groups(groups.drop_last()).len() + j;
        assert(flat_groups(groups)[k as int] == groups.last()[j]);
    } else {
        assert(groups.drop_last()[i] == groups[i]);
        lemma_flat_elem(groups.drop_last(), i, j);
        let k = choose|k: int|
            0 <= k < flat_groups(groups.drop_last()).len() && flat_groups(groups.drop_last())[k]
                == groups.drop_last()[i][j];
        assert(flat_groups(groups)[k] == groups[i][j]);
    }
}

/// The facet index is ordered: flattened back into one run, the buckets'
/// member names are the distinct eligible authors in ascending
/// case-insensitive order — so the buckets stand in ascending order and so
/// do the names inside each bucket — and each bucket's count is the number
/// of its member names.
pub proof fn lemma_facet_index_ordered(cat: Seq<BookView>)
    ensures
        flat_groups(group_by_letter(sort_ci(dedup_ci(author_names(cat))))) == sort_ci(
            dedup_ci(author_names(cat)),
        ),
        sorted_ci(sort_ci(dedup_ci(author_names(cat)))),
        facet_index(cat).len() == group_by_letter(sort_ci(dedup_ci(author_names(cat)))).len(),
        forall|i: int|
            0 <= i < facet_index(cat).len() ==> #[trigger] facet_index(cat)[i].author_count
                == group_by_letter(sort_ci(dedup_ci(author_names(cat))))[i].len(),
        forall|i: int|
            0 <= i < facet_index(cat).len() ==> #[trigger] facet_index(cat)[i].authors == join_names(
                group_by_letter(sort_ci(dedup_ci(author_names(cat))))[i],
            ),
{
    lemma_sort_ci_sorted(dedup_ci(author_names(cat)));
    lemma_group_flat(sort_ci(dedup_ci(author_names(cat))));
}

/// Each bucket's count equals the number of `,,,`-delimited segments of its
/// `authors` field, and splitting that field gives back exactly the member
/// names — provided no author name in the snapshot holds the delimiter and
/// none ends with a comma.
pub proof fn lemma_bucket_count_segments(cat: Seq<BookView>)
    requires
        forall|k: int| 0 <= k < cat.len() ==> !has_delim(#[trigger] cat[k].author),
        forall|k: int|
            0 <= k < cat.len() ==> ((#[trigger] cat[k].author).len() > 0 ==> cat[k].author.last()
                != ','),
    ensures
        forall|i: int|
            0 <= i < facet_index(cat).len() ==> split_names(
                #[trigger] facet_index(cat)[i].authors,
            ).len() == facet_index(cat)[i].author_count,
{
    let names0 = author_names(cat);
    let dd = dedup_ci(names0);
    let so = sort_ci(dd);
    let groups = group_by_letter(so);
    lemma_eligible_books_elems(cat);
    lemma_dedup_ci_elems(names0);
    lemma_sort_ci_elems(dd);
    lemma_groups_nonempty(so);
    lemma_group_flat(so);
    assert forall|n: int| 0 <= n < names0.len() implies !has_delim(#[trigger] names0[n]) && (
    names0[n].len() > 0 ==> names0[n].last() != ',') by {
        assert(names0[n] == eligible_books(cat)[n].author);
        let m = choose|m: int|
            0 <= m < cat.len() && cat[m] == eligible_books(cat)[n];
        assert(!has_delim(cat[m].author));
    }
    assert forall|i: int| 0 <= i < facet_index(cat).len() implies split_names(
        #[trigger] facet_index(cat)[i].authors,
    ).len() == facet_index(cat)[i].author_count by {
        let g = groups[i];
        assert(facet_index(cat)[i] == facet_of(g));
        assert(g.len() > 0);
        assert forall|j: int| 0 <= j < g.len() implies !has_delim(#[trigger] g[j]) && (g[j].len()
            > 0 ==> g[j].last() != ',') by {
            lemma_flat_elem(groups, i, j);
            let k = choose|k: int|
                0 <= k < flat_groups(groups).len() && flat_groups(groups)[k] == g[j];
            assert(so[k] == g[j]);
            let m1 = choose|m: int| 0 <= m < dd.len() && dd[m] == so[k];
            let m2 = choose|m: int| 0 <= m < names0.len() && names0[m] == dd[m1];
            assert(names0[m2] == g[j]);
        }
        lemma_split_join_names(g);
    }
}

/// Every name in every facet bucket is the author of some eligible book of
/// the snapshot: an author all of whose books lack a cover image appears in
/// no bucket.
pub proof fn lemma_facets_only_eligible_authors(cat: Seq<BookView>)
    ensures
        forall|i: int, j: int|
            0 <= i < group_by_letter(sort_ci(dedup_ci(author_names(cat)))).len() && 0 <= j
                < group_by_letter(sort_ci(dedup_ci(author_names(cat))))[i].len() ==> exists|m: int|
                0 <= m < cat.len() && eligible(cat[m]) && #[trigger] group_by_letter(
                    sort_ci(dedup_ci(author_names(cat))),
                )[i][j] == cat[m].author,
{
    let names0 = author_names(cat);
    let dd = dedup_ci(names0);
    let so = sort_ci(dd);
    let groups = group_by_letter(so);
    lemma_eligible_books_elems(cat);
    lemma_dedup_ci_elems(names0);
    lemma_sort_ci_elems(dd);
    lemma_group_flat(so);
    assert forall|i: int, j: int|
        0 <= i < groups.len() && 0 <= j < groups[i].len() implies exists|m: int|
        0 <= m < cat.len() && eligible(cat[m]) && #[trigger] groups[i][j] == cat[m].author by {
        lemma_flat_elem(groups, i, j);
        let k = choose|k: int|
            0 <= k < flat_groups(groups).len() && flat_groups(groups)[k] == groups[i][j];
        assert(so[k] == groups[i][j]);
        let m1 = choose|m: int| 0 <= m < dd.len() && dd[m] == so[k];
        let m2 = choose|m: int| 0 <= m < names0.len() && names0[m] == dd[m1];
        assert(names0[m2] == eligible_books(cat)[m2].author);
        let m3 = choose|m: int| 0 <= m < cat.len() && cat[m] == eligible_books(cat)[m2];
        assert(eligible(cat[m3]) && groups[i][j] == cat[m3].author);
    }
}

/// For an empty selection the resolved book list is exactly the top
/// listing, order and cap preserved.
pub proof fn lemma_resolve_empty(cat: Seq<BookView>, raw: Seq<Seq<char>>)
    requires
        raw.len() == 0,
    ensures
        resolved_books(cat, raw) == top_books(cat),
{
}

/// For a selection of two distinct authors the resolved book list is the
/// concatenation of their by-author listings, in that order, each
/// independently capped and ordered.
pub proof fn lemma_resolve_two(cat: Seq<BookView>, a: Seq<char>, b: Seq<char>)
    requires
        a != b,
    ensures
        resolved_books(cat, seq![a, b]) == books_by_author(cat, a) + books_by_author(cat, b),
{
    let raw = seq![a, b];
    assert(raw.drop_last() =~= seq![a]);
    assert(seq![a].drop_last() =~= Seq::<Seq<char>>::empty());
    assert(dedup_exact(Seq::<Seq<char>>::empty()) =~= Seq::<Seq<char>>::empty());
    assert(!contains_name(Seq::<Seq<char>>::empty(), a));
    assert(dedup_exact(seq![a]) =~= seq![a]);
    assert(!contains_name(seq![a], b)) by {
        if contains_name(seq![a], b) {
            let j = choose|j: int| 0 <= j < 1 && seq![a][j] == b;
            assert(a == b);
        }
    }
    assert(dedup_exact(raw) =~= seq![a, b]);
    let sel = dedup_exact(raw);
    assert(sel.drop_last() =~= seq![a]);
    assert(selection_books(cat, seq![a]) == selection_books(cat, seq![a].drop_last())
        + books_by_author(cat, a));
    assert(selection_books(cat, Seq::<Seq<char>>::empty()) =~= Seq::<BookView>::empty());
    assert(selection_books(cat, seq![a]) =~= books_by_author(cat, a));
    assert(resolved_books(cat, raw) =~= books_by_author(cat, a) + books_by_author(cat, b));
}

/// Exactly the marker value `true` — case-sensitive, byte-exact — selects
/// the bare fragment; any other value, or none, selects the full page.
pub proof fn lemma_render_mode_exact(marker: Option<Seq<char>>)
    ensures
        (mode_of_marker(marker) == RenderMode::Fragment) <==> (marker == Some("true"@)),
        mode_of_marker(marker) == RenderMode::Fragment || mode_of_marker(marker)
            == RenderMode::Full,
{
}

} // verus!
