//! The facet index builder.
//!
//! From the catalog snapshot it takes the authors of eligible books, drops
//! case-insensitive duplicates keeping the first spelling seen, sorts the
//! distinct authors ascending under case-insensitive collation (a stable
//! sort: ties keep their order), groups the sorted run by the case-folded
//! first character of the name, and emits one bucket per group: the letter,
//! the member names joined with the `,,,` delimiter in sorted order, and the
//! distinct-author count.

use vstd::prelude::*;

use crate::book::{Book, BookView, book_views};
use crate::chars::{ci_eq, ci_lt, ci_equal, ci_less, fold_char, fold_char_exec};
use crate::codec::{join_names, join_authors};
use crate::store::eligible_books;
use crate::str_views;

verus! {

/// One letter bucket of the author facet panel.
pub struct AuthorFacet {
    /// The case-folded first character of the bucket's names, empty for the
    /// degenerate bucket of the empty author name.
    pub letter: String,
    /// The member author names in sorted order, joined with `,,,`.
    pub authors: String,
    /// The number of distinct authors in the bucket.
    pub author_count: usize,
}

/// The mathematical image of a bucket.
#[verifier::ext_equal]
pub struct FacetView {
    pub letter: Seq<char>,
    pub authors: Seq<char>,
    pub author_count: int,
}

impl View for AuthorFacet {
    type V = FacetView;

    open spec fn view(&self) -> FacetView {
        FacetView {
            letter: self.letter@,
            authors: self.authors@,
            author_count: self.author_count as int,
        }
    }
}

/// The images of a sequence of buckets.
pub open spec fn facet_views(s: Seq<AuthorFacet>) -> Seq<FacetView> {
    s.map_values(|f: AuthorFacet| f@)
}

/// The images of a sequence of grouped name lists.
pub open spec fn group_views(s: Seq<Vec<String>>) -> Seq<Seq<Seq<char>>> {
    s.map_values(|v: Vec<String>| str_views(v@))
}

/// The authors of the eligible books, in snapshot order.
pub open spec fn author_names(cat: Seq<BookView>) -> Seq<Seq<char>> {
    eligible_books(cat).map_values(|b: BookView| b.author)
}

/// Does the list hold a case-insensitive equal of `x`?
pub open spec fn contains_ci(s: Seq<Seq<char>>, x: Seq<char>) -> bool {
    exists|j: int| 0 <= j < s.len() && ci_eq(#[trigger] s[j], x)
}

/// The names with case-insensitive duplicates dropped: of each group of
/// equal names the first spelling seen stays, in its place.
pub open spec fn dedup_ci(s: Seq<Seq<char>>) -> Seq<Seq<char>>
    decreases s.len(),
{
    if s.len() == 0 {
        Seq::empty()
    } else {
        let p = dedup_ci(s.drop_last());
        if contains_ci(p, s.last()) {
            p
        } else {
            p.push(s.last())
        }
    }
}

/// Insertion into a run sorted ascending under case-insensitive collation:
/// the new name lands after every name not strictly greater, so equal names
/// keep their arrival order.
pub open spec fn insert_ci(t: Seq<Seq<char>>, x: Seq<char>) -> Seq<Seq<char>>
    decreases t.len(),
{
    if t.len() == 0 {
        seq![x]
    } else if ci_lt(x, t[0]) {
        seq![x] + t
    } else {
        seq![t[0]] + insert_ci(t.drop_first(), x)
    }
}

/// Stable ascending sort under case-insensitive collation.
pub open spec fn sort_ci(s: Seq<Seq<char>>) -> Seq<Seq<char>>
    decreases s.len(),
{
    if s.len() == 0 {
        Seq::empty()
    } else {
        insert_ci(sort_ci(s.drop_last()), s.last())
    }
}

/// The bucket key of a name: its case-folded first character, or nothing
/// for the empty name.
pub open spec fn letter_of(name: Seq<char>) -> Seq<char> {
    if name.len() == 0 {
        Seq::empty()
    } else {
        seq![fold_char(name[0])]
    }
}

/// The sorted names divided into runs of equal bucket key: a name joins the
/// run of its predecessor when their keys agree, else it opens a new run.
pub open spec fn group_by_letter(s: Seq<Seq<char>>) -> Seq<Seq<Seq<char>>>
    decreases s.len(),
{
    if s.len() == 0 {
        Seq::empty()
    } else {
        let g = group_by_letter(s.drop_last());
        if s.len() >= 2 && letter_of(s[s.len() - 2]) == letter_of(s.last()) && g.len() > 0 {
            g.update(g.len() - 1, g.last().push(s.last()))
        } else {
            g.push(seq![s.last()])
        }
    }
}

/// The bucket a group of names becomes.
pub open spec fn facet_of(group: Seq<Seq<char>>) -> FacetView {
    FacetView {
        letter: if group.len() == 0 {
            Seq::empty()
        } else {
            letter_of(group[0])
        },
        authors: join_names(group),
        author_count: group.len() as int,
    }
}

/// The buckets of a sequence of groups.
pub open spec fn facets_of(groups: Seq<Seq<Seq<char>>>) -> Seq<FacetView> {
    groups.map_values(|g: Seq<Seq<char>>| facet_of(g))
}

/// The whole facet index of a snapshot.
pub open spec fn facet_index(cat: Seq<BookView>) -> Seq<FacetView> {
    facets_of(group_by_letter(sort_ci(dedup_ci(author_names(cat)))))
}

/// Inserting before the first strictly greater name is what `insert_ci`
/// does.
proof fn lemma_insert_ci_at(t: Seq<Seq<char>>, x: Seq<char>, j: int)
    requires
        0 <= j <= t.len(),
        forall|k: int| 0 <= k < j ==> !ci_lt(x, #[trigger] t[k]),
        j < t.len() ==> ci_lt(x, t[j]),
    ensures
        insert_ci(t, x) == t.take(j) + seq![x] + t.skip(j),
    decreases j,
{
    if j == 0 {
        assert(insert_ci(t, x) =~= t.take(0) + seq![x] + t.skip(0));
    } else {
        assert(!ci_lt(x, t[0]));
        lemma_insert_ci_at(t.drop_first(), x, j - 1);
        assert(t.drop_first().take(j - 1) =~= t.take(j).drop_first());
        assert(t.drop_first().skip(j - 1) =~= t.skip(j));
        assert(seq![t[0]] + (t.take(j).drop_first() + seq![x] + t.skip(j)) =~= t.take(j) + seq![x]
            + t.skip(j));
    }
}

/// Is a case-insensitive equal of `x` already among the names?
fn contains_ci_exec(v: &Vec<String>, x: &str) -> (r: bool)
    ensures
        r == contains_ci(str_views(v@), x@),
{
    let mut j: usize = 0;
    while j < v.len()
        invariant
            j <= v.len(),
            forall|k: int| 0 <= k < j ==> !ci_eq(#[trigger] str_views(v@)[k], x@),
        decreases v.len() - j,
    {
        if ci_equal(v[j].as_str(), x) {
            proof {
                assert(str_views(v@)[j as int] == v@[j as int]@);
            }
            return true;
        }
        j += 1;
    }
    false
}

/// Do two names share a bucket key?
fn same_letter(a: &str, b: &str) -> (r: bool)
    ensures
        r == (letter_of(a@) == letter_of(b@)),
{
    if a.is_empty() || b.is_empty() {
        proof {
            if a@.len() == 0 && b@.len() == 0 {
                assert(letter_of(a@) =~= letter_of(b@));
            } else if a@.len() == 0 {
                assert(letter_of(a@).len() == 0 && letter_of(b@).len() == 1);
            } else {
                assert(letter_of(a@).len() == 1 && letter_of(b@).len() == 0);
            }
        }
        a.is_empty() && b.is_empty()
    } else {
        let ca = fold_char_exec(a.get_char(0));
        let cb = fold_char_exec(b.get_char(0));
        proof {
            if ca == cb {
                assert(letter_of(a@) =~= letter_of(b@));
            } else {
                assert(letter_of(a@)[0] != letter_of(b@)[0]);
            }
        }
        ca == cb
    }
}

/// The authors of the eligible books, in snapshot order.
fn collect_authors(catalog: &Vec<Book>) -> (r: Vec<String>)
    ensures
        str_views(r@) == author_names(book_views(catalog@)),
{
    let mut out: Vec<String> = Vec::new();
    let mut i: usize = 0;
    while i < catalog.len()
        invariant
            i <= catalog.len(),
            str_views(out@) == author_names(book_views(catalog@.take(i as int))),
        decreases catalog.len() - i,
    {
        let b = &catalog[i];
        proof {
            assert(book_views(catalog@.take(i + 1)).drop_last() =~= book_views(
                catalog@.take(i as int),
            ));
            assert(book_views(catalog@.take(i + 1)).last() == catalog@[i as int]@);
        }
        if !b.cover_img.as_str().is_empty() {
            let ghost prev = str_views(out@);
            out.push(b.author.clone());
            proof {
                assert(str_views(out@) =~= prev.push(catalog@[i as int]@.author));
                assert(author_names(book_views(catalog@.take(i + 1))) =~= author_names(
                    book_views(catalog@.take(i as int)),
                ).push(catalog@[i as int]@.author));
            }
        } else {
            proof {
                assert(author_names(book_views(catalog@.take(i + 1))) =~= author_names(
                    book_views(catalog@.take(i as int)),
                ));
            }
        }
        i += 1;
    }
    proof {
        assert(catalog@.take(catalog@.len() as int) =~= catalog@);
    }
    out
}

/// Drops case-insensitive duplicate names, keeping the first spelling seen.
fn dedup_authors(names: Vec<String>) -> (r: Vec<String>)
    ensures
        str_views(r@) == dedup_ci(str_views(names@)),
{
    let mut out: Vec<String> = Vec::new();
    let mut i: usize = 0;
    while i < names.len()
        invariant
            i <= names.len(),
            str_views(out@) == dedup_ci(str_views(names@.take(i as int))),
        decreases names.len() - i,
    {
        proof {
            assert(str_views(names@.take(i + 1)).drop_last() =~= str_views(names@.take(i as int)));
            assert(str_views(names@.take(i + 1)).last() == names@[i as int]@);
        }
        if !contains_ci_exec(&out, names[i].as_str()) {
            let ghost prev = str_views(out@);
            let name = names[i].clone();
            out.push(name);
            proof {
                assert(str_views(out@) =~= prev.push(names@[i as int]@));
            }
        }
        i += 1;
    }
    proof {
        assert(names@.take(names@.len() as int) =~= names@);
    }
    out
}

/// Stable ascending sort of the names under case-insensitive collation.
fn sort_authors(names: Vec<String>) -> (r: Vec<String>)
    ensures
        str_views(r@) == sort_ci(str_views(names@)),
{
    let mut out: Vec<String> = Vec::new();
    let mut i: usize = 0;
    while i < names.len()
        invariant
            i <= names.len(),
            str_views(out@) == sort_ci(str_views(names@.take(i as int))),
        decreases names.len() - i,
    {
        let x = &names[i];
        let mut j: usize = 0;
        while j < out.len() && !ci_less(x.as_str(), out[j].as_str())
            invariant
                j <= out.len(),
                i < names.len(),
                x@ == names@[i as int]@,
                forall|k: int| 0 <= k < j ==> !ci_lt(names@[i as int]@, #[trigger] str_views(out@)[k]),
            decreases out.len() - j,
        {
            proof {
                assert(str_views(out@)[j as int] == out@[j as int]@);
            }
            j += 1;
        }
        proof {
            lemma_insert_ci_at(str_views(out@), names@[i as int]@, j as int);
            assert(str_views(names@.take(i + 1)).drop_last() =~= str_views(names@.take(i as int)));
            assert(str_views(names@.take(i + 1)).last() == names@[i as int]@);
        }
        let dup = x.clone();
        out.insert(j, dup);
        proof {
            assert(str_views(out@) =~= sort_ci(str_views(names@.take(i + 1))));
        }
        i += 1;
    }
    proof {
        assert(names@.take(names@.len() as int) =~= names@);
    }
    out
}

/// Divides the sorted names into runs of equal bucket key.
fn group_authors(sorted: Vec<String>) -> (r: Vec<Vec<String>>)
    ensures
        group_views(r@) == group_by_letter(str_views(sorted@)),
{
    let mut groups: Vec<Vec<String>> = Vec::new();
    let mut i: usize = 0;
    while i < sorted.len()
        invariant
            i <= sorted.len(),
            group_views(groups@) == group_by_letter(str_views(sorted@.take(i as int))),
        decreases sorted.len() - i,
    {
        proof {
            assert(str_views(sorted@.take(i + 1)).drop_last() =~= str_views(
                sorted@.take(i as int),
            ));
            assert(str_views(sorted@.take(i + 1)).last() == sorted@[i as int]@);
        }
        let name = sorted[i].clone();
        let joins = if i > 0 && groups.len() > 0 {
            same_letter(sorted[i - 1].as_str(), sorted[i].as_str())
        } else {
            false
        };
        if joins {
            let ghost gprev = group_views(groups@);
            let last_opt = groups.pop();
            let mut g = match last_opt {
                Some(g) => g,
                None => Vec::new(),
            };
            let ghost vprev = str_views(g@);
            g.push(name);
            proof {
                assert(str_views(g@) =~= vprev.push(sorted@[i as int]@));
            }
            groups.push(g);
            proof {
                assert(group_views(groups@) =~= gprev.update(
                    gprev.len() - 1,
                    gprev.last().push(sorted@[i as int]@),
                ));
            }
        } else {
            let ghost gprev = group_views(groups@);
            let mut g: Vec<String> = Vec::new();
            g.push(name);
            proof {
                assert(str_views(g@) =~= seq![sorted@[i as int]@]);
            }
            groups.push(g);
            proof {
                assert(group_views(groups@) =~= gprev.push(seq![sorted@[i as int]@]));
            }
        }
        i += 1;
    }
    proof {
        assert(sorted@.take(sorted@.len() as int) =~= sorted@);
    }
    groups
}

/// Builds the author facet index of a snapshot: one bucket per case-folded
/// first letter of the sorted distinct eligible authors.
pub fn build_author_facets(catalog: &Vec<Book>) -> (r: Vec<AuthorFacet>)
    ensures
        facet_views(r@) == facet_index(book_views(catalog@)),
{
    let names = collect_authors(catalog);
    let distinct = dedup_authors(names);
    let sorted = sort_authors(distinct);
    let groups = group_authors(sorted);
    let mut out: Vec<AuthorFacet> = Vec::new();
    let mut i: usize = 0;
    while i < groups.len()
        invariant
            i <= groups.len(),
            group_views(groups@) == group_by_letter(sort_ci(dedup_ci(author_names(book_views(
                catalog@,
            ))))),
            facet_views(out@) == facets_of(group_views(groups@).take(i as int)),
        decreases groups.len() - i,
    {
        let group = &groups[i];
        let mut letter = String::new();
        if group.len() > 0 && !group[0].as_str().is_empty() {
            letter.push(fold_char_exec(group[0].as_str().get_char(0)));
        }
        let authors = join_authors(group);
        let facet = AuthorFacet { letter, authors, author_count: group.len() };
        proof {
            let gv = group_views(groups@)[i as int];
            assert(gv == str_views(groups@[i as int]@));
            if groups@[i as int]@.len() > 0 && groups@[i as int]@[0]@.len() > 0 {
                assert(facet@.letter =~= letter_of(gv[0]));
            } else if groups@[i as int]@.len() > 0 {
                assert(facet@.letter =~= letter_of(gv[0]));
            } else {
                assert(facet@.letter =~= Seq::<char>::empty());
            }
            assert(facet@ =~= facet_of(gv));
        }
        let ghost prev = facet_views(out@);
        out.push(facet);
        proof {
            assert(facet_views(out@) =~= prev.push(facet_of(group_views(groups@)[i as int])));
            assert(facets_of(group_views(groups@).take(i + 1)) =~= facets_of(
                group_views(groups@).take(i as int),
            ).push(facet_of(group_views(groups@)[i as int])));
        }
        i += 1;
    }
    proof {
        assert(group_views(groups@).take(group_views(groups@).len() as int) =~= group_views(
            groups@,
        ));
    }
    out
}

} // verus!
