//! The delimited author-list encoding.
//!
//! A facet bucket carries its member authors as one string, the names joined
//! with the reserved `,,,` delimiter. The delimiter must not occur inside a
//! name; that is an invariant of the source data, documented and not
//! guarded.

use vstd::prelude::*;

use crate::str_views;

verus! {

/// The reserved delimiter between author names.
pub open spec fn delim() -> Seq<char> {
    seq![',', ',', ',']
}

/// The names joined with the delimiter, in order.
pub open spec fn join_names(names: Seq<Seq<char>>) -> Seq<char>
    decreases names.len(),
{
    if names.len() == 0 {
        Seq::empty()
    } else if names.len() == 1 {
        names[0]
    } else {
        names[0] + delim() + join_names(names.drop_first())
    }
}

/// Does an occurrence of the delimiter start at position `i`?
pub open spec fn delim_at(s: Seq<char>, i: int) -> bool {
    &&& 0 <= i
    &&& i + 3 <= s.len()
    &&& s[i] == ','
    &&& s[i + 1] == ','
    &&& s[i + 2] == ','
}

/// Does the delimiter occur anywhere in `s`?
pub open spec fn has_delim(s: Seq<char>) -> bool {
    exists|k: int| delim_at(s, k)
}

/// Position of the first occurrence of the delimiter, or a negative value
/// when there is none.
pub open spec fn find_delim(s: Seq<char>) -> int
    decreases s.len(),
{
    if s.len() < 3 {
        -1
    } else if delim_at(s, 0) {
        0
    } else {
        let r = find_delim(s.drop_first());
        if r < 0 {
            -1
        } else {
            r + 1
        }
    }
}

/// A found position is a real occurrence, inside the text.
proof fn lemma_find_delim_found(s: Seq<char>)
    ensures
        find_delim(s) >= 0 ==> delim_at(s, find_delim(s)),
        find_delim(s) >= 0 ==> find_delim(s) + 3 <= s.len(),
    decreases s.len(),
{
    if s.len() < 3 || delim_at(s, 0) {
    } else {
        lemma_find_delim_found(s.drop_first());
        let r = find_delim(s.drop_first());
        if r >= 0 {
            assert(s.drop_first()[r] == s[r + 1]);
            assert(s.drop_first()[r + 1] == s[r + 2]);
            assert(s.drop_first()[r + 2] == s[r + 3]);
        }
    }
}

/// An occurrence at `i` with none before it is the first one found.
proof fn lemma_find_delim_is(s: Seq<char>, i: int)
    requires
        delim_at(s, i),
        forall|k: int| 0 <= k < i ==> !delim_at(s, k),
    ensures
        find_delim(s) == i,
    decreases i,
{
    if i == 0 {
    } else {
        assert(!delim_at(s, 0));
        assert(delim_at(s.drop_first(), i - 1)) by {
            assert(s.drop_first()[i - 1] == s[i]);
            assert(s.drop_first()[i] == s[i + 1]);
            assert(s.drop_first()[i + 1] == s[i + 2]);
        }
        assert forall|k: int| 0 <= k < i - 1 implies !delim_at(s.drop_first(), k) by {
            if delim_at(s.drop_first(), k) {
                assert(s.drop_first()[k] == s[k + 1]);
                assert(s.drop_first()[k + 1] == s[k + 2]);
                assert(s.drop_first()[k + 2] == s[k + 3]);
                assert(delim_at(s, k + 1));
            }
        }
        lemma_find_delim_is(s.drop_first(), i - 1);
    }
}

/// With no occurrence anywhere, nothing is found.
proof fn lemma_find_delim_none(s: Seq<char>)
    requires
        !has_delim(s),
    ensures
        find_delim(s) < 0,
    decreases s.len(),
{
    if s.len() < 3 {
    } else {
        assert(!delim_at(s, 0));
        assert(!has_delim(s.drop_first())) by {
            if has_delim(s.drop_first()) {
                let k = choose|k: int| delim_at(s.drop_first(), k);
                assert(s.drop_first()[k] == s[k + 1]);
                assert(s.drop_first()[k + 1] == s[k + 2]);
                assert(s.drop_first()[k + 2] == s[k + 3]);
                assert(delim_at(s, k + 1));
            }
        }
        lemma_find_delim_none(s.drop_first());
    }
}

/// The segments of `s`: the text split at each occurrence of the delimiter,
/// first occurrence first.
pub open spec fn split_names(s: Seq<char>) -> Seq<Seq<char>>
    decreases s.len(),
    via split_names_dec
{
    let f = find_delim(s);
    if f < 0 {
        seq![s]
    } else {
        seq![s.take(f)] + split_names(s.skip(f + 3))
    }
}

#[via_fn]
proof fn split_names_dec(s: Seq<char>) {
    lemma_find_delim_found(s);
}

/// Joining a further name appends a delimiter and the name.
proof fn lemma_join_push(names: Seq<Seq<char>>, x: Seq<char>)
    requires
        names.len() > 0,
    ensures
        join_names(names.push(x)) == join_names(names) + delim() + x,
    decreases names.len(),
{
    if names.len() == 1 {
        assert(names.push(x).drop_first() =~= seq![x]);
        assert(names.push(x)[0] == names[0]);
        assert(join_names(seq![x]) == x);
        assert(join_names(names.push(x)) =~= names[0] + delim() + x);
    } else {
        lemma_join_push(names.drop_first(), x);
        assert(names.push(x).drop_first() =~= names.drop_first().push(x));
        assert(names[0] + delim() + (join_names(names.drop_first()) + delim() + x) =~= (names[0]
            + delim() + join_names(names.drop_first())) + delim() + x);
    }
}

/// Splitting a joined string and re-joining reproduces it: the delimited
/// encoding loses nothing of the text.
pub proof fn lemma_join_split_roundtrip(s: Seq<char>)
    ensures
        join_names(split_names(s)) == s,
    decreases s.len(),
{
    lemma_find_delim_found(s);
    let f = find_delim(s);
    if f < 0 {
    } else {
        lemma_join_split_roundtrip(s.skip(f + 3));
        let rest = split_names(s.skip(f + 3));
        assert(rest.len() > 0);
        assert((seq![s.take(f)] + rest).drop_first() =~= rest);
        assert((seq![s.take(f)] + rest)[0] == s.take(f));
        assert(s.take(f) + delim() + s.skip(f + 3) =~= s);
    }
}

/// No name of a well-formed bucket holds the delimiter, and only the last
/// may end with a comma: then no occurrence of the delimiter starts inside
/// or at the edge of the leading name.
proof fn lemma_first_delim_of_join(names: Seq<Seq<char>>)
    requires
        names.len() >= 2,
        forall|i: int| 0 <= i < names.len() ==> !has_delim(#[trigger] names[i]),
        names[0].len() > 0 ==> names[0].last() != ',',
    ensures
        find_delim(join_names(names)) == names[0].len(),
    decreases names.len(),
{
    let j = join_names(names);
    let n0 = names[0];
    assert(j == n0 + delim() + join_names(names.drop_first()));
    assert(delim_at(j, n0.len() as int)) by {
        assert(j[n0.len() as int] == delim()[0]);
        assert(j[n0.len() + 1int] == delim()[1]);
        assert(j[n0.len() + 2int] == delim()[2]);
    }
    assert forall|k: int| 0 <= k < n0.len() implies !delim_at(j, k) by {
        if delim_at(j, k) {
            if k + 3 <= n0.len() {
                assert(n0[k] == j[k] && n0[k + 1] == j[k + 1] && n0[k + 2] == j[k + 2]);
                assert(delim_at(n0, k));
            } else if k + 2 == n0.len() {
                assert(n0.last() == j[k + 1]);
            } else {
                assert(k + 1 == n0.len());
                assert(n0.last() == j[k]);
            }
        }
    }
    lemma_find_delim_is(j, n0.len() as int);
}

/// Splitting re-divides a joined bucket into exactly its names, provided no
/// name holds the delimiter and no name but the last ends with a comma.
pub proof fn lemma_split_join_names(names: Seq<Seq<char>>)
    requires
        names.len() > 0,
        forall|i: int| 0 <= i < names.len() ==> !has_delim(#[trigger] names[i]),
        forall|i: int|
            0 <= i < names.len() - 1 ==> (#[trigger] names[i].len() > 0 ==> names[i].last() != ','),
    ensures
        split_names(join_names(names)) == names,
    decreases names.len(),
{
    if names.len() == 1 {
        lemma_find_delim_none(names[0]);
        assert(split_names(join_names(names)) =~= names);
    } else {
        lemma_first_delim_of_join(names);
        let j = join_names(names);
        let n0 = names[0];
        assert(j == n0 + delim() + join_names(names.drop_first()));
        assert(j.take(n0.len() as int) =~= n0);
        assert(j.skip(n0.len() + 3int) =~= join_names(names.drop_first()));
        lemma_split_join_names(names.drop_first());
        assert(seq![n0] + names.drop_first() =~= names);
    }
}

/// Joins author names with the `,,,` delimiter.
pub fn join_authors(names: &Vec<String>) -> (r: String)
    ensures
        r@ == join_names(str_views(names@)),
{
    let mut out = String::new();
    let mut i: usize = 0;
    while i < names.len()
        invariant
            i <= names.len(),
            out@ == join_names(str_views(names@.take(i as int))),
        decreases names.len() - i,
    {
        proof {
            reveal_strlit(",,,");
            assert(",,,"@ =~= delim());
            assert(str_views(names@.take(i + 1)).drop_last() =~= str_views(names@.take(i as int)));
            assert(str_views(names@.take(i + 1)).last() == names@[i as int]@);
            if i > 0 {
                lemma_join_push(str_views(names@.take(i as int)), names@[i as int]@);
                assert(str_views(names@.take(i as int)).push(names@[i as int]@) =~= str_views(
                    names@.take(i + 1),
                ));
            } else {
                assert(str_views(names@.take(1))[0] == names@[0]@);
            }
        }
        if i > 0 {
            out.append(",,,");
        }
        out.append(names[i].as_str());
        i += 1;
    }
    proof {
        assert(names@.take(names@.len() as int) =~= names@);
    }
    out
}

/// Splits a joined bucket string at each occurrence of the `,,,` delimiter.
pub fn split_authors(s: &str) -> (r: Vec<String>)
    ensures
        str_views(r@) == split_names(s@),
{
    let len = s.unicode_len();
    let mut out: Vec<String> = Vec::new();
    let mut seg_start: usize = 0;
    let mut i: usize = 0;
    proof {
        assert(s@.skip(0) =~= s@);
        assert(str_views(out@) =~= Seq::<Seq<char>>::empty());
        assert(str_views(out@) + split_names(s@) =~= split_names(s@));
    }
    while len >= 3 && i <= len - 3
        invariant
            seg_start <= i <= len,
            len == s@.len(),
            forall|k: int| seg_start <= k < i ==> !delim_at(s@, k),
            str_views(out@) + split_names(s@.skip(seg_start as int)) =~= split_names(s@),
        decreases len - i,
    {
        if s.get_char(i) == ',' && s.get_char(i + 1) == ',' && s.get_char(i + 2) == ',' {
            proof {
                let t = s@.skip(seg_start as int);
                assert(delim_at(t, i - seg_start)) by {
                    assert(t[i - seg_start] == s@[i as int]);
                    assert(t[i - seg_start + 1] == s@[i + 1]);
                    assert(t[i - seg_start + 2] == s@[i + 2]);
                }
                assert forall|k: int| 0 <= k < i - seg_start implies !delim_at(t, k) by {
                    if delim_at(t, k) {
                        assert(t[k] == s@[seg_start + k]);
                        assert(t[k + 1] == s@[seg_start + k + 1]);
                        assert(t[k + 2] == s@[seg_start + k + 2]);
                        assert(delim_at(s@, seg_start + k));
                    }
                }
                lemma_find_delim_is(t, i - seg_start);
                assert(t.take(i - seg_start) =~= s@.subrange(seg_start as int, i as int));
                assert(t.skip(i - seg_start + 3) =~= s@.skip(i + 3));
            }
            let seg = s.substring_char(seg_start, i).to_owned();
            let ghost prev = str_views(out@);
            out.push(seg);
            proof {
                assert(str_views(out@) =~= prev.push(s@.subrange(seg_start as int, i as int)));
                assert(prev.push(s@.subrange(seg_start as int, i as int)) + split_names(
                    s@.skip(i + 3),
                ) =~= prev + split_names(s@.skip(seg_start as int)));
            }
            seg_start = i + 3;
            i = seg_start;
        } else {
            proof {
                assert(!delim_at(s@, i as int));
            }
            i += 1;
        }
    }
    proof {
        let t = s@.skip(seg_start as int);
        assert(!has_delim(t)) by {
            if has_delim(t) {
                let k = choose|k: int| delim_at(t, k);
                assert(t[k] == s@[seg_start + k]);
                assert(t[k + 1] == s@[seg_start + k + 1]);
                assert(t[k + 2] == s@[seg_start + k + 2]);
                assert(delim_at(s@, seg_start + k));
            }
        }
        lemma_find_delim_none(t);
    }
    let last = s.substring_char(seg_start, len).to_owned();
    let ghost prev = str_views(out@);
    out.push(last);
    proof {
        assert(s@.subrange(seg_start as int, len as int) =~= s@.skip(seg_start as int));
        assert(str_views(out@) =~= prev.push(s@.skip(seg_start as int)));
        assert(prev.push(s@.skip(seg_start as int)) =~= prev + split_names(
            s@.skip(seg_start as int),
        ));
        assert(str_views(out@) =~= split_names(s@));
    }
    out
}

} // verus!
