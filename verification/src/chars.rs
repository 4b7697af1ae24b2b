//! Case-insensitive collation for author names.
//!
//! Author names are compared and grouped with an ASCII case fold: upper-case
//! ASCII letters compare equal to their lower-case forms, all other characters
//! compare by code point.

use vstd::prelude::*;

verus! {

/// Case folding used for author collation: ASCII upper-case letters map to
/// their lower-case form, every other character is unchanged.
pub open spec fn fold_char(c: char) -> char {
    if 'A' <= c && c <= 'Z' {
        (((c as u8) + 32) as char)
    } else {
        c
    }
}

/// Executable case folding, equal to `fold_char`.
pub fn fold_char_exec(c: char) -> (r: char)
    ensures
        r == fold_char(c),
{
    if 'A' <= c && c <= 'Z' {
        ((c as u8) + 32) as char
    } else {
        c
    }
}

/// Case-insensitive equality of two character sequences.
pub open spec fn ci_eq(a: Seq<char>, b: Seq<char>) -> bool {
    &&& a.len() == b.len()
    &&& forall|i: int| 0 <= i < a.len() ==> fold_char(a[i]) == fold_char(b[i])
}

/// Case-insensitive strict lexicographic order on character sequences.
pub open spec fn ci_lt(a: Seq<char>, b: Seq<char>) -> bool
    decreases a.len(),
{
    if b.len() == 0 {
        false
    } else if a.len() == 0 {
        true
    } else if fold_char(a[0]) != fold_char(b[0]) {
        fold_char(a[0]) < fold_char(b[0])
    } else {
        ci_lt(a.drop_first(), b.drop_first())
    }
}

/// The collation order is transitive.
pub proof fn lemma_ci_lt_trans(a: Seq<char>, b: Seq<char>, c: Seq<char>)
    requires
        ci_lt(a, b),
        ci_lt(b, c),
    ensures
        ci_lt(a, c),
    decreases a.len() + b.len() + c.len(),
{
    if a.len() == 0 {
    } else {
        let fa = fold_char(a[0]);
        let fb = fold_char(b[0]);
        let fc = fold_char(c[0]);
        if fa == fb && fb == fc {
            lemma_ci_lt_trans(a.drop_first(), b.drop_first(), c.drop_first());
        }
    }
}

/// After a common case-folded prefix of length `i`, the order of the whole
/// sequences is the order of what remains.
proof fn lemma_ci_lt_skip(a: Seq<char>, b: Seq<char>, i: int)
    requires
        0 <= i <= a.len(),
        i <= b.len(),
        forall|k: int| 0 <= k < i ==> fold_char(a[k]) == fold_char(b[k]),
    ensures
        ci_lt(a, b) == ci_lt(a.skip(i), b.skip(i)),
    decreases i,
{
    if i == 0 {
        assert(a.skip(0) =~= a);
        assert(b.skip(0) =~= b);
    } else {
        assert(a.len() > 0 && b.len() > 0);
        assert(fold_char(a[0]) == fold_char(b[0]));
        assert(ci_lt(a, b) == ci_lt(a.drop_first(), b.drop_first()));
        assert(forall|k: int|
            0 <= k < i - 1 ==> fold_char(a.drop_first()[k]) == fold_char(b.drop_first()[k]));
        lemma_ci_lt_skip(a.drop_first(), b.drop_first(), i - 1);
        assert(a.drop_first().skip(i - 1) =~= a.skip(i));
        assert(b.drop_first().skip(i - 1) =~= b.skip(i));
    }
}

/// Case-insensitive three-way test: is `a` strictly before `b`?
pub fn ci_less(a: &str, b: &str) -> (r: bool)
    ensures
        r == ci_lt(a@, b@),
{
    let alen = a.unicode_len();
    let blen = b.unicode_len();
    let mut i: usize = 0;
    loop
        invariant
            i <= alen,
            i <= blen,
            alen == a@.len(),
            blen == b@.len(),
            forall|k: int| 0 <= k < i ==> fold_char(a@[k]) == fold_char(b@[k]),
        decreases alen - i,
    {
        if i == alen || i == blen {
            proof {
                lemma_ci_lt_skip(a@, b@, i as int);
            }
            return alen < blen;
        }
        let ca = fold_char_exec(a.get_char(i));
        let cb = fold_char_exec(b.get_char(i));
        if ca != cb {
            proof {
                lemma_ci_lt_skip(a@, b@, i as int);
                assert(a@.skip(i as int)[0] == a@[i as int]);
                assert(b@.skip(i as int)[0] == b@[i as int]);
            }
            return ca < cb;
        }
        i += 1;
    }
}

/// Exact (case-sensitive) equality test of two strings.
pub fn str_equal(a: &str, b: &str) -> (r: bool)
    ensures
        r == (a@ == b@),
{
    let alen = a.unicode_len();
    let blen = b.unicode_len();
    if alen != blen {
        return false;
    }
    let mut i: usize = 0;
    loop
        invariant
            i <= alen,
            alen == a@.len(),
            blen == b@.len(),
            alen == blen,
            forall|k: int| 0 <= k < i ==> a@[k] == b@[k],
        decreases alen - i,
    {
        if i == alen {
            proof {
                assert(a@ =~= b@);
            }
            return true;
        }
        if a.get_char(i) != b.get_char(i) {
            return false;
        }
        i += 1;
    }
}

/// Case-insensitive equality test of two strings.
pub fn ci_equal(a: &str, b: &str) -> (r: bool)
    ensures
        r == ci_eq(a@, b@),
{
    let alen = a.unicode_len();
    let blen = b.unicode_len();
    if alen != blen {
        return false;
    }
    let mut i: usize = 0;
    loop
        invariant
            i <= alen,
            alen == a@.len(),
            blen == b@.len(),
            alen == blen,
            forall|k: int| 0 <= k < i ==> fold_char(a@[k]) == fold_char(b@[k]),
        decreases alen - i,
    {
        if i == alen {
            return true;
        }
        let ca = fold_char_exec(a.get_char(i));
        let cb = fold_char_exec(b.get_char(i));
        if ca != cb {
            return false;
        }
        i += 1;
    }
}

} // verus!
