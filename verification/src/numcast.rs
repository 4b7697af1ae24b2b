//! Numeric interpretation of the free-text `num_ratings` field.
//!
//! Listings are ordered by the rating count read out of a free-form text
//! column: leading whitespace is skipped, an optional sign is read, then the
//! longest prefix of decimal digits gives the value, clamped to the `i64`
//! range. Text with no leading digits counts as zero.

use vstd::prelude::*;

verus! {

/// Whitespace skipped before the number.
pub open spec fn is_space(c: char) -> bool {
    c == ' ' || c == '\t' || c == '\n' || c == '\r' || c == '\u{b}' || c == '\u{c}'
}

/// Decimal digit.
pub open spec fn is_digit(c: char) -> bool {
    '0' <= c && c <= '9'
}

/// Value of one decimal digit.
pub open spec fn digit_val(c: char) -> int {
    c as int - '0' as int
}

/// Length of the leading run of whitespace.
pub open spec fn space_len(s: Seq<char>) -> nat
    decreases s.len(),
{
    if s.len() > 0 && is_space(s[0]) {
        1 + space_len(s.drop_first())
    } else {
        0
    }
}

/// Length of the leading run of decimal digits.
pub open spec fn digits_len(s: Seq<char>) -> nat
    decreases s.len(),
{
    if s.len() > 0 && is_digit(s[0]) {
        1 + digits_len(s.drop_first())
    } else {
        0
    }
}

/// Value of a sequence of decimal digits, most significant first.
pub open spec fn digits_val(s: Seq<char>) -> int
    decreases s.len(),
{
    if s.len() == 0 {
        0
    } else {
        digits_val(s.drop_last()) * 10 + digit_val(s.last())
    }
}

/// The number a text field stands for: skip whitespace, read an optional
/// sign, take the longest digit prefix, clamp into the `i64` range.
pub open spec fn cast_num(s: Seq<char>) -> int {
    let t = s.skip(space_len(s) as int);
    let signed = t.len() > 0 && (t[0] == '-' || t[0] == '+');
    let neg = t.len() > 0 && t[0] == '-';
    let d = if signed {
        t.drop_first()
    } else {
        t
    };
    let v = digits_val(d.take(digits_len(d) as int));
    if neg {
        if -v < i64::MIN as int {
            i64::MIN as int
        } else {
            -v
        }
    } else {
        if v > i64::MAX as int {
            i64::MAX as int
        } else {
            v
        }
    }
}

/// A leading run of whitespace of length `i`, ended by the end of the text or
/// a non-whitespace character, is the whole leading whitespace run.
proof fn lemma_space_len_at(s: Seq<char>, i: int)
    requires
        0 <= i <= s.len(),
        forall|k: int| 0 <= k < i ==> is_space(s[k]),
        i < s.len() ==> !is_space(s[i]),
    ensures
        space_len(s) == i,
    decreases i,
{
    if i == 0 {
    } else {
        assert(is_space(s[0]));
        assert(forall|k: int| 0 <= k < i - 1 ==> is_space(s.drop_first()[k]));
        assert(i - 1 < s.drop_first().len() ==> !is_space(s.drop_first()[i - 1]));
        lemma_space_len_at(s.drop_first(), i - 1);
    }
}

/// The digit analogue of `lemma_space_len_at`.
proof fn lemma_digits_len_at(s: Seq<char>, i: int)
    requires
        0 <= i <= s.len(),
        forall|k: int| 0 <= k < i ==> is_digit(s[k]),
        i < s.len() ==> !is_digit(s[i]),
    ensures
        digits_len(s) == i,
    decreases i,
{
    if i == 0 {
    } else {
        assert(is_digit(s[0]));
        assert(forall|k: int| 0 <= k < i - 1 ==> is_digit(s.drop_first()[k]));
        assert(i - 1 < s.drop_first().len() ==> !is_digit(s.drop_first()[i - 1]));
        lemma_digits_len_at(s.drop_first(), i - 1);
    }
}

/// Two to the sixty-third: the point past which a magnitude saturates.
pub const SAT: u64 = 0x8000_0000_0000_0000;

/// Largest accumulator that can still take one more digit below `SAT`.
const SAT_DIV_10: u64 = 922_337_203_685_477_580;

/// Reads the number out of a text field, as the listing order does.
pub fn rating_value(s: &str) -> (r: i64)
    ensures
        r as int == cast_num(s@),
{
    let len = s.unicode_len();
    let mut i: usize = 0;
    loop
        invariant
            i <= len,
            len == s@.len(),
            forall|k: int| 0 <= k < i ==> is_space(s@[k]),
        ensures
            i <= len,
            forall|k: int| 0 <= k < i ==> is_space(s@[k]),
            i < len ==> !is_space(s@[i as int]),
        decreases len - i,
    {
        if i == len {
            break;
        }
        let c = s.get_char(i);
        if !(c == ' ' || c == '\t' || c == '\n' || c == '\r' || c == '\u{b}' || c == '\u{c}') {
            break;
        }
        i += 1;
    }
    proof {
        lemma_space_len_at(s@, i as int);
    }
    let ghost t = s@.skip(i as int);
    let mut neg = false;
    if i < len {
        let c = s.get_char(i);
        if c == '-' || c == '+' {
            neg = c == '-';
            i += 1;
        }
    }
    let ghost d = s@.skip(i as int);
    proof {
        assert(t.len() > 0 && (t[0] == '-' || t[0] == '+') ==> t.drop_first() =~= d);
        assert(!(t.len() > 0 && (t[0] == '-' || t[0] == '+')) ==> t =~= d);
    }
    let start: usize = i;
    let mut acc: u64 = 0;
    loop
        invariant
            start <= i <= len,
            len == s@.len(),
            d == s@.skip(start as int),
            forall|k: int| 0 <= k < i - start ==> is_digit(d[k]),
            acc <= SAT,
            digits_val(d.take(i - start)) > i64::MAX as int + 1 ==> acc == SAT,
            digits_val(d.take(i - start)) <= i64::MAX as int + 1 ==> acc == digits_val(
                d.take(i - start),
            ),
        ensures
            start <= i <= len,
            forall|k: int| 0 <= k < i - start ==> is_digit(d[k]),
            i - start < d.len() ==> !is_digit(d[i - start]),
            acc <= SAT,
            digits_val(d.take(i - start)) > i64::MAX as int + 1 ==> acc == SAT,
            digits_val(d.take(i - start)) <= i64::MAX as int + 1 ==> acc == digits_val(
                d.take(i - start),
            ),
        decreases len - i,
    {
        if i == len {
            break;
        }
        let c = s.get_char(i);
        if !('0' <= c && c <= '9') {
            break;
        }
        let dig: u8 = (c as u8) - 48;
        let ghost prev = d.take(i - start);
        let ghost cur = d.take(i + 1 - start);
        proof {
            assert(cur.drop_last() =~= prev);
            assert(cur.last() == d[i - start]);
            assert(d[i - start] == s@[i as int]);
            assert(digits_val(cur) == digits_val(prev) * 10 + digit_val(s@[i as int]));
        }
        if acc > SAT_DIV_10 {
            acc = SAT;
        } else {
            let next: u64 = acc * 10 + (dig as u64);
            if next > SAT {
                acc = SAT;
            } else {
                acc = next;
            }
        }
        i += 1;
    }
    proof {
        lemma_digits_len_at(d, i - start);
        assert(d.take(digits_len(d) as int) == d.take(i - start));
    }
    if neg {
        if acc >= SAT {
            i64::MIN
        } else {
            -(acc as i64)
        }
    } else {
        if acc >= SAT {
            i64::MAX
        } else {
            acc as i64
        }
    }
}

} // verus!
