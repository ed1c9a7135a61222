//! Decimal numbers: the value denoted by a run of digit characters, and a
//! checked parser for unsigned 64-bit counters.

use vstd::prelude::*;
use crate::text::{digit_of, digit_val, is_digit};

verus! {

/// Whether every character is an ASCII digit.
pub open spec fn all_digits(s: Seq<char>) -> bool {
    forall|i: int| 0 <= i < s.len() ==> is_digit(s[i])
}

/// The number denoted by digit characters, most significant first.
pub open spec fn digits_val(s: Seq<char>) -> nat
    decreases s.len(),
{
    if s.len() == 0 {
        0
    } else {
        digits_val(s.drop_last()) * 10 + digit_val(s.last())
    }
}

/// A prefix of a digit run never denotes more than the whole run.
proof fn lemma_digits_val_prefix_le(s: Seq<char>, k: int)
    requires
        0 <= k <= s.len(),
    ensures
        digits_val(s.take(k)) <= digits_val(s),
    decreases s.len(),
{
    if k == s.len() {
        assert(s.take(k) =~= s);
    } else {
        let t = s.drop_last();
        assert(s.take(k) =~= t.take(k));
        lemma_digits_val_prefix_le(t, k);
    }
}

/// What parsing an unsigned 64-bit number accepts: an optional leading plus
/// sign, then at least one digit, denoting a value that fits in 64 bits.
pub open spec fn spec_parse_u64(s: Seq<char>) -> Option<u64> {
    let t = if s.len() > 0 && s[0] == '+' {
        s.drop_first()
    } else {
        s
    };
    if t.len() > 0 && all_digits(t) && digits_val(t) <= u64::MAX {
        Some(digits_val(t) as u64)
    } else {
        None
    }
}

/// Parses an unsigned 64-bit number, rejecting anything but an optionally
/// plus-signed digit run whose value fits.
pub fn parse_u64_chars(s: &Vec<char>) -> (r: Option<u64>)
    ensures
        r == spec_parse_u64(s@),
{
    let n = s.len();
    let start: usize = if n > 0 && s[0] == '+' {
        1
    } else {
        0
    };
    let ghost t: Seq<char> = if s@.len() > 0 && s@[0] == '+' {
        s@.drop_first()
    } else {
        s@
    };
    proof {
        assert(t.len() == n - start);
        assert(forall|j: int| 0 <= j < t.len() ==> t[j] == s@[j + start]);
    }
    if start == n {
        return None;
    }
    let mut acc: u64 = 0;
    let mut i: usize = start;
    while i < n
        invariant
            start <= i <= n,
            n == s@.len(),
            t == (if s@.len() > 0 && s@[0] == '+' {
                s@.drop_first()
            } else {
                s@
            }),
            t.len() == n - start,
            forall|j: int| 0 <= j < t.len() ==> t[j] == s@[j + start],
            all_digits(t.take(i - start)),
            acc as nat == digits_val(t.take(i - start)),
        decreases n - i,
    {
        let ghost k = i - start;
        proof {
            assert(t.take(k + 1).drop_last() =~= t.take(k));
            assert(t.take(k + 1).last() == t[k]);
        }
        match digit_of(s[i]) {
            None => {
                proof {
                    assert(!is_digit(t[k]));
                }
                return None;
            },
            Some(d) => {
                let wide: u128 = (acc as u128) * 10 + (d as u128);
                if wide > u64::MAX as u128 {
                    proof {
                        assert(digits_val(t.take(k + 1)) == digits_val(t.take(k)) * 10
                            + digit_val(t[k]));
                        lemma_digits_val_prefix_le(t, k + 1);
                        assert(digits_val(t) > u64::MAX);
                    }
                    return None;
                }
                proof {
                    assert(digits_val(t.take(k + 1)) == acc as nat * 10 + d as nat);
                }
                acc = (wide as u64);
            },
        }
        i += 1;
    }
    proof {
        assert(t.take(n - start) =~= t);
    }
    Some(acc)
}

} // verus!
