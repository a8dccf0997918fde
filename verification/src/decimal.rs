//! Decimal strings: the relay wire format transmits every numeric field as a
//! decimal string. Emission and parsing are verified against the spec
//! functions below.

use vstd::prelude::*;

verus! {

pub open spec fn is_dec_digit(b: u8) -> bool {
    48 <= b <= 57
}

/// The decimal digit string of a number, most significant digit first, with
/// no leading zeros (a single `0` for zero).
pub open spec fn dec_digits(n: nat) -> Seq<u8>
    decreases n,
{
    if n < 10 {
        seq![(48 + n) as u8]
    } else {
        dec_digits(n / 10) + seq![(48 + n % 10) as u8]
    }
}

/// The number a digit string denotes, read left to right.
pub open spec fn num_of_digits(s: Seq<u8>) -> int
    decreases s.len(),
{
    if s.len() == 0 {
        0
    } else {
        num_of_digits(s.drop_last()) * 10 + (s.last() - 48)
    }
}

pub open spec fn all_dec_digits(s: Seq<u8>) -> bool {
    forall|i: int| 0 <= i < s.len() ==> is_dec_digit(#[trigger] s[i])
}

pub proof fn lemma_dec_digits_shape(n: nat)
    ensures
        dec_digits(n).len() >= 1,
        all_dec_digits(dec_digits(n)),
    decreases n,
{
    if n >= 10 {
        lemma_dec_digits_shape(n / 10);
        let s0 = dec_digits(n / 10);
        let s = dec_digits(n);
        assert forall|i: int| 0 <= i < s.len() implies is_dec_digit(#[trigger] s[i]) by {
            if i < s0.len() {
                assert(s[i] == s0[i]);
            } else {
                assert(s[i] == (48 + n % 10) as u8);
            }
        }
    }
}

/// Reading back the digit string of `n` yields `n`.
pub proof fn lemma_num_of_dec_digits(n: nat)
    ensures
        num_of_digits(dec_digits(n)) == n,
    decreases n,
{
    if n < 10 {
        assert(dec_digits(n).drop_last() =~= Seq::<u8>::empty());
        assert(dec_digits(n).last() == (48 + n) as u8);
        assert(num_of_digits(Seq::<u8>::empty()) == 0);
        assert(num_of_digits(dec_digits(n)) == 0 * 10 + ((48 + n) as u8 - 48));
    } else {
        lemma_num_of_dec_digits(n / 10);
        assert(dec_digits(n).drop_last() =~= dec_digits(n / 10));
        assert(dec_digits(n).last() == (48 + n % 10) as u8);
        assert(num_of_digits(dec_digits(n)) == (n / 10) * 10 + n % 10);
        assert(n == 10 * (n / 10) + n % 10);
    }
}

pub proof fn lemma_num_of_digits_nonneg(s: Seq<u8>)
    requires
        all_dec_digits(s),
    ensures
        num_of_digits(s) >= 0,
    decreases s.len(),
{
    if s.len() > 0 {
        assert(all_dec_digits(s.drop_last())) by {
            assert(forall|i: int|
                0 <= i < s.len() - 1 ==> s.drop_last()[i] == #[trigger] s[i]);
        }
        lemma_num_of_digits_nonneg(s.drop_last());
    }
}

/// A digit-string prefix never denotes more than the whole string.
pub proof fn lemma_num_of_digits_prefix(s: Seq<u8>, k: int)
    requires
        all_dec_digits(s),
        0 <= k <= s.len(),
    ensures
        num_of_digits(s.subrange(0, k)) <= num_of_digits(s),
    decreases s.len() - k,
{
    if k < s.len() {
        let s0 = s.drop_last();
        assert(all_dec_digits(s0)) by {
            assert(forall|i: int|
                0 <= i < s.len() - 1 ==> s0[i] == #[trigger] s[i]);
        }
        lemma_num_of_digits_prefix(s0, k);
        assert(s0.subrange(0, k) =~= s.subrange(0, k));
        lemma_num_of_digits_nonneg(s0);
        assert(num_of_digits(s) == num_of_digits(s0) * 10 + (s.last() - 48));
        assert(num_of_digits(s0) * 10 >= num_of_digits(s0));
        assert(is_dec_digit(s[s.len() - 1]));
        assert(s.last() == s[s.len() - 1]);
    } else {
        assert(s.subrange(0, k) =~= s);
    }
}

/// Appends the decimal digit string of `n`.
pub fn push_dec_u64(out: &mut Vec<u8>, n: u64)
    ensures
        final(out)@ == old(out)@ + dec_digits(n as nat),
    decreases n,
{
    if n >= 10 {
        push_dec_u64(out, n / 10);
    }
    let d: u8 = (n % 10) as u8;
    out.push(48 + d);
    proof {
        if n >= 10 {
            assert(out@ =~= old(out)@ + dec_digits(n as nat));
        } else {
            assert(out@ =~= old(out)@ + dec_digits(n as nat));
        }
    }
}

/// Appends the decimal digit string of `n`.
pub fn push_dec_u128(out: &mut Vec<u8>, n: u128)
    ensures
        final(out)@ == old(out)@ + dec_digits(n as nat),
    decreases n,
{
    if n >= 10 {
        push_dec_u128(out, n / 10);
    }
    let d: u8 = (n % 10) as u8;
    out.push(48 + d);
    proof {
        assert(out@ =~= old(out)@ + dec_digits(n as nat));
    }
}

/// Reads the digit span `[lo, hi)` of `s` as a `u64`: succeeds exactly on a
/// non-empty span of decimal digits whose value fits.
pub fn parse_dec_u64(s: &[u8], lo: usize, hi: usize) -> (r: Option<u64>)
    requires
        lo <= hi <= s@.len(),
    ensures
        ({
            let span = s@.subrange(lo as int, hi as int);
            &&& (r is Some <==> lo < hi && all_dec_digits(span) && num_of_digits(span)
                <= u64::MAX)
            &&& (r matches Some(n) ==> n == num_of_digits(span))
        }),
{
    let ghost span = s@.subrange(lo as int, hi as int);
    if lo == hi {
        return None;
    }
    let mut acc: u64 = 0;
    let mut i: usize = lo;
    while i < hi
        invariant
            lo <= i <= hi <= s@.len(),
            span == s@.subrange(lo as int, hi as int),
            all_dec_digits(span.subrange(0, i - lo)),
            acc == num_of_digits(span.subrange(0, i - lo)),
        decreases hi - i,
    {
        let b = s[i];
        proof {
            assert(span[i - lo] == s@[i as int]);
        }
        if !(48 <= b && b <= 57) {
            proof {
                assert(!is_dec_digit(span[i - lo]));
            }
            return None;
        }
        let d: u8 = b - 48;
        let acc10 = match acc.checked_mul(10) {
            Some(v) => v,
            None => {
                proof {
                    lemma_overflow_implies_large(span, i - lo, acc as int * 10 + d);
                }
                return None;
            },
        };
        let acc2 = match acc10.checked_add(d as u64) {
            Some(v) => v,
            None => {
                proof {
                    lemma_overflow_implies_large(span, i - lo, acc as int * 10 + d);
                }
                return None;
            },
        };
        proof {
            assert(span.subrange(0, i - lo + 1).drop_last() =~= span.subrange(0, i - lo));
            assert(span.subrange(0, i - lo + 1).last() == span[i - lo]);
            assert(all_dec_digits(span.subrange(0, i - lo + 1))) by {
                let t = span.subrange(0, i - lo + 1);
                assert(forall|j: int| 0 <= j < t.len() ==> t[j] == #[trigger] span[j]);
            }
        }
        acc = acc2;
        i = i + 1;
    }
    proof {
        assert(span.subrange(0, hi - lo) =~= span);
    }
    Some(acc)
}

/// When extending the already-read prefix by one digit overflows, the whole
/// span denotes a number out of range.
proof fn lemma_overflow_implies_large(span: Seq<u8>, k: int, next_val: int)
    requires
        0 <= k < span.len(),
        all_dec_digits(span.subrange(0, k)),
        is_dec_digit(span[k]),
        next_val == num_of_digits(span.subrange(0, k)) * 10 + (span[k] - 48),
    ensures
        all_dec_digits(span) ==> num_of_digits(span) >= next_val,
{
    if all_dec_digits(span) {
        assert(span.subrange(0, k + 1).drop_last() =~= span.subrange(0, k));
        assert(span.subrange(0, k + 1).last() == span[k]);
        assert(num_of_digits(span.subrange(0, k + 1)) == next_val);
        lemma_num_of_digits_prefix(span, k + 1);
        assert(span.subrange(0, span.len() as int) =~= span);
    }
}

/// Reads the digit span `[lo, hi)` of `s` as a `u128`: succeeds exactly on a
/// non-empty span of decimal digits whose value fits.
pub fn parse_dec_u128(s: &[u8], lo: usize, hi: usize) -> (r: Option<u128>)
    requires
        lo <= hi <= s@.len(),
    ensures
        ({
            let span = s@.subrange(lo as int, hi as int);
            &&& (r is Some <==> lo < hi && all_dec_digits(span) && num_of_digits(span)
                <= u128::MAX)
            &&& (r matches Some(n) ==> n == num_of_digits(span))
        }),
{
    let ghost span = s@.subrange(lo as int, hi as int);
    if lo == hi {
        return None;
    }
    let mut acc: u128 = 0;
    let mut i: usize = lo;
    while i < hi
        invariant
            lo <= i <= hi <= s@.len(),
            span == s@.subrange(lo as int, hi as int),
            all_dec_digits(span.subrange(0, i - lo)),
            acc == num_of_digits(span.subrange(0, i - lo)),
        decreases hi - i,
    {
        let b = s[i];
        proof {
            assert(span[i - lo] == s@[i as int]);
        }
        if !(48 <= b && b <= 57) {
            proof {
                assert(!is_dec_digit(span[i - lo]));
            }
            return None;
        }
        let d: u8 = b - 48;
        let acc10 = match acc.checked_mul(10) {
            Some(v) => v,
            None => {
                proof {
                    lemma_overflow_implies_large(span, i - lo, acc as int * 10 + d);
                }
                return None;
            },
        };
        let acc2 = match acc10.checked_add(d as u128) {
            Some(v) => v,
            None => {
                proof {
                    lemma_overflow_implies_large(span, i - lo, acc as int * 10 + d);
                }
                return None;
            },
        };
        proof {
            assert(span.subrange(0, i - lo + 1).drop_last() =~= span.subrange(0, i - lo));
            assert(span.subrange(0, i - lo + 1).last() == span[i - lo]);
            assert(all_dec_digits(span.subrange(0, i - lo + 1))) by {
                let t = span.subrange(0, i - lo + 1);
                assert(forall|j: int| 0 <= j < t.len() ==> t[j] == #[trigger] span[j]);
            }
        }
        acc = acc2;
        i = i + 1;
    }
    proof {
        assert(span.subrange(0, hi - lo) =~= span);
    }
    Some(acc)
}

} // verus!
