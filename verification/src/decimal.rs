//! Decimal rendering and parsing of the small integers the service speaks:
//! scratch identifiers, memory limits, verdict statuses and coverage
//! percentages.
use vstd::prelude::*;

verus! {

use crate::text::push_char;

/// The character for one decimal digit.
pub open spec fn dec_digit(d: int) -> char
    recommends
        0 <= d < 10,
{
    ((48 + d) as u8) as char
}

/// The decimal digits of a non-negative integer, most significant first.
pub open spec fn dec_seq(n: int) -> Seq<char>
    recommends
        n >= 0,
    decreases n,
{
    if n < 10 {
        seq![dec_digit(n)]
    } else {
        dec_seq(n / 10).push(dec_digit(n % 10))
    }
}

/// The decimal rendering of any integer: a minus sign before the digits of
/// the magnitude when negative.
pub open spec fn int_seq(i: int) -> Seq<char> {
    if i < 0 {
        seq!['-'] + dec_seq(-i)
    } else {
        dec_seq(i)
    }
}

/// Appends the decimal digits of `n`.
pub fn push_u64(s: &mut String, n: u64)
    ensures
        final(s)@ == old(s)@ + dec_seq(n as int),
    decreases n,
{
    if n >= 10 {
        push_u64(s, n / 10);
    }
    let d: u8 = (n % 10) as u8 + 48;
    push_char(s, d as char);
    proof {
        assert(final(s)@ =~= old(s)@ + dec_seq(n as int));
    }
}

/// The decimal digits of `n`, as a fresh string.
pub fn u64_to_string(n: u64) -> (r: String)
    ensures
        r@ == dec_seq(n as int),
{
    let mut s = String::new();
    push_u64(&mut s, n);
    proof {
        assert(s@ =~= dec_seq(n as int));
    }
    s
}

/// Appends the decimal rendering of `v`, sign included.
pub fn push_i8(s: &mut String, v: i8)
    ensures
        final(s)@ == old(s)@ + int_seq(v as int),
{
    if v < 0 {
        push_char(s, '-');
        let m: u64 = (-(v as i64)) as u64;
        push_u64(s, m);
        proof {
            assert(final(s)@ =~= old(s)@ + int_seq(v as int));
        }
    } else {
        push_u64(s, v as u64);
    }
}

/// Whether `c` is a decimal digit.
pub open spec fn is_dec_digit(c: char) -> bool {
    48 <= c as u32 <= 57
}

/// The value of one digit character.
pub open spec fn digit_val(c: char) -> int
    recommends
        is_dec_digit(c),
{
    c as u32 - 48
}

/// Whether every character of `s` is a decimal digit.
pub open spec fn all_digits(s: Seq<char>) -> bool {
    forall|i: int| 0 <= i < s.len() ==> is_dec_digit(#[trigger] s[i])
}

/// The value of a digit string, most significant digit first.
pub open spec fn digits_val(s: Seq<char>) -> int
    recommends
        all_digits(s),
    decreases s.len(),
{
    if s.len() == 0 {
        0
    } else {
        digits_val(s.drop_last()) * 10 + digit_val(s.last())
    }
}

/// What `str::parse::<i8>` accepts: an optional sign, then at least one
/// digit, with the value in range.
pub open spec fn spec_parse_i8(s: Seq<char>) -> Option<i8> {
    let neg = s.len() > 0 && s[0] == '-';
    let signed = s.len() > 0 && (s[0] == '-' || s[0] == '+');
    let ds = if signed {
        s.drop_first()
    } else {
        s
    };
    if ds.len() == 0 || !all_digits(ds) {
        None
    } else {
        let v = if neg {
            -digits_val(ds)
        } else {
            digits_val(ds)
        };
        if -128 <= v <= 127 {
            Some(v as i8)
        } else {
            None
        }
    }
}

/// A digit string has a non-negative value.
pub proof fn lemma_digits_val_nonneg(s: Seq<char>)
    requires
        all_digits(s),
    ensures
        digits_val(s) >= 0,
    decreases s.len(),
{
    if s.len() > 0 {
        assert(all_digits(s.drop_last())) by {
            assert(forall|i: int|
                0 <= i < s.drop_last().len() ==> s.drop_last()[i] == s[i]);
        }
        lemma_digits_val_nonneg(s.drop_last());
    }
}

/// Parses a decimal integer exactly as `str::parse::<i8>` does.
#[verifier::loop_isolation(false)]
pub fn parse_i8(field: &Vec<char>) -> (r: Option<i8>)
    ensures
        r == spec_parse_i8(field@),
{
    let ghost s = field@;
    let n = field.len();
    if n == 0 {
        return None;
    }
    let c0 = field[0];
    let neg = c0 == '-';
    let signed = c0 == '-' || c0 == '+';
    let start: usize = if signed {
        1
    } else {
        0
    };
    let ghost ds = if signed {
        s.drop_first()
    } else {
        s
    };
    proof {
        assert(ds =~= s.skip(start as int));
    }
    if n == start {
        return None;
    }
    let mut acc: u32 = 0;
    let mut over = false;
    let mut j: usize = start;
    while j < n
        invariant
            start <= j <= n,
            n == s.len(),
            n == field@.len(),
            s == field@,
            start == 0 || start == 1,
            start <= n,
            ds == s.skip(start as int),
            all_digits(ds.take(j - start)),
            !over ==> acc == digits_val(ds.take(j - start)) && acc <= 128,
            over ==> digits_val(ds.take(j - start)) > 128,
        decreases n - j,
    {
        let c = field[j];
        let v = c as u32;
        if !(48 <= v && v <= 57) {
            proof {
                assert(v == c as u32);
                assert(ds[j - start] == s[j as int]);
                assert(!is_dec_digit(ds[j - start]));
                assert(!all_digits(ds));
            }
            return None;
        }
        let d: u32 = v - 48;
        proof {
            let p = ds.take(j - start);
            let q = ds.take(j + 1 - start);
            assert(q.drop_last() =~= p);
            assert(q.last() == ds[j - start]);
            assert(ds[j - start] == s[j as int]);
            assert(v == c as u32);
            assert(is_dec_digit(q.last()));
            assert(all_digits(q)) by {
                assert forall|i: int| 0 <= i < q.len() implies is_dec_digit(q[i]) by {
                    if i < q.len() - 1 {
                        assert(q[i] == p[i]);
                    } else {
                        assert(q[i] == q.last());
                    }
                }
            }
            assert(digits_val(q) == digits_val(p) * 10 + digit_val(q.last()));
            if !over {
                lemma_digits_val_nonneg(p);
            }
        }
        if !over {
            acc = acc * 10 + d;
            if acc > 128 {
                over = true;
            }
        }
        j = j + 1;
    }
    proof {
        assert(ds.take(n - start) =~= ds);
    }
    if over {
        return None;
    }
    if neg {
        let vi: i32 = -(acc as i32);
        Some(vi as i8)
    } else {
        if acc <= 127 {
            Some(acc as i8)
        } else {
            None
        }
    }
}

} // verus!
