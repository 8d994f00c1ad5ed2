//! Decimal parsing of unsigned integers from character sequences, with the
//! exact acceptance rules of `str::parse` for unsigned types: an optional
//! leading '+', then one or more ASCII digits, and the value must fit.

use vstd::prelude::*;

verus! {

/// ASCII decimal digit.
pub open spec fn is_dec_digit(c: char) -> bool {
    '0' as u32 <= c as u32 && c as u32 <= '9' as u32
}

/// The digits of `s`, after an optional leading '+' sign.
pub open spec fn digits_part(s: Seq<char>) -> Seq<char> {
    if s.len() > 0 && s[0] == '+' {
        s.drop_first()
    } else {
        s
    }
}

/// Every character of `s` is an ASCII decimal digit.
pub open spec fn all_dec_digits(s: Seq<char>) -> bool {
    forall|i: int| 0 <= i < s.len() ==> is_dec_digit(s[i])
}

/// The value of `s` read as a decimal numeral.
pub open spec fn dec_value(s: Seq<char>) -> int
    decreases s.len(),
{
    if s.len() == 0 {
        0
    } else {
        dec_value(s.drop_last()) * 10 + (s.last() as u32 as int - '0' as u32 as int)
    }
}

/// Unfolds `dec_value` one digit at a time over a growing prefix.
pub proof fn lemma_dec_value_step(s: Seq<char>, i: int)
    requires
        0 <= i < s.len(),
    ensures
        dec_value(s.subrange(0, i + 1)) == dec_value(s.subrange(0, i)) * 10 + (s[i] as u32 as int
            - '0' as u32 as int),
{
    assert(s.subrange(0, i + 1).drop_last() =~= s.subrange(0, i));
    assert(s.subrange(0, i + 1).last() == s[i]);
}

/// A digit string's value only grows as digits are appended.
pub proof fn lemma_dec_value_prefix_le(s: Seq<char>, i: int)
    requires
        0 <= i <= s.len(),
        all_dec_digits(s),
        dec_value(s.subrange(0, i)) >= 0,
    ensures
        dec_value(s) >= dec_value(s.subrange(0, i)),
    decreases s.len() - i,
{
    if i == s.len() {
        assert(s.subrange(0, i) =~= s);
    } else {
        lemma_dec_value_step(s, i);
        lemma_dec_value_prefix_le(s, i + 1);
    }
}

/// The parse of `s` as a `u32`, as `str::parse::<u32>` accepts it:
/// `None` on an empty numeral, a non-digit character, or overflow.
pub open spec fn parse_u32_spec(s: Seq<char>) -> Option<u32> {
    let d = digits_part(s);
    if d.len() > 0 && all_dec_digits(d) && dec_value(d) <= u32::MAX {
        Some(dec_value(d) as u32)
    } else {
        None
    }
}

/// The parse of `s` as a `usize`, as `str::parse::<usize>` accepts it.
pub open spec fn parse_usize_spec(s: Seq<char>) -> Option<usize> {
    let d = digits_part(s);
    if d.len() > 0 && all_dec_digits(d) && dec_value(d) <= usize::MAX {
        Some(dec_value(d) as usize)
    } else {
        None
    }
}

/// Value of the digit sequence `s@.subrange(start, ..)` accumulated into a
/// `u64`, or `None` exactly where `parse_*` would refuse it with `bound` as
/// the largest accepted value.
fn parse_decimal_loop(s: &Vec<char>, start: usize, bound: u64) -> (r: Option<u64>)
    requires
        start <= s@.len(),
        bound >= 9,
    ensures
        ({
            let d = s@.subrange(start as int, s@.len() as int);
            match r {
                Some(v) => d.len() > 0 && all_dec_digits(d) && dec_value(d) == v && v <= bound,
                None => !(d.len() > 0 && all_dec_digits(d) && dec_value(d) <= bound),
            }
        }),
{
    let ghost d = s@.subrange(start as int, s@.len() as int);
    let n = s.len();
    if start == n {
        return None;
    }
    let mut val: u64 = 0;
    let mut i: usize = start;
    while i < n
        invariant
            start <= i <= n == s@.len(),
            start < n,
            bound >= 9,
            d == s@.subrange(start as int, s@.len() as int),
            all_dec_digits(d.subrange(0, i - start)),
            val == dec_value(d.subrange(0, i - start)),
            val <= bound,
        decreases n - i,
    {
        let c = s[i];
        let cu = c as u32;
        proof {
            assert(d[i - start] == s@[i as int]);
        }
        if !(48 <= cu && cu <= 57) {
            proof {
                assert(!is_dec_digit(d[i - start]));
            }
            return None;
        }
        let digit: u64 = (cu - 48) as u64;
        proof {
            lemma_dec_value_step(d, i - start);
            assert(all_dec_digits(d.subrange(0, i - start + 1)));
        }
        if val > (bound - digit) / 10 {
            proof {
                assert(val * 10 + digit > bound) by (nonlinear_arith)
                    requires
                        val > (bound - digit) / 10,
                        digit <= 9,
                        digit <= bound,
                ;
                assert(dec_value(d.subrange(0, i - start + 1)) > bound);
                if all_dec_digits(d) {
                    lemma_dec_value_prefix_le(d, i - start + 1);
                }
            }
            return None;
        }
        proof {
            assert(val * 10 + digit <= bound) by (nonlinear_arith)
                requires
                    val <= (bound - digit) / 10,
                    digit <= 9,
                    digit <= bound,
            ;
        }
        val = val * 10 + digit;
        i = i + 1;
    }
    proof {
        assert(d.subrange(0, n - start) =~= d);
    }
    Some(val)
}

/// Parses an unsigned 32-bit decimal numeral, as `str::parse::<u32>`.
pub fn parse_u32_chars(s: &Vec<char>) -> (r: Option<u32>)
    ensures
        r == parse_u32_spec(s@),
{
    let start: usize = if s.len() > 0 && s[0] == '+' {
        1
    } else {
        0
    };
    proof {
        if s@.len() > 0 && s@[0] == '+' {
            assert(s@.subrange(1, s@.len() as int) =~= digits_part(s@));
        } else {
            assert(s@.subrange(0, s@.len() as int) =~= digits_part(s@));
        }
    }
    match parse_decimal_loop(s, start, u32::MAX as u64) {
        Some(v) => Some(v as u32),
        None => None,
    }
}

/// Parses an unsigned pointer-sized decimal numeral, as `str::parse::<usize>`.
pub fn parse_usize_chars(s: &Vec<char>) -> (r: Option<usize>)
    ensures
        r == parse_usize_spec(s@),
{
    let start: usize = if s.len() > 0 && s[0] == '+' {
        1
    } else {
        0
    };
    proof {
        if s@.len() > 0 && s@[0] == '+' {
            assert(s@.subrange(1, s@.len() as int) =~= digits_part(s@));
        } else {
            assert(s@.subrange(0, s@.len() as int) =~= digits_part(s@));
        }
    }
    match parse_decimal_loop(s, start, usize::MAX as u64) {
        Some(v) => Some(v as usize),
        None => None,
    }
}

} // verus!
