//! Decoding of base-11 digit strings.
//!
//! A digit string assigns one exponent per filled cell: '1'-'9' carry their
//! numeric value, 'A' carries 10 and 'B' carries 11.  The digit '0' is not
//! accepted, and at most one 'B' may occur in the whole string; the 'B'
//! count is checked before any per-character decoding.

use vstd::prelude::*;
use crate::text::count_ch;

verus! {

/// Why a digit string was rejected.
#[derive(Debug, Clone, Copy, PartialEq, Eq, Structural)]
pub enum Base11Error {
    /// More than one 'B' in the string.
    DuplicateB,
    /// A character other than '1'-'9', 'A' or 'B'.
    InvalidDigit,
}

/// Accepted base-11 digit characters.
pub open spec fn is_base11_digit(c: char) -> bool {
    ('1' as u32 <= c as u32 && c as u32 <= '9' as u32) || c == 'A' || c == 'B'
}

/// Exponent carried by an accepted digit character.
pub open spec fn digit_value(c: char) -> u32 {
    if c == 'A' {
        10
    } else if c == 'B' {
        11
    } else {
        (c as u32 as int - '0' as u32 as int) as u32
    }
}

/// The decode of a whole digit string: the duplicate-'B' check comes first,
/// then every character must be an accepted digit, and on success each
/// character maps to its exponent.
pub open spec fn spec_parse_base11(s: Seq<char>) -> Result<Seq<u32>, Base11Error> {
    if count_ch(s, 'B') > 1 {
        Err(Base11Error::DuplicateB)
    } else if exists|i: int| 0 <= i < s.len() && !is_base11_digit(s[i]) {
        Err(Base11Error::InvalidDigit)
    } else {
        Ok(Seq::new(s.len(), |i: int| digit_value(s[i])))
    }
}

/// Decodes a base-11 digit string into the exponents it carries.
/// Every decoded exponent lies in 1..=11.
pub fn parse_base11(s: &Vec<char>) -> (r: Result<Vec<u32>, Base11Error>)
    ensures
        match r {
            Ok(v) => spec_parse_base11(s@) == Ok::<Seq<u32>, Base11Error>(v@),
            Err(e) => spec_parse_base11(s@) == Err::<Seq<u32>, Base11Error>(e),
        },
{
    let n = s.len();
    let mut b_count: usize = 0;
    let mut i: usize = 0;
    while i < n
        invariant
            0 <= i <= n == s@.len(),
            b_count == count_ch(s@.subrange(0, i as int), 'B'),
            b_count <= i,
        decreases n - i,
    {
        proof {
            assert(s@.subrange(0, i + 1).drop_last() =~= s@.subrange(0, i as int));
            assert(s@.subrange(0, i + 1).last() == s@[i as int]);
        }
        if s[i] == 'B' {
            b_count = b_count + 1;
        }
        i = i + 1;
    }
    proof {
        assert(s@.subrange(0, n as int) =~= s@);
    }
    if b_count > 1 {
        return Err(Base11Error::DuplicateB);
    }
    let mut out: Vec<u32> = Vec::new();
    let mut j: usize = 0;
    while j < n
        invariant
            0 <= j <= n == s@.len(),
            count_ch(s@, 'B') <= 1,
            out@.len() == j,
            forall|k: int| 0 <= k < j ==> is_base11_digit(#[trigger] s@[k]),
            forall|k: int| 0 <= k < j ==> #[trigger] out@[k] == digit_value(s@[k]),
        decreases n - j,
    {
        let c = s[j];
        let cu = c as u32;
        if c == 'A' {
            out.push(10);
        } else if c == 'B' {
            out.push(11);
        } else if 49 <= cu && cu <= 57 {
            out.push(cu - 48);
        } else {
            proof {
                assert(!is_base11_digit(s@[j as int]));
            }
            return Err(Base11Error::InvalidDigit);
        }
        j = j + 1;
    }
    proof {
        assert(out@ =~= Seq::new(s@.len(), |i: int| digit_value(s@[i])));
    }
    Ok(out)
}

} // verus!
