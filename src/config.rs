use vstd::prelude::*;

use crate::bag::BagError;

verus! {

/// The number of simulated draws that a freshly built bag performs per estimate.
pub const DEFAULT_MAX_SIMS: u32 = 100_000;

/// Whether `s` is a non-empty run of ASCII decimal digits.
pub open spec fn is_decimal(s: Seq<u8>) -> bool {
    s.len() > 0 && forall|i: int| 0 <= i < s.len() ==> 48 <= #[trigger] s[i] <= 57
}

/// The number written by the decimal digits `s`, most significant first.
pub open spec fn decimal_value(s: Seq<u8>) -> nat
    decreases s.len(),
{
    if s.len() == 0 {
        0
    } else {
        decimal_value(s.drop_last()) * 10 + (s.last() - 48) as nat
    }
}

/// The digits of an override: the text after one leading `+`, if there is
/// one, else the whole text.
pub open spec fn unsigned_digits(s: Seq<u8>) -> Seq<u8> {
    if s.len() > 0 && s[0] == 43 {
        s.subrange(1, s.len() as int)
    } else {
        s
    }
}

/// Resolves the simulation budget from an optional textual override.
///
/// Without an override the budget is `DEFAULT_MAX_SIMS`. An override must be
/// an optional `+` followed by the decimal digits of a positive number that
/// fits in a `u32`; anything else is a configuration error.
pub fn default_max_sims(setting: Option<&[u8]>) -> (r: Result<u32, BagError>)
    ensures
        setting.is_none() ==> r == Ok::<u32, BagError>(DEFAULT_MAX_SIMS),
        setting.is_some() ==> {
            let d = unsigned_digits(setting.unwrap()@);
            if is_decimal(d) && 0 < decimal_value(d) <= u32::MAX {
                r == Ok::<u32, BagError>(decimal_value(d) as u32)
            } else {
                r == Err::<u32, BagError>(BagError::InvalidConfiguration)
            }
        },
{
    match setting {
        None => Ok(DEFAULT_MAX_SIMS),
        Some(text) => {
            let start: usize = if text.len() > 0 && text[0] == 43 { 1 } else { 0 };
            proof {
                assert(text@.subrange(0, text@.len() as int) =~= text@);
            }
            parse_positive(text, start)
        },
    }
}

/// Reads `text[start..]` as the decimal digits of a positive `u32`.
fn parse_positive(text: &[u8], start: usize) -> (r: Result<u32, BagError>)
    requires
        start <= text@.len(),
    ensures
        ({
            let d = text@.subrange(start as int, text@.len() as int);
            if is_decimal(d) && 0 < decimal_value(d) <= u32::MAX {
                r == Ok::<u32, BagError>(decimal_value(d) as u32)
            } else {
                r == Err::<u32, BagError>(BagError::InvalidConfiguration)
            }
        }),
{
    let ghost d = text@.subrange(start as int, text@.len() as int);
    if start == text.len() {
        return Err(BagError::InvalidConfiguration);
    }
    let mut value: u32 = 0;
    let mut i: usize = start;
    while i < text.len()
        invariant
            start <= i <= text@.len(),
            d == text@.subrange(start as int, text@.len() as int),
            forall|j: int| start <= j < i ==> 48 <= #[trigger] text@[j] <= 57,
            value as nat == decimal_value(text@.subrange(start as int, i as int)),
        decreases text.len() - i,
    {
        let c = text[i];
        proof {
            let pre = text@.subrange(start as int, i as int);
            let next = text@.subrange(start as int, i + 1);
            assert(next.drop_last() =~= pre);
        }
        if c < 48 || c > 57 {
            proof {
                assert(d[i - start] == c);
                assert(!is_decimal(d));
            }
            return Err(BagError::InvalidConfiguration);
        }
        let digit: u32 = (c - 48) as u32;
        if value > (u32::MAX - digit) / 10 {
            proof {
                assert(text@.subrange(start as int, i + 1) =~= d.subrange(0, i - start + 1));
                lemma_prefix_bound(d, i - start + 1);
                assert(decimal_value(text@.subrange(start as int, i + 1)) > u32::MAX) by (nonlinear_arith)
                    requires
                        value > (u32::MAX - digit) / 10,
                        decimal_value(text@.subrange(start as int, i + 1)) == value * 10 + digit,
                        digit <= 9,
                ;
            }
            return Err(BagError::InvalidConfiguration);
        }
        value = value * 10 + digit;
        i = i + 1;
    }
    proof {
        assert forall|j: int| 0 <= j < d.len() implies 48 <= #[trigger] d[j] <= 57 by {
            assert(d[j] == text@[start + j]);
        }
    }
    if value == 0 {
        return Err(BagError::InvalidConfiguration);
    }
    Ok(value)
}

/// A longer run of digits never stands for a smaller number.
proof fn lemma_prefix_bound(s: Seq<u8>, n: int)
    requires
        0 <= n <= s.len(),
        forall|i: int| 0 <= i < n ==> 48 <= #[trigger] s[i] <= 57,
    ensures
        decimal_value(s.subrange(0, n)) <= decimal_value(s),
    decreases s.len(),
{
    if n < s.len() {
        assert(s.drop_last() =~= s.subrange(0, s.len() - 1));
        assert(s.subrange(0, n) =~= s.drop_last().subrange(0, n));
        lemma_prefix_bound(s.drop_last(), n);
    } else {
        assert(s.subrange(0, n) =~= s);
    }
}

} // verus!
