//! Mapping a 256-bit value into a half-open range `[min, max)`.

use crate::uint::{u256_modulus, U256};
use vstd::prelude::*;

verus! {

/// Why a derivation was refused.
#[derive(Clone, Copy, Debug, PartialEq, Eq, Structural)]
pub enum SeedError {
    /// The range `[min, max)` holds no value: `max <= min`.
    InvalidRange,
}

/// The inclusive lower bound: `min`, or 0 where it is absent.
pub open spec fn lower_bound(min: Option<U256>) -> nat {
    match min {
        Some(m) => m@,
        None => 0,
    }
}

/// The exclusive upper bound: `max`, or `2^256` where it is absent.
pub open spec fn upper_bound(max: Option<U256>) -> nat {
    match max {
        Some(m) => m@,
        None => u256_modulus(),
    }
}

/// Whether `[min, max)` holds at least one value.
pub open spec fn range_ok(min: Option<U256>, max: Option<U256>) -> bool {
    lower_bound(min) < upper_bound(max)
}

/// The upper bound is at most `2^256`.
pub proof fn lemma_upper_bound_fits(max: Option<U256>)
    ensures
        upper_bound(max) <= u256_modulus(),
{
    if let Some(m) = max {
        m.lemma_wf();
    }
}

/// `raw` mapped into `[lo, hi)`: `lo + raw mod (hi - lo)`.
pub open spec fn range_value(raw: nat, lo: nat, hi: nat) -> nat
    recommends
        lo < hi,
{
    lo + raw % (hi - lo) as nat
}

/// A mapped value lies in its range.
pub proof fn lemma_range_value_bounds(raw: nat, lo: nat, hi: nat)
    requires
        lo < hi,
    ensures
        lo <= range_value(raw, lo, hi) < hi,
{
    let w = (hi - lo) as nat;
    assert(raw % w < w) by (nonlinear_arith)
        requires
            w > 0,
    ;
}

/// The lower bound that `min` gives.
pub(crate) fn lower_of(min: &Option<U256>) -> (r: U256)
    ensures
        r@ == lower_bound(*min),
{
    match min {
        Some(m) => *m,
        None => U256::from_u64(0),
    }
}

/// The width `hi - lo` of the range `[lo@, upper_bound(max))`: `Ok(None)`
/// stands for the full width `2^256`, which no `U256` holds, and `Err` for an
/// empty range.
pub(crate) fn range_width(lo: &U256, max: &Option<U256>) -> (r: Result<Option<U256>, SeedError>)
    ensures
        r is Err <==> lo@ >= upper_bound(*max),
        r matches Ok(None) ==> lo@ == 0 && upper_bound(*max) == u256_modulus(),
        r matches Ok(Some(w)) ==> w@ == upper_bound(*max) - lo@,
{
    proof {
        lo.lemma_wf();
    }
    match max {
        Some(hi) => match hi.checked_sub(lo) {
            None => Err(SeedError::InvalidRange),
            Some(w) => {
                if w.is_zero() {
                    Err(SeedError::InvalidRange)
                } else {
                    Ok(Some(w))
                }
            },
        },
        None => {
            if lo.is_zero() {
                Ok(None)
            } else {
                let top = U256::max_value();
                match top.checked_sub(lo) {
                    None => Err(SeedError::InvalidRange),
                    Some(w) => {
                        let w = w.wrapping_add(&U256::from_u64(1));
                        proof {
                            vstd::arithmetic::div_mod::lemma_small_mod(
                                (u256_modulus() - lo@) as nat,
                                u256_modulus(),
                            );
                        }
                        Ok(Some(w))
                    },
                }
            }
        },
    }
}

/// `raw` mapped into `[lo, lo + width)`, where `width` is `None` for `2^256`.
fn reduce(raw: &U256, lo: &U256, width: &Option<U256>) -> (r: U256)
    requires
        width is None ==> lo@ == 0,
        width matches Some(w) ==> w@ > 0 && lo@ + w@ <= u256_modulus(),
    ensures
        width matches Some(w) ==> r@ == range_value(raw@, lo@, lo@ + w@),
        width is None ==> r@ == range_value(raw@, 0, u256_modulus()),
{
    proof {
        raw.lemma_wf();
    }
    match width {
        None => {
            proof {
                vstd::arithmetic::div_mod::lemma_small_mod(raw@, u256_modulus());
            }
            *raw
        },
        Some(w) => {
            let m = raw.wrapping_rem(w);
            proof {
                lemma_range_value_bounds(raw@, lo@, lo@ + w@);
            }
            let r = m.wrapping_add(lo);
            proof {
                vstd::arithmetic::div_mod::lemma_small_mod(m@ + lo@, u256_modulus());
            }
            r
        },
    }
}

/// `raw` mapped into `[min, max)`, with the bounds' defaults `0` and `2^256`;
/// an error where the range is empty.
pub fn fit_to_range(raw: &U256, min: &Option<U256>, max: &Option<U256>) -> (r: Result<
    U256,
    SeedError,
>)
    ensures
        r is Err <==> !range_ok(*min, *max),
        r matches Ok(v) ==> v@ == range_value(raw@, lower_bound(*min), upper_bound(*max)),
{
    let lo = lower_of(min);
    proof {
        lemma_upper_bound_fits(*max);
    }
    match range_width(&lo, max) {
        Err(e) => Err(e),
        Ok(width) => Ok(reduce(raw, &lo, &width)),
    }
}

} // verus!
