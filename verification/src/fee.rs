//! Fixed-point manager fee: a numerator/denominator ratio applied to a
//! winner's profit.

use vstd::prelude::*;
use vstd::arithmetic::div_mod::{lemma_div_is_ordered, lemma_div_multiples_vanish};
use vstd::arithmetic::mul::{lemma_mul_inequality, lemma_mul_upper_bound};
use crate::error::StakePoolError;

verus! {

/// Fee ratio retained by the pool manager, copied into each pool at
/// creation and never mutated afterward.
#[derive(Clone, Copy, Debug, PartialEq, Eq, Structural)]
pub struct Fee {
    /// Denominator of the fee ratio.
    pub denominator: u64,
    /// Numerator of the fee ratio.
    pub numerator: u64,
}

impl Fee {
    /// A usable fee ratio: well-defined and at most the whole.
    pub open spec fn is_valid(self) -> bool {
        self.denominator > 0 && self.numerator <= self.denominator
    }

    /// Runtime check of `is_valid`.
    pub fn check_valid(&self) -> (r: bool)
        ensures
            r == self.is_valid(),
    {
        self.denominator > 0 && self.numerator <= self.denominator
    }
}

/// Initial values for a new pool.
#[derive(Clone, Copy, Debug, PartialEq, Eq, Structural)]
pub struct InitArgs {
    /// Fee paid to the pool manager out of each winner's profit.
    pub fee: Fee,
}

/// The fee levied on a gross amount: `floor(gross * numerator / denominator)`.
pub open spec fn fee_amount_of(gross: u64, fee: Fee) -> int
    recommends
        fee.is_valid(),
{
    (gross * fee.numerator) / (fee.denominator as int)
}

/// The fee never exceeds what it is levied on.
pub proof fn lemma_fee_amount_le_gross(gross: u64, fee: Fee)
    requires
        fee.is_valid(),
    ensures
        0 <= fee_amount_of(gross, fee) <= gross,
{
    lemma_mul_inequality(fee.numerator as int, fee.denominator as int, gross as int);
    lemma_div_is_ordered(
        gross * fee.numerator,
        gross * fee.denominator,
        fee.denominator as int,
    );
    lemma_div_multiples_vanish(gross as int, fee.denominator as int);
}

/// Splits `gross` into the net amount kept by the recipient and the fee
/// amount retained by the pool manager.
///
/// The fee is `floor(gross * numerator / denominator)`, computed with a
/// double-width intermediate, so the multiplication cannot overflow;
/// the only failure is a malformed ratio.
pub fn apply_fee(gross: u64, fee: Fee) -> (r: Result<(u64, u64), StakePoolError>)
    ensures
        fee.is_valid() ==> (r matches Ok(p)
            && p.1 == fee_amount_of(gross, fee)
            && p.0 == gross - fee_amount_of(gross, fee)
            && p.0 + p.1 == gross),
        !fee.is_valid() ==> r == Err::<(u64, u64), StakePoolError>(StakePoolError::InvalidFeeRatio),
{
    if fee.denominator == 0 || fee.numerator > fee.denominator {
        return Err(StakePoolError::InvalidFeeRatio);
    }
    proof {
        lemma_mul_upper_bound(gross as int, u64::MAX as int, fee.numerator as int, u64::MAX as int);
        lemma_fee_amount_le_gross(gross, fee);
    }
    let wide: u128 = (gross as u128) * (fee.numerator as u128);
    let fee_amount: u64 = (wide / (fee.denominator as u128)) as u64;
    Ok((gross - fee_amount, fee_amount))
}

} // verus!
