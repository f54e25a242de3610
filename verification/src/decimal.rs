use crate::error::ContractError;
use vstd::arithmetic::div_mod::{
    lemma_fundamental_div_mod, lemma_mod_division_less_than_divisor,
};
use vstd::arithmetic::mul::{
    lemma_mul_inequality, lemma_mul_is_commutative, lemma_mul_is_distributive_add_other_way,
};
use vstd::prelude::*;

verus! {

/// Number of atomic units in one percent: a value is stored as an integer
/// count of 10^-18 units, so one percent is 10^16 of them.
pub const PERCENT_ATOMICS: u128 = 10_000_000_000_000_000;

/// A non-negative fixed-point ratio with 18 decimal digits of precision,
/// stored as an integer count of 10^-18 units ("atomics"). Its view is that
/// count as a mathematical integer.
///
/// The engine only ever scales a ratio by a whole number of nanoseconds and
/// divides it by a whole number of nanoseconds, so the arithmetic surface is
/// checked addition, checked multiplication by an integer, and flooring
/// division by an integer.
#[derive(Clone, Copy, Debug, PartialEq, Eq, Structural)]
pub struct Decimal {
    atomics: u128,
}

impl View for Decimal {
    type V = int;

    closed spec fn view(&self) -> int {
        self.atomics as int
    }
}

/// A ratio's view is the count of an unsigned 128-bit quantity.
pub broadcast proof fn lemma_decimal_view_range(d: Decimal)
    ensures
        0 <= #[trigger] d@ <= u128::MAX,
{
}

/// If `a <= m / b` then `a * b` stays within `m` (all values non-negative).
proof fn lemma_mul_le_max(a: int, b: int, m: int)
    requires
        0 <= a,
        0 < b,
        0 <= m,
        a <= m / b,
    ensures
        a * b <= m,
{
    lemma_mul_inequality(a, m / b, b);
    lemma_fundamental_div_mod(m, b);
    lemma_mod_division_less_than_divisor(m, b);
    lemma_mul_is_commutative(m / b, b);
}

/// If `a > m / b` then `a * b` exceeds `m` (with `b > 0`).
proof fn lemma_mul_gt_max(a: int, b: int, m: int)
    requires
        0 < b,
        0 <= m,
        a > m / b,
    ensures
        a * b > m,
{
    lemma_mul_inequality(m / b + 1, a, b);
    lemma_mul_is_distributive_add_other_way(b, m / b, 1);
    lemma_mul_is_commutative(m / b, b);
    lemma_fundamental_div_mod(m, b);
    lemma_mod_division_less_than_divisor(m, b);
}

impl Decimal {
    /// The ratio zero.
    pub fn zero() -> (r: Decimal)
        ensures
            r@ == 0,
    {
        Decimal { atomics: 0 }
    }

    /// The ratio `p` percent, i.e. `p / 100`.
    pub fn percent(p: u64) -> (r: Decimal)
        ensures
            r@ == p * PERCENT_ATOMICS,
    {
        proof {
            lemma_mul_inequality(p as int, u64::MAX as int, PERCENT_ATOMICS as int);
            assert((u64::MAX as int) * (PERCENT_ATOMICS as int) <= u128::MAX as int)
                by (nonlinear_arith);
        }
        Decimal { atomics: (p as u128) * PERCENT_ATOMICS }
    }

    /// The raw count of 10^-18 units.
    pub fn atomics(&self) -> (r: u128)
        ensures
            r == self@,
    {
        self.atomics
    }

    /// Checked addition: fails with an overflow error when the sum leaves
    /// the representable range.
    pub fn checked_add(&self, other: Decimal) -> (r: Result<Decimal, ContractError>)
        ensures
            self@ + other@ <= u128::MAX ==> (r matches Ok(d) && d@ == self@ + other@),
            self@ + other@ > u128::MAX ==> (r matches Err(e) && e is OverflowError),
    {
        if self.atomics > u128::MAX - other.atomics {
            Err(ContractError::OverflowError)
        } else {
            Ok(Decimal { atomics: self.atomics + other.atomics })
        }
    }

    /// Checked scaling by a whole number (e.g. a nanosecond count): fails
    /// with an overflow error when the product leaves the representable
    /// range.
    pub fn checked_mul_uint(&self, factor: u64) -> (r: Result<Decimal, ContractError>)
        ensures
            self@ * factor <= u128::MAX ==> (r matches Ok(d) && d@ == self@ * factor),
            self@ * factor > u128::MAX ==> (r matches Err(e) && e is OverflowError),
    {
        let wide: u128 = factor as u128;
        if wide != 0 && self.atomics > u128::MAX / wide {
            proof {
                lemma_mul_gt_max(self@, wide as int, u128::MAX as int);
            }
            Err(ContractError::OverflowError)
        } else {
            proof {
                if wide != 0 {
                    lemma_mul_le_max(self@, wide as int, u128::MAX as int);
                }
            }
            Ok(Decimal { atomics: self.atomics * wide })
        }
    }

    /// Flooring division by a whole number (e.g. a nanosecond count): fails
    /// with a divide-by-zero error when the divisor is zero.
    pub fn checked_div_uint(&self, divisor: u64) -> (r: Result<Decimal, ContractError>)
        ensures
            divisor != 0 ==> (r matches Ok(d) && d@ == self@ / (divisor as int)),
            divisor == 0 ==> (r matches Err(e) && e is DivideByZeroError),
    {
        if divisor == 0 {
            Err(ContractError::DivideByZeroError)
        } else {
            Ok(Decimal { atomics: self.atomics / (divisor as u128) })
        }
    }
}

} // verus!
