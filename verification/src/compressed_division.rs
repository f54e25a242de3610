use crate::decimal::Decimal;
use crate::error::ContractError;
use crate::timestamp::Timestamp;
use vstd::prelude::*;

verus! {

/// The first-generation compressed bucket: a plain running sum of the
/// observed values together with their count, for a simple (unweighted)
/// moving average.
#[derive(Clone, Copy, Debug, PartialEq, Eq, Structural)]
pub struct CompressedDivision {
    pub start_time: Timestamp,
    pub cumsum: Decimal,
    pub n: u64,
}

impl CompressedDivision {
    /// Opens a bucket at `start_time` holding a single observed value.
    pub fn start(start_time: Timestamp, value: Decimal) -> (r: CompressedDivision)
        ensures
            r.start_time == start_time,
            r.cumsum == value,
            r.n == 1,
    {
        CompressedDivision { start_time, cumsum: value, n: 1 }
    }

    /// Folds one more observed value into the running sum. Fails with an
    /// overflow error when either the sum or the count leaves its range.
    pub fn accum(&self, value: Decimal) -> (r: Result<CompressedDivision, ContractError>)
        ensures
            self.cumsum@ + value@ <= u128::MAX && self.n < u64::MAX ==> (r matches Ok(d)
                && d.start_time == self.start_time && d.cumsum@ == self.cumsum@ + value@ && d.n
                == self.n + 1),
            self.cumsum@ + value@ > u128::MAX || self.n == u64::MAX ==> (r matches Err(e)
                && e is OverflowError),
    {
        let cumsum = match self.cumsum.checked_add(value) {
            Ok(c) => c,
            Err(e) => {
                return Err(e);
            },
        };
        if self.n == u64::MAX {
            return Err(ContractError::OverflowError);
        }
        Ok(CompressedDivision { start_time: self.start_time, cumsum, n: self.n + 1 })
    }

    /// Nanoseconds from the bucket's start to `block_time`. Fails with an
    /// overflow error when `block_time` lies before the start.
    pub fn elasped_time(&self, block_time: Timestamp) -> (r: Result<u64, ContractError>)
        ensures
            block_time@ >= self.start_time@ ==> (r matches Ok(t) && t == block_time@
                - self.start_time@),
            block_time@ < self.start_time@ ==> (r matches Err(e) && e is OverflowError),
    {
        let bt = block_time.nanos();
        let st = self.start_time.nanos();
        if bt < st {
            Err(ContractError::OverflowError)
        } else {
            Ok(bt - st)
        }
    }

    /// The simple average of the values folded in so far: the running sum
    /// divided by the count, flooring. Fails with a divide-by-zero error
    /// when the count is zero.
    pub fn average(&self) -> (r: Result<Decimal, ContractError>)
        ensures
            self.n != 0 ==> (r matches Ok(d) && d@ == self.cumsum@ / (self.n as int)),
            self.n == 0 ==> (r matches Err(e) && e is DivideByZeroError),
    {
        self.cumsum.checked_div_uint(self.n)
    }
}

} // verus!
