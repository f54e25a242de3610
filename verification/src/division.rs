use crate::decimal::Decimal;
use crate::error::ContractError;
use crate::timestamp::Timestamp;
use vstd::arithmetic::div_mod::lemma_div_multiples_vanish;
use vstd::arithmetic::mul::lemma_mul_is_commutative;
use vstd::prelude::*;

verus! {

broadcast use crate::decimal::lemma_decimal_view_range, crate::timestamp::lemma_timestamp_view_range;

/// The mathematical model of a division: every timestamp as its nanosecond
/// count, every ratio as its count of 10^-18 units.
pub ghost struct DivisionModel {
    pub started_at: int,
    pub updated_at: int,
    pub latest_value: int,
    pub cumsum: int,
}

/// The outcome of the windowed-average computation, at the model level.
pub ghost enum AvgOutcome {
    Value(int),
    NoData,
    Overflow,
    DivideByZero,
}

/// One compressed time bucket of the weighted moving average:
/// - `started_at`: instant the bucket began;
/// - `updated_at`: instant of the most recent value change in the bucket;
/// - `latest_value`: the most recently recorded ratio, still "open" (not yet
///   folded into `cumsum`);
/// - `cumsum`: the sum over every earlier value in the bucket of that value
///   times the span it was the latest value.
#[derive(Clone, Copy, Debug, PartialEq, Eq, Structural)]
pub struct CompressedDivision {
    started_at: Timestamp,
    updated_at: Timestamp,
    latest_value: Decimal,
    cumsum: Decimal,
}

impl View for CompressedDivision {
    type V = DivisionModel;

    closed spec fn view(&self) -> DivisionModel {
        DivisionModel {
            started_at: self.started_at@,
            updated_at: self.updated_at@,
            latest_value: self.latest_value@,
            cumsum: self.cumsum@,
        }
    }
}

/// The instant the bucket of `d` ends: its start plus the bucket span.
pub open spec fn division_ended_at(d: DivisionModel, division_size: int) -> int {
    d.started_at + division_size
}

/// The span attributed to the still-open latest value of `d` at query time
/// `block_time`: from the last update to the earlier of `block_time` and the
/// bucket's end.
pub open spec fn latest_value_elapsed(d: DivisionModel, division_size: int, block_time: int) -> int {
    if block_time > division_ended_at(d, division_size) {
        division_ended_at(d, division_size) - d.updated_at
    } else {
        block_time - d.updated_at
    }
}

/// Whether that span is computable in the machine's range: the bucket end
/// fits in a timestamp and the last update does not lie after the earlier of
/// `block_time` and the bucket's end.
pub open spec fn latest_value_elapsed_ok(
    d: DivisionModel,
    division_size: int,
    block_time: int,
) -> bool {
    &&& division_ended_at(d, division_size) <= u64::MAX
    &&& latest_value_elapsed(d, division_size, block_time) >= 0
}

/// The open interval's contribution: the latest value times its span.
pub open spec fn weighted_latest_value(d: DivisionModel, division_size: int, block_time: int) -> int {
    d.latest_value * latest_value_elapsed(d, division_size, block_time)
}

/// Whether the open interval's contribution is computable in range.
pub open spec fn weighted_latest_value_ok(
    d: DivisionModel,
    division_size: int,
    block_time: int,
) -> bool {
    &&& latest_value_elapsed_ok(d, division_size, block_time)
    &&& weighted_latest_value(d, division_size, block_time) <= u128::MAX
}

/// The whole mass of `d` at query time `block_time`: its closed intervals'
/// sum plus the open interval's contribution.
pub open spec fn division_cumsum_at(d: DivisionModel, division_size: int, block_time: int) -> int {
    d.cumsum + weighted_latest_value(d, division_size, block_time)
}

/// Whether that mass is computable in range.
pub open spec fn division_cumsum_at_ok(
    d: DivisionModel,
    division_size: int,
    block_time: int,
) -> bool {
    &&& weighted_latest_value_ok(d, division_size, block_time)
    &&& division_cumsum_at(d, division_size, block_time) <= u128::MAX
}

/// Adds the open interval's contribution of `d` to an already-computed base
/// contribution, with the overflow outcomes of the checked arithmetic.
pub open spec fn base_plus_weighted_latest(
    base: int,
    d: DivisionModel,
    division_size: int,
    block_time: int,
) -> AvgOutcome {
    if !weighted_latest_value_ok(d, division_size, block_time) {
        AvgOutcome::Overflow
    } else if base + weighted_latest_value(d, division_size, block_time) > u128::MAX {
        AvgOutcome::Overflow
    } else {
        AvgOutcome::Value(base + weighted_latest_value(d, division_size, block_time))
    }
}

/// The first division's contribution to the window starting at
/// `window_started_at`: only the portion of the bucket's span at-or-after the
/// window start counts, so the historical `cumsum` is rescaled (or dropped)
/// when the window cuts into the bucket, and the open interval contributes
/// its weighted latest value. Every checked arithmetic step's failure is an
/// `Overflow` (or `DivideByZero`) outcome, in evaluation order.
pub open spec fn first_division_contribution(
    d: DivisionModel,
    division_size: int,
    window_started_at: int,
    block_time: int,
) -> AvgOutcome {
    if division_ended_at(d, division_size) > u64::MAX {
        AvgOutcome::Overflow
    } else if window_started_at > division_ended_at(d, division_size) {
        AvgOutcome::Overflow
    } else {
        let remaining_division_size = if division_ended_at(d, division_size) - window_started_at
            < division_size {
            division_ended_at(d, division_size) - window_started_at
        } else {
            division_size
        };
        if !latest_value_elapsed_ok(d, division_size, block_time) {
            AvgOutcome::Overflow
        } else if remaining_division_size > latest_value_elapsed(d, division_size, block_time) {
            if d.updated_at < d.started_at {
                AvgOutcome::Overflow
            } else if window_started_at > d.started_at {
                let current_cumsum_weight = d.updated_at - d.started_at;
                let new_cumsum_weight = remaining_division_size - latest_value_elapsed(
                    d,
                    division_size,
                    block_time,
                );
                if current_cumsum_weight == 0 {
                    AvgOutcome::DivideByZero
                } else if (d.cumsum / current_cumsum_weight) * new_cumsum_weight > u128::MAX {
                    AvgOutcome::Overflow
                } else {
                    base_plus_weighted_latest(
                        (d.cumsum / current_cumsum_weight) * new_cumsum_weight,
                        d,
                        division_size,
                        block_time,
                    )
                }
            } else {
                base_plus_weighted_latest(d.cumsum, d, division_size, block_time)
            }
        } else {
            if d.latest_value * remaining_division_size > u128::MAX {
                AvgOutcome::Overflow
            } else {
                AvgOutcome::Value(d.latest_value * remaining_division_size)
            }
        }
    }
}

/// Folds the divisions after the first into the running total: each
/// contributes its whole mass at `block_time`, with the overflow outcomes of
/// the checked arithmetic.
pub open spec fn remaining_divisions_total(
    divs: Seq<DivisionModel>,
    division_size: int,
    block_time: int,
    acc: int,
) -> AvgOutcome
    decreases divs.len(),
{
    if divs.len() == 0 {
        AvgOutcome::Value(acc)
    } else if !division_cumsum_at_ok(divs[0], division_size, block_time) {
        AvgOutcome::Overflow
    } else if acc + division_cumsum_at(divs[0], division_size, block_time) > u128::MAX {
        AvgOutcome::Overflow
    } else {
        remaining_divisions_total(
            divs.drop_first(),
            division_size,
            block_time,
            acc + division_cumsum_at(divs[0], division_size, block_time),
        )
    }
}

/// The outcome of the windowed average over `divs` (ordered oldest first) for
/// the half-open window of length `window_size` ending at `block_time`: the
/// summed contributions divided (flooring) by the window span clipped to the
/// first division's start, or the typed failure the computation runs into,
/// in evaluation order.
pub open spec fn average_outcome(
    divs: Seq<DivisionModel>,
    division_size: int,
    window_size: int,
    block_time: int,
) -> AvgOutcome {
    if divs.len() == 0 {
        AvgOutcome::NoData
    } else if window_size > block_time {
        AvgOutcome::Overflow
    } else {
        let window_started_at = block_time - window_size;
        match first_division_contribution(divs[0], division_size, window_started_at, block_time) {
            AvgOutcome::Value(first_cumsum) => match remaining_divisions_total(
                divs.drop_first(),
                division_size,
                block_time,
                first_cumsum,
            ) {
                AvgOutcome::Value(total) => {
                    let started_at = if window_started_at > divs[0].started_at {
                        window_started_at
                    } else {
                        divs[0].started_at
                    };
                    if started_at > block_time {
                        AvgOutcome::Overflow
                    } else if block_time - started_at == 0 {
                        AvgOutcome::DivideByZero
                    } else {
                        AvgOutcome::Value(total / (block_time - started_at))
                    }
                },
                e => e,
            },
            e => e,
        }
    }
}

/// The models of a sequence of divisions.
pub open spec fn models(s: Seq<CompressedDivision>) -> Seq<DivisionModel> {
    s.map_values(|d: CompressedDivision| d@)
}

/// How an executable result corresponds to a model-level outcome.
pub open spec fn outcome_matches(r: Result<Decimal, ContractError>, o: AvgOutcome) -> bool {
    match o {
        AvgOutcome::Value(v) => r matches Ok(d) && d@ == v,
        AvgOutcome::NoData => r matches Err(e) && (e matches ContractError::NotFound { kind }
            && kind@ == "division"@),
        AvgOutcome::Overflow => r matches Err(e) && e is OverflowError,
        AvgOutcome::DivideByZero => r matches Err(e) && e is DivideByZeroError,
    }
}

impl CompressedDivision {
    /// The instant this bucket began.
    pub fn started_at(&self) -> (r: Timestamp)
        ensures
            r@ == self@.started_at,
    {
        self.started_at
    }

    /// The instant of the most recent value change within this bucket.
    pub fn updated_at(&self) -> (r: Timestamp)
        ensures
            r@ == self@.updated_at,
    {
        self.updated_at
    }

    /// The most recently recorded ratio, not yet folded into `cumsum`.
    pub fn latest_value(&self) -> (r: Decimal)
        ensures
            r@ == self@.latest_value,
    {
        self.latest_value
    }

    /// The time-weighted sum of this bucket's closed intervals.
    pub fn cumsum(&self) -> (r: Decimal)
        ensures
            r@ == self@.cumsum,
    {
        self.cumsum
    }

    /// Opens a bucket: the whole interval from `started_at` to `updated_at`
    /// is attributed to `prev_value` (the ratio in effect when the bucket
    /// opened), and `value` becomes the open latest value.
    ///
    /// Fails with a temporal-ordering error whenever `updated_at` lies before
    /// `started_at`, and with an overflow error when the seeded sum leaves
    /// the representable range. With `started_at == updated_at` the seeded
    /// sum is zero, whatever `prev_value` is.
    pub fn new(
        started_at: Timestamp,
        updated_at: Timestamp,
        value: Decimal,
        prev_value: Decimal,
    ) -> (r: Result<CompressedDivision, ContractError>)
        ensures
            updated_at@ < started_at@ ==> (r matches Err(e) && (e
                matches ContractError::ChangeLimitError { msg } && msg@
                == "`updated_at` must be greater than or equal to `started_at`"@)),
            updated_at@ >= started_at@ && prev_value@ * (updated_at@ - started_at@) > u128::MAX
                ==> (r matches Err(e) && e is OverflowError),
            updated_at@ >= started_at@ && prev_value@ * (updated_at@ - started_at@) <= u128::MAX
                ==> (r matches Ok(d) && d@ == (DivisionModel {
                started_at: started_at@,
                updated_at: updated_at@,
                latest_value: value@,
                cumsum: prev_value@ * (updated_at@ - started_at@),
            })),
            updated_at@ == started_at@ ==> (r matches Ok(d) && d@.cumsum == 0),
    {
        if updated_at.nanos() < started_at.nanos() {
            return Err(
                ContractError::change_limit_error(
                    "`updated_at` must be greater than or equal to `started_at`",
                ),
            );
        }
        let elapsed_time: u64 = updated_at.nanos() - started_at.nanos();
        proof {
            assert(prev_value@ * 0 == 0) by (nonlinear_arith);
        }
        let cumsum = match prev_value.checked_mul_uint(elapsed_time) {
            Ok(c) => c,
            Err(e) => {
                return Err(e);
            },
        };
        Ok(CompressedDivision { started_at, updated_at, latest_value: value, cumsum })
    }

    /// Folds the just-closed open interval into `cumsum` (the latest value
    /// times the span since the last update) and opens a new interval for
    /// `value`.
    ///
    /// Fails with an overflow error when `updated_at` lies before the last
    /// update, or when a checked step leaves the representable range. With
    /// `updated_at` equal to the last update the sum is unchanged and only
    /// the latest value is replaced.
    pub fn update(&self, updated_at: Timestamp, value: Decimal) -> (r: Result<
        CompressedDivision,
        ContractError,
    >)
        ensures
            updated_at@ < self@.updated_at ==> (r matches Err(e) && e is OverflowError),
            updated_at@ >= self@.updated_at && self@.latest_value * (updated_at@
                - self@.updated_at) > u128::MAX ==> (r matches Err(e) && e is OverflowError),
            updated_at@ >= self@.updated_at && self@.latest_value * (updated_at@
                - self@.updated_at) <= u128::MAX && self@.cumsum + self@.latest_value * (updated_at@
                - self@.updated_at) > u128::MAX ==> (r matches Err(e) && e is OverflowError),
            updated_at@ >= self@.updated_at && self@.cumsum + self@.latest_value * (updated_at@
                - self@.updated_at) <= u128::MAX ==> (r matches Ok(d) && d@ == (DivisionModel {
                started_at: self@.started_at,
                updated_at: updated_at@,
                latest_value: value@,
                cumsum: self@.cumsum + self@.latest_value * (updated_at@ - self@.updated_at),
            })),
            updated_at@ == self@.updated_at ==> (r matches Ok(d) && d@ == (DivisionModel {
                started_at: self@.started_at,
                updated_at: self@.updated_at,
                latest_value: value@,
                cumsum: self@.cumsum,
            })),
    {
        if updated_at.nanos() < self.updated_at.nanos() {
            return Err(ContractError::OverflowError);
        }
        let elapsed_time: u64 = updated_at.nanos() - self.updated_at.nanos();
        proof {
            assert(self@.latest_value * 0 == 0) by (nonlinear_arith);
        }
        let folded = match self.latest_value.checked_mul_uint(elapsed_time) {
            Ok(c) => c,
            Err(e) => {
                return Err(e);
            },
        };
        let cumsum = match self.cumsum.checked_add(folded) {
            Ok(c) => c,
            Err(e) => {
                return Err(e);
            },
        };
        Ok(
            CompressedDivision {
                started_at: self.started_at,
                updated_at,
                latest_value: value,
                cumsum,
            },
        )
    }

    /// The time-weighted average over `divisions` (ordered oldest first, as
    /// the caller's window store yields them) of the tracked ratio, for the
    /// half-open window of length `window_size` ending at `block_time`.
    ///
    /// Each bucket contributes its closed intervals' sum plus its still-open
    /// latest value extrapolated to the earlier of `block_time` and the
    /// bucket's end; the first (oldest) bucket contributes only the portion
    /// of its span inside the window, its historical sum rescaled (or
    /// dropped) accordingly. The total is divided, flooring, by the window
    /// span clipped to the first bucket's start. The result — value or typed
    /// failure — is exactly the model-level `average_outcome`: an empty
    /// sequence is a "not found" failure before anything else is computed, a
    /// window longer than the elapsed chain time underflows, a zero elapsed
    /// span is a divide-by-zero failure, and every checked arithmetic step
    /// that leaves its range is an overflow failure.
    #[verifier::loop_isolation(false)]
    pub fn average(
        divisions: &Vec<CompressedDivision>,
        division_size: u64,
        window_size: u64,
        block_time: Timestamp,
    ) -> (r: Result<Decimal, ContractError>)
        ensures
            outcome_matches(
                r,
                average_outcome(
                    models(divisions@),
                    division_size as int,
                    window_size as int,
                    block_time@,
                ),
            ),
    {
        let ghost dms = models(divisions@);
        let ghost dsz = division_size as int;
        let ghost btg = block_time@;

        if divisions.len() == 0 {
            return Err(ContractError::not_found("division"));
        }
        let bt = block_time.nanos();
        if window_size > bt {
            return Err(ContractError::OverflowError);
        }
        let window_started_at: u64 = bt - window_size;
        let ghost wsa = window_started_at as int;
        let first = &divisions[0];
        proof {
            assert(dms[0] == first@);
        }
        let first_started_at = first.started_at.nanos();
        if first_started_at > u64::MAX - division_size {
            return Err(ContractError::OverflowError);
        }
        let first_ended_at: u64 = first_started_at + division_size;
        if window_started_at > first_ended_at {
            return Err(ContractError::OverflowError);
        }
        let mut remaining_division_size: u64 = first_ended_at - window_started_at;
        if remaining_division_size > division_size {
            remaining_division_size = division_size;
        }
        let latest_value_elapsed_time = match first.latest_value_elapsed_time(
            division_size,
            block_time,
        ) {
            Ok(t) => t,
            Err(e) => {
                return Err(e);
            },
        };
        let cumsum_start: Decimal;
        if remaining_division_size > latest_value_elapsed_time {
            if first.updated_at.nanos() < first.started_at.nanos() {
                return Err(ContractError::OverflowError);
            }
            let current_cumsum_weight: u64 = first.updated_at.nanos() - first.started_at.nanos();
            let base: Decimal;
            if window_started_at > first_started_at {
                let new_cumsum_weight: u64 = remaining_division_size - latest_value_elapsed_time;
                let division_average_before_latest_update = match first.cumsum.checked_div_uint(
                    current_cumsum_weight,
                ) {
                    Ok(d) => d,
                    Err(e) => {
                        return Err(e);
                    },
                };
                base = match division_average_before_latest_update.checked_mul_uint(
                    new_cumsum_weight,
                ) {
                    Ok(d) => d,
                    Err(e) => {
                        return Err(e);
                    },
                };
            } else {
                base = first.cumsum;
            }
            let weighted = match first.weighted_latest_value(division_size, block_time) {
                Ok(d) => d,
                Err(e) => {
                    return Err(e);
                },
            };
            cumsum_start = match base.checked_add(weighted) {
                Ok(c) => c,
                Err(e) => {
                    return Err(e);
                },
            };
        } else {
            cumsum_start = match first.latest_value.checked_mul_uint(remaining_division_size) {
                Ok(c) => c,
                Err(e) => {
                    return Err(e);
                },
            };
        }
        let ghost c0 = cumsum_start@;
        proof {
            assert(first_division_contribution(dms[0], dsz, wsa, btg) == AvgOutcome::Value(c0));
            assert(dms.drop_first() =~= dms.subrange(1, dms.len() as int));
        }
        let mut cumsum = cumsum_start;
        let mut i: usize = 1;
        while i < divisions.len()
            invariant
                1 <= i <= divisions.len(),
                dms == models(divisions@),
                dsz == division_size as int,
                btg == block_time@,
                remaining_divisions_total(
                    dms.subrange(i as int, dms.len() as int),
                    dsz,
                    btg,
                    cumsum@,
                ) == remaining_divisions_total(dms.subrange(1, dms.len() as int), dsz, btg, c0),
            decreases divisions.len() - i,
        {
            let d = &divisions[i];
            proof {
                assert(dms[i as int] == d@);
            }
            let ghost pre = cumsum@;
            let mass = match d.cumsum_at_block_time(division_size, block_time) {
                Ok(m) => m,
                Err(e) => {
                    proof {
                        assert(remaining_divisions_total(
                            dms.subrange(i as int, dms.len() as int),
                            dsz,
                            btg,
                            pre,
                        ) == AvgOutcome::Overflow);
                    }
                    return Err(e);
                },
            };
            cumsum = match cumsum.checked_add(mass) {
                Ok(c) => c,
                Err(e) => {
                    proof {
                        assert(remaining_divisions_total(
                            dms.subrange(i as int, dms.len() as int),
                            dsz,
                            btg,
                            pre,
                        ) == AvgOutcome::Overflow);
                    }
                    return Err(e);
                },
            };
            proof {
                assert(dms.subrange(i as int, dms.len() as int).drop_first() =~= dms.subrange(
                    i as int + 1,
                    dms.len() as int,
                ));
                assert(remaining_divisions_total(
                    dms.subrange(i as int, dms.len() as int),
                    dsz,
                    btg,
                    pre,
                ) == remaining_divisions_total(
                    dms.subrange(i as int + 1, dms.len() as int),
                    dsz,
                    btg,
                    cumsum@,
                ));
            }
            i = i + 1;
        }
        proof {
            assert(dms.subrange(i as int, dms.len() as int) =~= Seq::<DivisionModel>::empty());
            assert(remaining_divisions_total(dms.subrange(1, dms.len() as int), dsz, btg, c0)
                == AvgOutcome::Value(cumsum@));
        }
        let started_at: u64 = if window_started_at > first_started_at {
            window_started_at
        } else {
            first_started_at
        };
        if started_at > bt {
            return Err(ContractError::OverflowError);
        }
        let total_elapsed_time: u64 = bt - started_at;
        cumsum.checked_div_uint(total_elapsed_time)
    }

    /// The span attributed to the still-open latest value at `block_time`:
    /// from the last update to the earlier of `block_time` and the bucket's
    /// end. Fails with an overflow error when a checked step underflows or
    /// overflows.
    fn latest_value_elapsed_time(&self, division_size: u64, block_time: Timestamp) -> (r: Result<
        u64,
        ContractError,
    >)
        ensures
            latest_value_elapsed_ok(self@, division_size as int, block_time@) ==> (r matches Ok(t)
                && t == latest_value_elapsed(self@, division_size as int, block_time@)),
            !latest_value_elapsed_ok(self@, division_size as int, block_time@) ==> (r matches Err(e)
                && e is OverflowError),
    {
        let s = self.started_at.nanos();
        if s > u64::MAX - division_size {
            return Err(ContractError::OverflowError);
        }
        let ended_at: u64 = s + division_size;
        let bt = block_time.nanos();
        let u = self.updated_at.nanos();
        if bt > ended_at {
            if u > ended_at {
                Err(ContractError::OverflowError)
            } else {
                Ok(ended_at - u)
            }
        } else {
            if u > bt {
                Err(ContractError::OverflowError)
            } else {
                Ok(bt - u)
            }
        }
    }

    /// The open interval's contribution at `block_time`: the latest value
    /// times its elapsed span.
    fn weighted_latest_value(&self, division_size: u64, block_time: Timestamp) -> (r: Result<
        Decimal,
        ContractError,
    >)
        ensures
            weighted_latest_value_ok(self@, division_size as int, block_time@) ==> (r matches Ok(d)
                && d@ == weighted_latest_value(self@, division_size as int, block_time@)),
            !weighted_latest_value_ok(self@, division_size as int, block_time@) ==> (r
                matches Err(e) && e is OverflowError),
    {
        let elapsed_time = match self.latest_value_elapsed_time(division_size, block_time) {
            Ok(t) => t,
            Err(e) => {
                return Err(e);
            },
        };
        self.latest_value.checked_mul_uint(elapsed_time)
    }

    /// The whole mass of this bucket at `block_time`: `cumsum` plus the open
    /// interval's contribution.
    fn cumsum_at_block_time(&self, division_size: u64, block_time: Timestamp) -> (r: Result<
        Decimal,
        ContractError,
    >)
        ensures
            division_cumsum_at_ok(self@, division_size as int, block_time@) ==> (r matches Ok(d)
                && d@ == division_cumsum_at(self@, division_size as int, block_time@)),
            !division_cumsum_at_ok(self@, division_size as int, block_time@) ==> (r matches Err(e)
                && e is OverflowError),
    {
        let weighted = match self.weighted_latest_value(division_size, block_time) {
            Ok(d) => d,
            Err(e) => {
                return Err(e);
            },
        };
        self.cumsum.checked_add(weighted)
    }
}

/// The plain mathematical sum of the masses of `divs` at `block_time`.
pub open spec fn total_division_cumsum(
    divs: Seq<DivisionModel>,
    division_size: int,
    block_time: int,
) -> int
    decreases divs.len(),
{
    if divs.len() == 0 {
        0
    } else {
        division_cumsum_at(divs[0], division_size, block_time) + total_division_cumsum(
            divs.drop_first(),
            division_size,
            block_time,
        )
    }
}

/// Whenever the running checked fold over the divisions after the first
/// succeeds, its value is exactly the accumulator plus the plain sum of
/// those divisions' masses: the fold computes the mathematical sum, in any
/// grouping.
pub proof fn lemma_remaining_divisions_total_is_sum(
    divs: Seq<DivisionModel>,
    division_size: int,
    block_time: int,
    acc: int,
)
    requires
        remaining_divisions_total(divs, division_size, block_time, acc) is Value,
    ensures
        remaining_divisions_total(divs, division_size, block_time, acc) == AvgOutcome::Value(
            acc + total_division_cumsum(divs, division_size, block_time),
        ),
    decreases divs.len(),
{
    if divs.len() > 0 {
        lemma_remaining_divisions_total_is_sum(
            divs.drop_first(),
            division_size,
            block_time,
            acc + division_cumsum_at(divs[0], division_size, block_time),
        );
    }
}

/// Whenever the whole computation succeeds, the average is the first
/// division's windowed contribution plus the sum of the later divisions'
/// masses, divided (flooring) by the window span clipped to the first
/// division's start — the weighted-sum shape of the result, stated without
/// the intermediate fold.
pub proof fn lemma_average_is_clipped_weighted_sum(
    divs: Seq<DivisionModel>,
    division_size: int,
    window_size: int,
    block_time: int,
)
    requires
        average_outcome(divs, division_size, window_size, block_time) is Value,
    ensures
        ({
            let window_started_at = block_time - window_size;
            let first = first_division_contribution(
                divs[0],
                division_size,
                window_started_at,
                block_time,
            );
            let started_at = if window_started_at > divs[0].started_at {
                window_started_at
            } else {
                divs[0].started_at
            };
            &&& divs.len() > 0
            &&& window_size <= block_time
            &&& first is Value
            &&& block_time > started_at
            &&& average_outcome(divs, division_size, window_size, block_time)
                == AvgOutcome::Value(
                (first->Value_0 + total_division_cumsum(
                    divs.drop_first(),
                    division_size,
                    block_time,
                )) / (block_time - started_at),
            )
        }),
{
    let window_started_at = block_time - window_size;
    let first = first_division_contribution(
        divs[0],
        division_size,
        window_started_at,
        block_time,
    );
    lemma_remaining_divisions_total_is_sum(
        divs.drop_first(),
        division_size,
        block_time,
        first->Value_0,
    );
}

/// Averaging over an empty division sequence is always the "no data"
/// failure: for every combination of division size, window size and query
/// time, the outcome is `NoData`, never a value and never an arithmetic
/// failure — emptiness is tested before any window arithmetic.
pub proof fn lemma_average_empty_divisions(division_size: int, window_size: int, block_time: int)
    ensures
        average_outcome(Seq::<DivisionModel>::empty(), division_size, window_size, block_time)
            == AvgOutcome::NoData,
{
}

/// Averaged at exactly its last update, a single freshly-opened bucket
/// yields exactly the ratio that seeded it: for a bucket whose whole sum is
/// `prev_value` spread over `[started_at, updated_at)`, querying at
/// `block_time == updated_at` returns `prev_value`, independent of the
/// window size as long as the window reaches back to the bucket's start.
pub proof fn lemma_average_single_division_at_update_time(
    d: DivisionModel,
    prev_value: int,
    division_size: int,
    window_size: int,
    block_time: int,
)
    requires
        0 <= d.started_at < d.updated_at,
        d.updated_at <= d.started_at + division_size,
        d.started_at + division_size <= u64::MAX,
        0 <= d.latest_value,
        0 <= prev_value,
        d.cumsum == prev_value * (d.updated_at - d.started_at),
        d.cumsum <= u128::MAX,
        block_time == d.updated_at,
        window_size <= block_time,
        block_time - window_size <= d.started_at,
    ensures
        average_outcome(seq![d], division_size, window_size, block_time) == AvgOutcome::Value(
            prev_value,
        ),
{
    assert(d.latest_value * (block_time - d.updated_at) == 0) by (nonlinear_arith)
        requires
            block_time == d.updated_at,
    ;
    assert(seq![d].drop_first() =~= Seq::<DivisionModel>::empty());
    lemma_mul_is_commutative(prev_value, d.updated_at - d.started_at);
    lemma_div_multiples_vanish(prev_value, d.updated_at - d.started_at);
}

/// As the query time advances through a bucket's span past its last update,
/// the average interpolates toward the open latest value: over a single
/// bucket whose whole span the window covers, the result at any
/// `block_time` between the last update and the bucket's end is exactly the
/// bucket's historical sum plus the latest value weighted by
/// `block_time - updated_at`, divided (flooring) by the span
/// `block_time - started_at` — so the latest value's weight grows with
/// `block_time` while the historical weight stays fixed.
pub proof fn lemma_average_single_division_interpolates(
    d: DivisionModel,
    division_size: int,
    window_size: int,
    block_time: int,
)
    requires
        0 <= d.started_at <= d.updated_at,
        d.updated_at <= d.started_at + division_size,
        d.started_at + division_size <= u64::MAX,
        d.started_at < block_time,
        d.updated_at <= block_time <= d.started_at + division_size,
        0 <= d.latest_value,
        0 <= d.cumsum,
        d.updated_at == d.started_at ==> d.cumsum == 0,
        d.latest_value * (block_time - d.updated_at) <= u128::MAX,
        d.cumsum + d.latest_value * (block_time - d.updated_at) <= u128::MAX,
        window_size <= block_time,
        block_time - window_size <= d.started_at,
    ensures
        average_outcome(seq![d], division_size, window_size, block_time) == AvgOutcome::Value(
            (d.cumsum + d.latest_value * (block_time - d.updated_at)) / (block_time - d.started_at),
        ),
{
    assert(seq![d].drop_first() =~= Seq::<DivisionModel>::empty());
    assert(d.latest_value * (block_time - d.updated_at) >= 0) by (nonlinear_arith)
        requires
            0 <= d.latest_value,
            d.updated_at <= block_time,
    ;
}

/// In exact arithmetic, a single bucket's average moves monotonically
/// toward its latest value as the query time grows through the open
/// interval. Comparing the mass/span ratios at two query times `bt1 <= bt2`
/// by cross-multiplication (both spans are positive, so no rationals are
/// needed), the drift between them is exactly
/// `(bt2 - bt1) * (latest_value * (updated_at - started_at) - cumsum)`:
/// zero elapsed history aside, the later average is at least the earlier
/// one precisely when the latest value is at least the bucket's historical
/// average, and at most otherwise — the open interval's weight pulls the
/// result toward `latest_value` from either side.
pub proof fn lemma_average_single_division_monotone_toward_latest(
    d: DivisionModel,
    bt1: int,
    bt2: int,
)
    requires
        0 <= d.started_at <= d.updated_at,
        d.started_at < bt1 <= bt2,
        d.updated_at <= bt1,
        0 <= d.latest_value,
        0 <= d.cumsum,
    ensures
        (d.cumsum + d.latest_value * (bt2 - d.updated_at)) * (bt1 - d.started_at) - (d.cumsum
            + d.latest_value * (bt1 - d.updated_at)) * (bt2 - d.started_at) == (bt2 - bt1) * (
        d.latest_value * (d.updated_at - d.started_at) - d.cumsum),
        d.latest_value * (d.updated_at - d.started_at) >= d.cumsum ==> (d.cumsum + d.latest_value
            * (bt1 - d.updated_at)) * (bt2 - d.started_at) <= (d.cumsum + d.latest_value * (bt2
            - d.updated_at)) * (bt1 - d.started_at),
        d.latest_value * (d.updated_at - d.started_at) <= d.cumsum ==> (d.cumsum + d.latest_value
            * (bt1 - d.updated_at)) * (bt2 - d.started_at) >= (d.cumsum + d.latest_value * (bt2
            - d.updated_at)) * (bt1 - d.started_at),
{
    let s = d.started_at;
    let u = d.updated_at;
    let lv = d.latest_value;
    let c = d.cumsum;
    assert((c + lv * (bt2 - u)) * (bt1 - s) - (c + lv * (bt1 - u)) * (bt2 - s) == (bt2 - bt1) * (lv
        * (u - s) - c)) by (nonlinear_arith);
    assert(lv * (u - s) >= c ==> (bt2 - bt1) * (lv * (u - s) - c) >= 0) by (nonlinear_arith)
        requires
            bt1 <= bt2,
    ;
    assert(lv * (u - s) <= c ==> (bt2 - bt1) * (lv * (u - s) - c) <= 0) by (nonlinear_arith)
        requires
            bt1 <= bt2,
    ;
}

} // verus!
