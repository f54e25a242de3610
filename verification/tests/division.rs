use transmuter::decimal::Decimal;
use transmuter::division::CompressedDivision;
use transmuter::error::ContractError;
use transmuter::timestamp::Timestamp;

fn plus(a: Decimal, b: Decimal) -> Decimal {
    a.checked_add(b).unwrap()
}

fn times(d: Decimal, factor: u64) -> Decimal {
    d.checked_mul_uint(factor).unwrap()
}

fn over(d: Decimal, divisor: u64) -> Decimal {
    d.checked_div_uint(divisor).unwrap()
}

#[test]
fn test_new_compressed_division() {
    // started_at < updated_at
    let started_at = Timestamp::from_nanos(90);
    let updated_at = Timestamp::from_nanos(100);
    let value = Decimal::percent(10);
    let prev_value = Decimal::percent(10);
    let compressed_division =
        CompressedDivision::new(started_at, updated_at, value, prev_value).unwrap();

    assert_eq!(compressed_division.started_at(), started_at);
    assert_eq!(compressed_division.updated_at(), updated_at);
    assert_eq!(compressed_division.latest_value(), value);
    assert_eq!(compressed_division.cumsum(), times(Decimal::percent(10), 10));

    // started_at == updated_at
    let started_at = Timestamp::from_nanos(90);
    let updated_at = Timestamp::from_nanos(90);

    let compressed_division =
        CompressedDivision::new(started_at, updated_at, value, prev_value).unwrap();

    assert_eq!(compressed_division.started_at(), started_at);
    assert_eq!(compressed_division.updated_at(), updated_at);
    assert_eq!(compressed_division.latest_value(), value);
    assert_eq!(compressed_division.cumsum(), Decimal::zero());

    // started_at > updated_at
    let started_at = Timestamp::from_nanos(90);
    let updated_at = Timestamp::from_nanos(89);

    let err = CompressedDivision::new(started_at, updated_at, value, prev_value).unwrap_err();

    assert_eq!(
        err,
        ContractError::change_limit_error(
            "`updated_at` must be greater than or equal to `started_at`"
        )
    );
}

#[test]
fn test_update_compressed_division() {
    let started_at = Timestamp::from_nanos(90);
    let updated_at = Timestamp::from_nanos(100);
    let value = Decimal::percent(20);
    let prev_value = Decimal::percent(10);
    let compressed_division =
        CompressedDivision::new(started_at, updated_at, value, prev_value).unwrap();

    let updated_at = Timestamp::from_nanos(120);
    let value = Decimal::percent(20);
    let updated_compressed_division = compressed_division.update(updated_at, value).unwrap();

    assert_eq!(updated_compressed_division.started_at(), started_at);
    assert_eq!(updated_compressed_division.updated_at(), updated_at);
    assert_eq!(updated_compressed_division.latest_value(), value);
    assert_eq!(
        updated_compressed_division.cumsum(),
        plus(
            times(Decimal::percent(10), 10),
            times(Decimal::percent(20), 20)
        )
    );
}

#[test]
fn test_update_with_zero_elapsed_time() {
    let compressed_division = CompressedDivision::new(
        Timestamp::from_nanos(90),
        Timestamp::from_nanos(100),
        Decimal::percent(20),
        Decimal::percent(10),
    )
    .unwrap();

    let updated = compressed_division
        .update(Timestamp::from_nanos(100), Decimal::percent(35))
        .unwrap();

    // same instant: the cumulative sum is untouched, only the open value moves
    assert_eq!(updated.cumsum(), compressed_division.cumsum());
    assert_eq!(updated.latest_value(), Decimal::percent(35));
    assert_eq!(updated.started_at(), Timestamp::from_nanos(90));
    assert_eq!(updated.updated_at(), Timestamp::from_nanos(100));
}

#[test]
fn test_update_with_decreasing_time() {
    let compressed_division = CompressedDivision::new(
        Timestamp::from_nanos(90),
        Timestamp::from_nanos(100),
        Decimal::percent(20),
        Decimal::percent(10),
    )
    .unwrap();

    let err = compressed_division
        .update(Timestamp::from_nanos(99), Decimal::percent(35))
        .unwrap_err();

    assert_eq!(err, ContractError::OverflowError);
}

#[test]
fn test_new_overflowing_cumsum() {
    let err = CompressedDivision::new(
        Timestamp::from_nanos(0),
        Timestamp::from_nanos(u64::MAX),
        Decimal::percent(10),
        Decimal::percent(u64::MAX),
    )
    .unwrap_err();

    assert_eq!(err, ContractError::OverflowError);
}

#[test]
fn test_average_empty_iter() {
    let divisions: Vec<CompressedDivision> = vec![];
    let division_size = 100u64;
    let window_size = 1000u64;
    let block_time = Timestamp::from_nanos(1100);
    let average = CompressedDivision::average(&divisions, division_size, window_size, block_time);

    assert_eq!(average.unwrap_err(), ContractError::not_found("division"));
}

#[test]
fn test_average_window_underflow() {
    // a window reaching back past the clock's origin underflows
    let divisions = vec![CompressedDivision::new(
        Timestamp::from_nanos(100),
        Timestamp::from_nanos(110),
        Decimal::percent(20),
        Decimal::percent(10),
    )
    .unwrap()];
    let average = CompressedDivision::average(&divisions, 100, 1000, Timestamp::from_nanos(500));

    assert_eq!(average.unwrap_err(), ContractError::OverflowError);

    // but an empty sequence is reported as missing data even then
    let divisions: Vec<CompressedDivision> = vec![];
    let average = CompressedDivision::average(&divisions, 100, 1000, Timestamp::from_nanos(500));

    assert_eq!(average.unwrap_err(), ContractError::not_found("division"));
}

#[test]
fn test_average_zero_elapsed_time() {
    let divisions = vec![CompressedDivision::new(
        Timestamp::from_nanos(100),
        Timestamp::from_nanos(100),
        Decimal::percent(20),
        Decimal::percent(10),
    )
    .unwrap()];

    let average =
        CompressedDivision::average(&divisions, 100, 100, Timestamp::from_nanos(100));

    assert_eq!(average.unwrap_err(), ContractError::DivideByZeroError);
}

#[test]
fn test_average_single_div() {
    let started_at = Timestamp::from_nanos(1100);
    let updated_at = Timestamp::from_nanos(1110);
    let value = Decimal::percent(20);
    let prev_value = Decimal::percent(10);
    let compressed_division =
        CompressedDivision::new(started_at, updated_at, value, prev_value).unwrap();

    let divisions = vec![compressed_division];
    let division_size = 100u64;
    let window_size = 1000u64;
    let block_time = Timestamp::from_nanos(1110);
    let average =
        CompressedDivision::average(&divisions, division_size, window_size, block_time).unwrap();

    assert_eq!(average, prev_value);

    let block_time = Timestamp::from_nanos(1115);
    let average =
        CompressedDivision::average(&divisions, division_size, window_size, block_time).unwrap();

    assert_eq!(
        average,
        over(plus(times(prev_value, 10), times(value, 5)), 15)
    );

    // half way to the division size
    let block_time = Timestamp::from_nanos(1150);
    let average =
        CompressedDivision::average(&divisions, division_size, window_size, block_time).unwrap();

    assert_eq!(
        average,
        over(plus(times(prev_value, 10), times(value, 40)), 50)
    );

    // at the division edge
    let block_time = Timestamp::from_nanos(1200);
    let average =
        CompressedDivision::average(&divisions, division_size, window_size, block_time).unwrap();

    assert_eq!(
        average,
        over(plus(times(prev_value, 10), times(value, 90)), 100)
    );

    // at the division edge but there is some update before
    let update_time = Timestamp::from_nanos(1150);
    let updated_value = Decimal::percent(30);

    let updated_division = divisions[0].update(update_time, updated_value).unwrap();

    let divisions = vec![updated_division];

    let block_time = Timestamp::from_nanos(1200);
    let average =
        CompressedDivision::average(&divisions, division_size, window_size, block_time).unwrap();

    assert_eq!(
        average,
        over(
            plus(
                plus(times(prev_value, 10), times(value, 40)),
                times(updated_value, 50)
            ),
            100
        )
    );
}

#[test]
fn test_average_approaches_latest_value() {
    // as the query time advances, the open 20% interval outweighs the seeded
    // 10%: the average climbs toward the latest value without passing it
    let divisions = vec![CompressedDivision::new(
        Timestamp::from_nanos(1100),
        Timestamp::from_nanos(1110),
        Decimal::percent(20),
        Decimal::percent(10),
    )
    .unwrap()];

    let at = |nanos: u64| {
        CompressedDivision::average(&divisions, 100, 1000, Timestamp::from_nanos(nanos))
            .unwrap()
            .atomics()
    };

    let early: u128 = at(1120);
    let middle: u128 = at(1160);
    let late: u128 = at(1200);

    assert!(early < middle);
    assert!(middle < late);
    assert!(late < Decimal::percent(20).atomics());
}

#[test]
fn test_average_double_divs() {
    let division_size = 100u64;
    let window_size = 1000u64;

    let divisions = vec![
        {
            let started_at = Timestamp::from_nanos(1100);
            let updated_at = Timestamp::from_nanos(1110);
            let value = Decimal::percent(20);
            let prev_value = Decimal::percent(10);
            CompressedDivision::new(started_at, updated_at, value, prev_value).unwrap()
        },
        {
            let started_at = Timestamp::from_nanos(1200);
            let updated_at = Timestamp::from_nanos(1260);
            let value = Decimal::percent(30);
            let prev_value = Decimal::percent(20);
            CompressedDivision::new(started_at, updated_at, value, prev_value).unwrap()
        },
    ];

    let block_time = Timestamp::from_nanos(1270);
    let average =
        CompressedDivision::average(&divisions, division_size, window_size, block_time).unwrap();

    assert_eq!(
        average,
        over(
            plus(
                plus(
                    plus(
                        times(Decimal::percent(10), 10),
                        times(Decimal::percent(20), 90)
                    ),
                    times(Decimal::percent(20), 60)
                ),
                times(Decimal::percent(30), 10)
            ),
            170
        )
    );
}

#[test]
fn test_average_tripple_divs() {
    let division_size = 100u64;
    let window_size = 1000u64;

    let divisions = vec![
        {
            let started_at = Timestamp::from_nanos(1100);
            let updated_at = Timestamp::from_nanos(1110);
            let value = Decimal::percent(20);
            let prev_value = Decimal::percent(10);
            CompressedDivision::new(started_at, updated_at, value, prev_value).unwrap()
        },
        {
            let started_at = Timestamp::from_nanos(1200);
            let updated_at = Timestamp::from_nanos(1260);
            let value = Decimal::percent(30);
            let prev_value = Decimal::percent(20);
            CompressedDivision::new(started_at, updated_at, value, prev_value).unwrap()
        },
        {
            let started_at = Timestamp::from_nanos(1300);
            let updated_at = Timestamp::from_nanos(1340);
            let value = Decimal::percent(40);
            let prev_value = Decimal::percent(30);
            CompressedDivision::new(started_at, updated_at, value, prev_value).unwrap()
        },
    ];

    let block_time = Timestamp::from_nanos(1370);

    let average =
        CompressedDivision::average(&divisions, division_size, window_size, block_time).unwrap();

    assert_eq!(
        average,
        over(
            plus(
                plus(
                    plus(
                        plus(
                            plus(
                                times(Decimal::percent(10), 10),
                                times(Decimal::percent(20), 90)
                            ),
                            times(Decimal::percent(20), 60)
                        ),
                        times(Decimal::percent(30), 40)
                    ),
                    times(Decimal::percent(30), 40)
                ),
                times(Decimal::percent(40), 30)
            ),
            270
        )
    );
}

#[test]
fn test_average_when_div_is_in_overlapping_window() {
    let division_size = 200u64;
    let window_size = 600u64;

    let divisions = vec![
        {
            let started_at = Timestamp::from_nanos(1100);
            let updated_at = Timestamp::from_nanos(1110);
            let value = Decimal::percent(20);
            let prev_value = Decimal::percent(10);
            CompressedDivision::new(started_at, updated_at, value, prev_value).unwrap()
        },
        {
            let started_at = Timestamp::from_nanos(1300);
            let updated_at = Timestamp::from_nanos(1360);
            let value = Decimal::percent(30);
            let prev_value = Decimal::percent(20);
            CompressedDivision::new(started_at, updated_at, value, prev_value).unwrap()
        },
        {
            let started_at = Timestamp::from_nanos(1500);
            let updated_at = Timestamp::from_nanos(1640);
            let value = Decimal::percent(40);
            let prev_value = Decimal::percent(30);
            CompressedDivision::new(started_at, updated_at, value, prev_value).unwrap()
        },
    ];

    let block_time = Timestamp::from_nanos(1700);

    let average =
        CompressedDivision::average(&divisions, division_size, window_size, block_time).unwrap();

    assert_eq!(
        average,
        over(
            plus(
                plus(
                    plus(
                        plus(
                            plus(
                                times(Decimal::percent(10), 10),
                                times(Decimal::percent(20), 190)
                            ),
                            times(Decimal::percent(20), 60)
                        ),
                        times(Decimal::percent(30), 140)
                    ),
                    times(Decimal::percent(30), 140)
                ),
                times(Decimal::percent(40), 60)
            ),
            600
        )
    );

    let base_divisions = divisions;

    let divisions = [
        base_divisions.clone(),
        vec![{
            let started_at = Timestamp::from_nanos(1700);
            let updated_at = Timestamp::from_nanos(1700);
            let value = Decimal::percent(50);
            let prev_value = Decimal::percent(40);
            CompressedDivision::new(started_at, updated_at, value, prev_value).unwrap()
        }],
    ]
    .concat();

    let block_time = Timestamp::from_nanos(1705);

    let average =
        CompressedDivision::average(&divisions, division_size, window_size, block_time).unwrap();

    assert_eq!(
        average,
        over(
            plus(
                plus(
                    plus(
                        plus(
                            plus(
                                plus(
                                    times(Decimal::percent(10), 5),
                                    times(Decimal::percent(20), 190)
                                ),
                                times(Decimal::percent(20), 60)
                            ),
                            times(Decimal::percent(30), 140)
                        ),
                        times(Decimal::percent(30), 140)
                    ),
                    times(Decimal::percent(40), 60)
                ),
                times(Decimal::percent(50), 5)
            ),
            600
        )
    );

    let divisions = [
        base_divisions.clone(),
        vec![{
            let started_at = Timestamp::from_nanos(1700);
            let updated_at = Timestamp::from_nanos(1701);
            let value = Decimal::percent(50);
            let prev_value = Decimal::percent(40);
            CompressedDivision::new(started_at, updated_at, value, prev_value).unwrap()
        }],
    ]
    .concat();

    let block_time = Timestamp::from_nanos(1705);

    let average =
        CompressedDivision::average(&divisions, division_size, window_size, block_time).unwrap();

    assert_eq!(
        average,
        over(
            plus(
                plus(
                    plus(
                        plus(
                            plus(
                                plus(
                                    plus(
                                        times(Decimal::percent(10), 5),
                                        times(Decimal::percent(20), 190)
                                    ),
                                    times(Decimal::percent(20), 60)
                                ),
                                times(Decimal::percent(30), 140)
                            ),
                            times(Decimal::percent(30), 140)
                        ),
                        times(Decimal::percent(40), 60)
                    ),
                    times(Decimal::percent(40), 1)
                ),
                times(Decimal::percent(50), 4)
            ),
            600
        )
    );

    let divisions = [
        base_divisions,
        vec![{
            let started_at = Timestamp::from_nanos(1700);
            let updated_at = Timestamp::from_nanos(1740);
            let value = Decimal::percent(50);
            let prev_value = Decimal::percent(40);
            CompressedDivision::new(started_at, updated_at, value, prev_value).unwrap()
        }],
    ]
    .concat();

    let block_time = Timestamp::from_nanos(1740);

    let average =
        CompressedDivision::average(&divisions, division_size, window_size, block_time).unwrap();

    assert_eq!(
        average,
        over(
            plus(
                plus(
                    plus(
                        plus(
                            plus(
                                times(Decimal::percent(20), 160),
                                times(Decimal::percent(20), 60)
                            ),
                            times(Decimal::percent(30), 140)
                        ),
                        times(Decimal::percent(30), 140)
                    ),
                    times(Decimal::percent(40), 60)
                ),
                times(Decimal::percent(40), 40)
            ),
            600
        )
    );

    let block_time = Timestamp::from_nanos(1899);

    let average =
        CompressedDivision::average(&divisions, division_size, window_size, block_time).unwrap();

    assert_eq!(
        average,
        over(
            plus(
                plus(
                    plus(
                        plus(
                            plus(
                                plus(
                                    times(Decimal::percent(20), 1),
                                    times(Decimal::percent(20), 60)
                                ),
                                times(Decimal::percent(30), 140)
                            ),
                            times(Decimal::percent(30), 140)
                        ),
                        times(Decimal::percent(40), 60)
                    ),
                    times(Decimal::percent(40), 40)
                ),
                times(Decimal::percent(50), 159)
            ),
            600
        )
    );
}
