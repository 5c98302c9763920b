use orderbook::arguments::{
    duration_from_seconds, wei_from_base_unit, ParseAmountError, ParseSecondsError, Timespan,
};
use orderbook::num::U256;
use orderbook::refresh::{Phase, RefreshLoop};
use orderbook::solver::{SettlementSubmissionOutcome, SolverRunOutcome, SolverType};

#[test]
fn requests_while_waiting_wake_the_loop_once() {
    let mut l = RefreshLoop::new();
    assert!(l.start(true));
    for _ in 0..5 {
        l.request_update();
    }
    assert!(l.wake(false));
    assert_eq!(l.block_read(Some(7)), Some(7));
    assert_eq!(l.phase, Phase::Fetching);
    l.finish();
    assert!(l.start(true));
    assert!(!l.wake(false));
    assert!(l.wake(true));
}

#[test]
fn unknown_block_ends_the_iteration() {
    let mut l = RefreshLoop::new();
    l.start(true);
    l.wake(true);
    assert_eq!(l.block_read(None), None);
    assert_eq!(l.phase, Phase::Idle);
}

#[test]
fn dropped_cache_stops_the_loop() {
    let mut l = RefreshLoop::new();
    assert!(!l.start(false));
    assert_eq!(l.phase, Phase::Stopped);
    l.request_update();
    assert!(!l.wake(true));
    assert!(!l.start(true));
    assert_eq!(l.phase, Phase::Stopped);
}

#[test]
fn parses_seconds() {
    assert_eq!(duration_from_seconds("10"), Ok(Timespan { secs: 10, nanos: 0 }));
    assert_eq!(duration_from_seconds("0.5"), Ok(Timespan { secs: 0, nanos: 500_000_000 }));
    assert_eq!(duration_from_seconds(".25"), Ok(Timespan { secs: 0, nanos: 250_000_000 }));
    assert_eq!(duration_from_seconds("3."), Ok(Timespan { secs: 3, nanos: 0 }));
    assert_eq!(
        duration_from_seconds("1.1234567891"),
        Ok(Timespan { secs: 1, nanos: 123_456_789 })
    );
    assert_eq!(
        duration_from_seconds("18446744073709551615"),
        Ok(Timespan { secs: u64::MAX, nanos: 0 })
    );
}

#[test]
fn rejects_malformed_seconds() {
    assert_eq!(duration_from_seconds(""), Err(ParseSecondsError::Invalid));
    assert_eq!(duration_from_seconds("."), Err(ParseSecondsError::Invalid));
    assert_eq!(duration_from_seconds("1.2.3"), Err(ParseSecondsError::Invalid));
    assert_eq!(duration_from_seconds("-1"), Err(ParseSecondsError::Invalid));
    assert_eq!(duration_from_seconds("ten"), Err(ParseSecondsError::Invalid));
    assert_eq!(
        duration_from_seconds("18446744073709551616"),
        Err(ParseSecondsError::TooLarge)
    );
}

#[test]
fn outcome_labels() {
    assert_eq!(SolverRunOutcome::Success.label(), "success");
    assert_eq!(SolverRunOutcome::Empty.label(), "empty");
    assert_eq!(SolverRunOutcome::Timeout.label(), "timeout");
    assert_eq!(SolverRunOutcome::Failure.label(), "failure");
    assert_eq!(SettlementSubmissionOutcome::SimulationRevert.label(), "simulationrevert");
    assert_eq!(SettlementSubmissionOutcome::Disabled.label(), "disabled");
    assert_eq!(SettlementSubmissionOutcome::Failed.label(), "failed");
}

#[test]
fn solver_names() {
    assert_eq!(SolverType::CowDexAg.name(), "CowDexAg");
    assert_eq!(SolverType::BalancerSor.name(), "BalancerSor");
    assert_eq!(SolverType::Naive.name(), "Naive");
}

#[test]
fn converts_base_units_to_wei() {
    assert_eq!(
        wei_from_base_unit("123"),
        Ok(U256::from_u128(123_000_000_000_000_000_000))
    );
    assert_eq!(wei_from_base_unit("0"), Ok(U256::from_u64(0)));
    assert_eq!(wei_from_base_unit("1.5"), Err(ParseAmountError::Invalid));
    assert_eq!(wei_from_base_unit("abc"), Err(ParseAmountError::Invalid));
    // 2^200 units fit in 256 bits, but not once scaled by 10^18.
    assert_eq!(
        wei_from_base_unit("1606938044258990275541962092341162602522202993782792835301376"),
        Err(ParseAmountError::TooLarge)
    );
    assert_eq!(
        wei_from_base_unit(
            "115792089237316195423570985008687907853269984665640564039457584007913129639936"
        ),
        Err(ParseAmountError::Invalid)
    );
}
