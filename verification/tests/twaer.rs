use aum_oracle::decimal::{Decimal, Int256Parts};
use aum_oracle::twaer::{
    calc_exchange_rate, check_recorder, execute_update_config, Config, ContractError, GetTwaerResponse, TwaerState,
    UpdateConfig,
};

fn ratio(n: u128, d: u128) -> Decimal {
    Decimal::checked_from_ratio(n, d).unwrap()
}

fn config(twa_window_seconds: u64) -> Config {
    Config {
        recorder: "recorder".to_string(),
        publisher: "publisher".to_string(),
        aum_oracles: vec!["oracle1".to_string()],
        maxbtc_core_contract: "core".to_string(),
        twa_window_seconds,
        twaer_immutability_seconds: 0,
    }
}

// Records the rate `aum / supply` at time `t`.
fn record_er(state: &mut TwaerState, window: u64, supply: u128, aum: i128, t: u64) {
    let rate = calc_exchange_rate(supply, Int256Parts::from_i128(aum)).unwrap();
    state.record_er_at(rate, t, window).unwrap();
}

#[test]
fn test_record_er() {
    let mut state = TwaerState::new();
    record_er(&mut state, 86400, 500000, 1000000, 1000000);
    assert_eq!(state.history.len(), 1);
    assert_eq!(state.history[0], (1000000, ratio(2, 1)));
}

#[test]
fn test_query_twaer_no_data() {
    let state = TwaerState::new();
    assert_eq!(state.query_get_twaer(), Err(ContractError::TwaerNotCalculated {}));
}

#[test]
fn test_record_er_cleanup() {
    let mut state = TwaerState::new();
    record_er(&mut state, 86400, 500000, 1000000, 1000000);
    record_er(&mut state, 86400, 500000, 1000000, 1000000 + 86401);
    assert_eq!(state.history.len(), 1);
}

#[test]
fn test_twaer_long_time_period() {
    let window = 3600;
    let mut state = TwaerState::new();
    let base_time = 1000000u64;

    record_er(&mut state, window, 1000000, 2000000, base_time);
    assert_eq!(state.calculate_twaer(base_time).unwrap(), ratio(2, 1));

    record_er(&mut state, window, 1500000, 2400000, base_time + 900);
    assert_eq!(state.calculate_twaer(base_time + 900).unwrap(), ratio(2, 1));
    assert_eq!(state.calculate_twaer(base_time + 1350).unwrap(), ratio(2520, 1350));

    record_er(&mut state, window, 2000000, 2000000, base_time + 1800);
    assert_eq!(state.calculate_twaer(base_time + 1800).unwrap(), ratio(18, 10));
    assert_eq!(state.calculate_twaer(base_time + 2250).unwrap(), ratio(3690, 2250));

    record_er(&mut state, window, 1800000, 1800000, base_time + 2700);
    assert_eq!(state.calculate_twaer(base_time + 2700).unwrap(), ratio(4140, 2700));

    let now = base_time + 3600;
    assert_eq!(state.history.len(), 4);
    let predicted_twa = state.calculate_twaer(now).unwrap();
    assert_eq!(predicted_twa, ratio(14, 10));

    let published = state.publish_twaer(&config(window), &"owner".to_string(), true, now).unwrap();
    assert_eq!(published, predicted_twa);
    assert_eq!(state.query_get_twaer(), Ok(GetTwaerResponse { twaer: predicted_twa, published_at: now }));

    let rates: Vec<Decimal> = state.history.iter().map(|(_, r)| *r).collect();
    assert_eq!(rates, vec![ratio(2, 1), ratio(8, 5), ratio(1, 1), ratio(1, 1)]);

    record_er(&mut state, window, 1800000, 1800000, base_time + 7200);
    assert_eq!(state.history.len(), 1);
    assert_eq!(state.calculate_twaer(base_time + 7200).unwrap(), Decimal::one());
}

#[test]
fn test_twaer_complex_intertwining_expiration() {
    let window = 1800;
    let mut state = TwaerState::new();
    let base_time = 2000000u64;

    record_er(&mut state, window, 1000000, 3000000, base_time);
    assert_eq!(state.calculate_twaer(base_time).unwrap(), ratio(3, 1));

    record_er(&mut state, window, 1200000, 3000000, base_time + 300);
    assert_eq!(state.calculate_twaer(base_time + 300).unwrap(), ratio(3, 1));

    record_er(&mut state, window, 1500000, 3000000, base_time + 600);
    assert_eq!(state.calculate_twaer(base_time + 600).unwrap(), ratio(275, 100));
    assert_eq!(state.history.len(), 3);

    record_er(&mut state, window, 2000000, 3000000, base_time + 1200);
    assert_eq!(state.calculate_twaer(base_time + 1200).unwrap(), ratio(2375, 1000));
    assert_eq!(state.history.len(), 4);

    record_er(&mut state, window, 3000000, 3000000, base_time + 1900);
    assert_eq!(state.calculate_twaer(base_time + 1900).unwrap(), ratio(1875, 1000));
    assert_eq!(state.history.len(), 4);

    record_er(&mut state, window, 3750000, 3000000, base_time + 2200);
    assert_eq!(state.calculate_twaer(base_time + 2200).unwrap(), ratio(159375, 100000));
    assert_eq!(state.history.len(), 4);

    record_er(&mut state, window, 5000000, 3000000, base_time + 2500);
    assert_eq!(state.calculate_twaer(base_time + 2500).unwrap(), ratio(1590, 1300));
    assert_eq!(state.history.len(), 4);

    record_er(&mut state, window, 7500000, 3000000, base_time + 4000);
    assert_eq!(state.calculate_twaer(base_time + 4000).unwrap(), ratio(1140, 1800));
    assert_eq!(state.history.len(), 3);

    record_er(&mut state, window, 5000000, 2500000, base_time + 6000);
    assert_eq!(state.calculate_twaer(base_time + 6000).unwrap(), ratio(1, 2));
    assert_eq!(state.history.len(), 1);
}

#[test]
fn twaer_update_config_by_owner() {
    let u = UpdateConfig {
        publisher: Some("new_publisher".to_string()),
        recorder: None,
        aum_oracles: Some(vec!["oracle1".to_string(), "oracle2".to_string()]),
        maxbtc_core_contract: None,
        twa_window_seconds: Some(172800),
        twaer_immutability_seconds: None,
    };
    let c = execute_update_config(config(86400), true, u).unwrap();
    assert_eq!(c.publisher, "new_publisher");
    assert_eq!(c.recorder, "recorder");
    assert_eq!(c.aum_oracles, vec!["oracle1".to_string(), "oracle2".to_string()]);
    assert_eq!(c.twa_window_seconds, 172800);
}

#[test]
fn twaer_update_config_by_stranger() {
    let u = UpdateConfig {
        publisher: None,
        recorder: None,
        aum_oracles: None,
        maxbtc_core_contract: None,
        twa_window_seconds: Some(1),
        twaer_immutability_seconds: None,
    };
    assert!(matches!(execute_update_config(config(86400), false, u), Err(ContractError::Std { .. })));
}

#[test]
fn only_the_recorder_or_owner_records() {
    let c = config(86400);
    assert_eq!(check_recorder(&c, &"recorder".to_string(), false), Ok(()));
    assert_eq!(check_recorder(&c, &"owner".to_string(), true), Ok(()));
    assert_eq!(check_recorder(&c, &"publisher".to_string(), false), Err(ContractError::Unauthorized {}));
}

#[test]
fn publication_waits_for_the_immutability_period() {
    let mut c = config(3600);
    c.twaer_immutability_seconds = 100;
    let mut state = TwaerState::new();
    record_er(&mut state, 3600, 1000000, 2000000, 10_000);
    assert_eq!(state.publish_twaer(&c, &"publisher".to_string(), false, 10_000).unwrap(), ratio(2, 1));
    assert_eq!(
        state.publish_twaer(&c, &"publisher".to_string(), false, 10_050),
        Err(ContractError::PublicationToSoon { next_pub_time: 10_100 })
    );
    assert_eq!(
        state.publish_twaer(&c, &"stranger".to_string(), false, 20_000),
        Err(ContractError::Unauthorized {})
    );
}

#[test]
fn a_second_record_at_the_same_time_is_refused() {
    let mut state = TwaerState::new();
    record_er(&mut state, 3600, 1000000, 2000000, 10_000);
    let rate = calc_exchange_rate(1000000, Int256Parts::from_i128(3000000)).unwrap();
    assert_eq!(state.record_er_at(rate, 10_000, 3600), Err(ContractError::DuplicateDataPoint { timestamp: 10_000 }));
}

#[test]
fn exchange_rate_edge_cases() {
    assert_eq!(calc_exchange_rate(0, Int256Parts::from_i128(5)), Ok(Decimal::one()));
    assert_eq!(
        calc_exchange_rate(10, Int256Parts::from_i128(-5)),
        Err(ContractError::ConversionError { aum: Int256Parts::from_i128(-5) })
    );
    // An AUM beyond the unsigned 128-bit range cannot be converted either.
    let big = Int256Parts { hi: 1, lo: 0 };
    assert_eq!(calc_exchange_rate(10, big), Err(ContractError::ConversionError { aum: big }));
}

#[test]
fn a_duplicate_record_before_the_first_window_ends_is_refused() {
    let mut state = TwaerState::new();
    record_er(&mut state, 3600, 1000000, 2000000, 100);
    let rate = calc_exchange_rate(1000000, Int256Parts::from_i128(3000000)).unwrap();
    assert_eq!(state.record_er_at(rate, 100, 3600), Err(ContractError::DuplicateDataPoint { timestamp: 100 }));
    assert_eq!(state.history.len(), 1);
}
