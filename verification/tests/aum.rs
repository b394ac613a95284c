use aum_oracle::aum::{
    calc_exchange_rate, calculate_twa_exchange_rate, execute_update_config, get_aum, points_in_window,
    query_get_data_point_count, query_get_historical_data, AumState, Config, ContractError, ExchangeRateDataPoint,
    UpdateConfig,
};
use aum_oracle::decimal::Decimal;

fn ratio(n: u128, d: u128) -> Decimal {
    Decimal::checked_from_ratio(n, d).unwrap()
}

fn default_config() -> Config {
    Config {
        owner: "owner".to_string(),
        oracles: vec!["oracle1".to_string()],
        maxbtc_denom: "factory/neutron1/maxbtc".to_string(),
        twa_window_seconds: 86400,
    }
}

fn assert_config_equals(config: &Config, owner: &str, oracles: &[&str], twa_window_seconds: u64) {
    assert_eq!(config.owner, owner);
    assert_eq!(config.oracles, oracles.iter().map(|o| o.to_string()).collect::<Vec<_>>());
    assert_eq!(config.twa_window_seconds, twa_window_seconds);
}

// Stores the instant rate `aum / supply` at time `t`, as the owner.
fn store_instant_rate(state: &mut AumState, config: &Config, aum: u128, supply: u128, t: u64, height: u64) {
    let rate = calc_exchange_rate(aum, supply);
    state.store_instant_exchange_rate(config, &"owner".to_string(), rate, t, height).unwrap();
}

#[test]
fn update_config_by_owner() {
    let config = default_config();
    let new_config = UpdateConfig {
        owner: Some("new_owner".to_string()),
        oracles: Some(vec!["oracle1".to_string(), "oracle2".to_string()]),
        twa_window_seconds: Some(172800),
    };
    let config = execute_update_config(config, &"owner".to_string(), new_config).unwrap();
    assert_config_equals(&config, "new_owner", &["oracle1", "oracle2"], 172800);
}

#[test]
fn update_config_by_unauthorized() {
    let config = default_config();
    let new_config = UpdateConfig { owner: Some("new_owner".to_string()), oracles: None, twa_window_seconds: None };
    let err = execute_update_config(config.clone(), &"oracle1".to_string(), new_config).unwrap_err();
    assert_eq!(err, ContractError::Unauthorized {});
    assert_config_equals(&config, "owner", &["oracle1"], 86400);
}

#[test]
fn update_config_partial() {
    let config = default_config();
    let new_config = UpdateConfig { owner: Some("new_owner".to_string()), oracles: None, twa_window_seconds: None };
    let config = execute_update_config(config, &"owner".to_string(), new_config).unwrap();
    assert_config_equals(&config, "new_owner", &["oracle1"], 86400);
}

#[test]
fn query_aum_single_oracle() {
    assert_eq!(get_aum(&[1000000u128]), 1000000u128);
}

#[test]
fn query_aum_multiple_oracles() {
    assert_eq!(get_aum(&[1000000u128, 2000000u128]), 3000000u128);
}

#[test]
fn test_store_instant_exchange_rate() {
    let config = default_config();
    let mut state = AumState::new();
    store_instant_rate(&mut state, &config, 1000000, 500000, 1000000, 100);
    let count = query_get_data_point_count(&state.history, 1000000, config.twa_window_seconds);
    assert_eq!(count, 1);
    assert_eq!(state.history[0].rate, ratio(2, 1));
}

#[test]
fn test_twa_exchange_rate_no_data() {
    let state = AumState::new();
    let err = state.query_get_twa_exchange_rate().unwrap_err();
    assert!(matches!(err, ContractError::Std { .. }));
}

#[test]
fn test_twa_data_cleanup() {
    let config = default_config();
    let mut state = AumState::new();
    store_instant_rate(&mut state, &config, 1000000, 500000, 1000000, 100);
    store_instant_rate(&mut state, &config, 1000000, 500000, 1000000 + 86401, 101);
    let count = query_get_data_point_count(&state.history, 1000000 + 86401, config.twa_window_seconds);
    assert_eq!(count, 1);
}

#[test]
fn test_twa_exchange_rate_long_time_period() {
    let mut config = default_config();
    config.twa_window_seconds = 3600;
    let mut state = AumState::new();
    let base_time = 1000000u64;

    store_instant_rate(&mut state, &config, 2000000, 1000000, base_time, 100);
    store_instant_rate(&mut state, &config, 2400000, 1500000, base_time + 900, 101);
    store_instant_rate(&mut state, &config, 2000000, 2000000, base_time + 1800, 102);
    store_instant_rate(&mut state, &config, 1800000, 1800000, base_time + 2700, 103);

    let now = base_time + 3600;
    assert_eq!(query_get_data_point_count(&state.history, now, config.twa_window_seconds), 4);

    let predicted_twa = calculate_twa_exchange_rate(&state.history, now, config.twa_window_seconds).unwrap().unwrap();
    assert_eq!(predicted_twa, ratio(14, 10));

    let updated = state.update_twa_exchange_rate(&config, &"owner".to_string(), now).unwrap();
    assert_eq!(updated, Some(predicted_twa));
    let stored_twa = state.query_get_twa_exchange_rate().unwrap();
    assert_eq!(predicted_twa, stored_twa);

    let data_points = &state.history;
    assert_eq!(data_points.len(), 4);
    assert_eq!(data_points[0].rate, ratio(2, 1));
    assert_eq!(data_points[1].rate, ratio(8, 5));
    assert_eq!(data_points[2].rate, ratio(1, 1));
    assert_eq!(data_points[3].rate, ratio(1, 1));

    let cleanup_time = base_time + 7200;
    store_instant_rate(&mut state, &config, 1800000, 1800000, cleanup_time, 105);
    assert_eq!(query_get_data_point_count(&state.history, cleanup_time, config.twa_window_seconds), 1);
}

fn point(rate: Decimal, timestamp: u64) -> ExchangeRateDataPoint {
    ExchangeRateDataPoint { rate, timestamp, block_height: timestamp / 10 }
}

#[test]
fn twa_of_an_empty_window_is_none() {
    let history = vec![point(ratio(2, 1), 100)];
    assert_eq!(calculate_twa_exchange_rate(&history, 10_000, 100), Ok(None));
}

#[test]
fn twa_with_no_time_passed_is_the_last_rate() {
    let history = vec![point(ratio(3, 1), 500)];
    assert_eq!(calculate_twa_exchange_rate(&history, 500, 100), Ok(Some(ratio(3, 1))));
}

#[test]
fn twa_overflow_is_reported() {
    let history = vec![point(Decimal { atomics: u128::MAX / 2 }, 0)];
    assert_eq!(calculate_twa_exchange_rate(&history, 1000, 2000), Err(ContractError::Overflow {}));
}

#[test]
fn historical_data_keeps_the_last_points() {
    let history: Vec<ExchangeRateDataPoint> = (0..5u64).map(|k| point(ratio(k as u128 + 1, 1), 100 + k)).collect();
    let r = query_get_historical_data(&history, 104, 1000, Some(2));
    assert_eq!(r.total_count, 5);
    assert_eq!(r.data_points, vec![point(ratio(4, 1), 103), point(ratio(5, 1), 104)]);
    let all = query_get_historical_data(&history, 104, 1000, None);
    assert_eq!(all.data_points.len(), 5);
    let window = points_in_window(&history, 104, 2);
    assert_eq!(window.len(), 3);
}

#[test]
fn storing_at_an_existing_time_replaces_the_rate() {
    let config = default_config();
    let mut state = AumState::new();
    state.store_instant_exchange_rate(&config, &"owner".to_string(), ratio(1, 1), 1000, 1).unwrap();
    state.store_instant_exchange_rate(&config, &"owner".to_string(), ratio(2, 1), 1000, 2).unwrap();
    assert_eq!(state.history, vec![ExchangeRateDataPoint { rate: ratio(2, 1), timestamp: 1000, block_height: 2 }]);
}

#[test]
fn only_the_owner_stores_rates() {
    let config = default_config();
    let mut state = AumState::new();
    let err = state.store_instant_exchange_rate(&config, &"oracle1".to_string(), ratio(1, 1), 1000, 1).unwrap_err();
    assert_eq!(err, ContractError::Unauthorized {});
    assert!(state.history.is_empty());
    let err = state.update_twa_exchange_rate(&config, &"oracle1".to_string(), 1000).unwrap_err();
    assert_eq!(err, ContractError::Unauthorized {});
}

#[test]
fn an_empty_window_asks_for_the_instant_rate() {
    let config = default_config();
    let mut state = AumState::new();
    assert_eq!(state.update_twa_exchange_rate(&config, &"owner".to_string(), 1000), Ok(None));
    state.save_twa_exchange_rate(ratio(7, 2));
    assert_eq!(state.query_get_twa_exchange_rate(), Ok(ratio(7, 2)));
}

#[test]
fn instant_rate_is_aum_over_supply() {
    assert_eq!(calc_exchange_rate(3, 4), Decimal { atomics: 750_000_000_000_000_000 });
}
