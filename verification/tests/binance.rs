use aum_oracle::binance::{
    binance_aum_in_wbtc, check_data_fresh, execute_publish_data, execute_update_config, spot_balance_asset_in_btc,
    total_spot_in_btc, BinanceData, Config, ContractError, Position, SpotBalance, UpdateConfig,
};
use aum_oracle::consensus::{Config as ConsensusConfig, ConsensusData, ConsensusError, State};
use aum_oracle::decimal::{Int256Parts, SignedDecimal256};

fn ratio(n: i128, d: i128) -> SignedDecimal256 {
    SignedDecimal256::checked_from_ratio(n, d).unwrap()
}

fn create_test_consensus_config() -> ConsensusConfig {
    ConsensusConfig {
        messengers: vec!["oracle1".to_string(), "oracle2".to_string(), "oracle3".to_string()],
        threshold: 2,
        data_delta_ppm: 10000,
        round_length: 3600,
    }
}

fn create_test_contract_config() -> Config {
    Config {
        owner: "admin".to_string(),
        price_oracle_contract: "price_oracle_contract".to_string(),
        consensus_data_valid_period: 100,
        price_data_valid_period: 100,
        required_binance_positions: vec!["BTCUSDT".to_string()],
        required_binance_spot_assets: vec!["BTC".to_string(), "USDT".to_string()],
    }
}

fn create_test_data(
    unimmr: SignedDecimal256,
    um_balance: SignedDecimal256,
    pm_equity: SignedDecimal256,
    withdrawable: SignedDecimal256,
) -> BinanceData {
    BinanceData {
        unimmr,
        positions: vec![Position { symbol: "BTCUSDT".to_string(), amount: ratio(1, 1), pnl: ratio(100, 1) }],
        um_balance_usdt: um_balance,
        spot_balances: vec![
            SpotBalance { asset: "BTC".to_string(), amount: ratio(1, 1) },
            SpotBalance { asset: "USDT".to_string(), amount: ratio(10000, 1) },
        ],
        pm_account_actual_equity: pm_equity,
        withdrawable_usdt: withdrawable,
    }
}

#[test]
fn tests_test_try_consensus() {
    let config = create_test_consensus_config();
    let t = config.threshold as usize;
    let d = config.data_delta_ppm;

    let empty_data: Vec<BinanceData> = vec![];
    assert!(BinanceData::try_consensus(&empty_data, t, d).is_none());

    let single = vec![create_test_data(ratio(5, 10), ratio(1000, 1), ratio(2000, 1), ratio(500, 1))];
    assert!(BinanceData::try_consensus(&single, t, d).is_none());

    let data = vec![
        create_test_data(ratio(5, 10), ratio(1000, 1), ratio(2000, 1), ratio(500, 1)),
        create_test_data(ratio(505, 1000), ratio(1005, 1), ratio(2010, 1), ratio(505, 1)),
    ];
    let result = BinanceData::try_consensus(&data, t, d).unwrap();
    assert_eq!(result.unimmr, ratio(5025, 10000));
    assert_eq!(result.um_balance_usdt, ratio(10025, 10));
    assert_eq!(result.pm_account_actual_equity, ratio(2005, 1));
    assert_eq!(result.withdrawable_usdt, ratio(5025, 10));
    assert_eq!(result.positions[0].amount, ratio(1, 1));
    assert_eq!(result.spot_balances[1].amount, ratio(10000, 1));

    let data_divergent = vec![
        create_test_data(ratio(5, 10), ratio(1000, 1), ratio(2000, 1), ratio(500, 1)),
        create_test_data(ratio(51, 100), ratio(1020, 1), ratio(2050, 1), ratio(510, 1)),
    ];
    assert!(BinanceData::try_consensus(&data_divergent, t, 1000).is_none());

    let data_multiple = vec![
        create_test_data(ratio(5, 10), ratio(1000, 1), ratio(2000, 1), ratio(500, 1)),
        create_test_data(ratio(505, 1000), ratio(1005, 1), ratio(2010, 1), ratio(505, 1)),
        create_test_data(ratio(503, 1000), ratio(1003, 1), ratio(2005, 1), ratio(503, 1)),
    ];
    let result = BinanceData::try_consensus(&data_multiple, t, d).unwrap();
    assert_eq!(result.unimmr, ratio(503, 1000));
    assert_eq!(result.um_balance_usdt, ratio(1003, 1));
    assert_eq!(result.pm_account_actual_equity, ratio(2005, 1));
    assert_eq!(result.withdrawable_usdt, ratio(503, 1));

    let data_with_outliers = vec![
        create_test_data(ratio(5, 10), ratio(1000, 1), ratio(2000, 1), ratio(500, 1)),
        create_test_data(ratio(505, 1000), ratio(1005, 1), ratio(2010, 1), ratio(505, 1)),
        create_test_data(ratio(6, 10), ratio(1200, 1), ratio(2500, 1), ratio(600, 1)),
    ];
    let result = BinanceData::try_consensus(&data_with_outliers, t, d).unwrap();
    assert_eq!(result.unimmr, ratio(5025, 10000));
}

#[test]
fn test_query_get_aum_basic() {
    // 80000 USD of equity at 100000 USD per BTC, and spot balances of 2.5 BTC,
    // 20 ETH at 50 ETH per BTC and 10000 USDT at 100000 USDT per BTC.
    let data = BinanceData {
        unimmr: ratio(1, 10),
        positions: vec![Position { symbol: "BTCUSDT".to_string(), amount: ratio(15, 10), pnl: ratio(1000, 1) }],
        um_balance_usdt: ratio(5000, 1),
        spot_balances: vec![
            SpotBalance { asset: "BTC".to_string(), amount: ratio(25, 10) },
            SpotBalance { asset: "ETH".to_string(), amount: ratio(20, 1) },
            SpotBalance { asset: "USDT".to_string(), amount: ratio(10000, 1) },
        ],
        pm_account_actual_equity: ratio(80000, 1),
        withdrawable_usdt: ratio(3000, 1),
    };
    let current_time = 1700000000;
    assert_eq!(check_data_fresh(current_time, 3600, current_time + 1800), Ok(()));
    let prices = [ratio(1, 1), ratio(50, 1), ratio(100000, 1)];
    let spot: Vec<SignedDecimal256> = data
        .spot_balances
        .iter()
        .zip(prices.iter())
        .map(|(sb, p)| spot_balance_asset_in_btc(sb, *p).unwrap())
        .collect();
    let total = total_spot_in_btc(&spot).unwrap();
    assert_eq!(total, ratio(3, 1));
    let aum = binance_aum_in_wbtc(data.pm_account_actual_equity, ratio(100000, 1), total);
    assert_eq!(aum, Int256Parts::from_i128(380000000));
}

#[test]
fn test_query_get_aum_with_expired_data() {
    let current_time = 1700000000;
    assert_eq!(check_data_fresh(0, 3600, current_time + 7200), Err(ContractError::PublishedDataTooOld {}));
}

#[test]
fn test_query_get_aum_with_negative_equity() {
    let eth = SpotBalance { asset: "ETH".to_string(), amount: ratio(10, 1) };
    let spot = vec![spot_balance_asset_in_btc(&eth, ratio(20, 1)).unwrap()];
    let total = total_spot_in_btc(&spot).unwrap();
    assert_eq!(binance_aum_in_wbtc(ratio(-20000, 1), ratio(40000, 1), total), Int256Parts::from_i128(0));
}

fn empty_update() -> UpdateConfig {
    UpdateConfig {
        owner: None,
        consensus_data_valid_period: None,
        price_data_valid_period: None,
        required_binance_positions: None,
        required_binance_spot_assets: None,
        price_oracle_contract: None,
        messengers: None,
        threshold: None,
        data_delta_ppm: None,
        round_length: None,
    }
}

#[test]
fn test_execute_update_config_admin_only() {
    let mut u = empty_update();
    u.owner = Some("new_admin_attempt".to_string());
    let err = execute_update_config(
        create_test_contract_config(),
        create_test_consensus_config(),
        &"non_admin".to_string(),
        u,
    )
    .unwrap_err();
    assert_eq!(err, ContractError::Unauthorized {});

    let u = UpdateConfig {
        owner: Some("new_admin".to_string()),
        consensus_data_valid_period: Some(7200),
        price_data_valid_period: Some(200),
        required_binance_positions: Some(vec!["ETHUSDT".to_string()]),
        required_binance_spot_assets: Some(vec!["ETH".to_string(), "USDT".to_string()]),
        price_oracle_contract: Some("price_oracle".to_string()),
        messengers: Some(vec!["oracle1".to_string(), "oracle2".to_string()]),
        threshold: Some(1),
        data_delta_ppm: Some(5000),
        round_length: Some(1800),
    };
    let (c, cc) =
        execute_update_config(create_test_contract_config(), create_test_consensus_config(), &"admin".to_string(), u)
            .unwrap();
    assert_eq!(c.owner, "new_admin");
    assert_eq!(c.consensus_data_valid_period, 7200);
    assert_eq!(c.price_data_valid_period, 200);
    assert_eq!(c.required_binance_positions, vec!["ETHUSDT".to_string()]);
    assert_eq!(c.required_binance_spot_assets, vec!["ETH".to_string(), "USDT".to_string()]);
    assert_eq!(c.price_oracle_contract, "price_oracle");
    assert_eq!(cc.messengers, vec!["oracle1".to_string(), "oracle2".to_string()]);
    assert_eq!(cc.threshold, 1);
    assert_eq!(cc.data_delta_ppm, 5000);
    assert_eq!(cc.round_length, 1800);
}

#[test]
fn test_execute_update_config_partial_updates() {
    let mut u = empty_update();
    u.consensus_data_valid_period = Some(3600);
    u.price_data_valid_period = Some(150);
    let (c, cc) =
        execute_update_config(create_test_contract_config(), create_test_consensus_config(), &"admin".to_string(), u)
            .unwrap();
    assert_eq!(c.owner, "admin");
    assert_eq!(c.consensus_data_valid_period, 3600);
    assert_eq!(c.price_data_valid_period, 150);
    assert_eq!(c.required_binance_positions, vec!["BTCUSDT".to_string()]);
    assert_eq!(c.required_binance_spot_assets, vec!["BTC".to_string(), "USDT".to_string()]);
    assert_eq!(cc, create_test_consensus_config());
}

#[test]
fn test_execute_update_config_empty_update() {
    let (c, cc) = execute_update_config(
        create_test_contract_config(),
        create_test_consensus_config(),
        &"admin".to_string(),
        empty_update(),
    )
    .unwrap();
    assert_eq!(c, create_test_contract_config());
    assert_eq!(cc, create_test_consensus_config());
}

#[test]
fn test_oracle_cannot_publish_twice_for_same_round() {
    let mut state: State<BinanceData, Config> = State::initialize(1000, create_test_consensus_config());
    let d = create_test_data(ratio(5, 10), ratio(1000, 1), ratio(2000, 1), ratio(500, 1));
    execute_publish_data(&mut state, create_test_contract_config(), 1000, "oracle1".to_string(), d.clone()).unwrap();
    assert_eq!(
        execute_publish_data(&mut state, create_test_contract_config(), 1000, "oracle1".to_string(), d.clone())
            .unwrap_err(),
        ContractError::ConsensusError(ConsensusError::DoubleSubmission {})
    );
    assert_eq!(
        execute_publish_data(&mut state, create_test_contract_config(), 1000, "stranger".to_string(), d).unwrap_err(),
        ContractError::Unauthorized {}
    );
}

#[test]
fn data_missing_a_required_position_is_refused() {
    let mut d = create_test_data(ratio(5, 10), ratio(1000, 1), ratio(2000, 1), ratio(500, 1));
    d.positions.clear();
    let r = d.clean_and_validate(vec!["BTCUSDT".to_string()], vec![]);
    assert!(matches!(r, Err(ContractError::Std { .. })));
}

#[test]
fn a_zero_price_fails_the_spot_conversion() {
    let btc = SpotBalance { asset: "BTC".to_string(), amount: ratio(1, 1) };
    assert_eq!(spot_balance_asset_in_btc(&btc, SignedDecimal256::zero()), Err(ContractError::CheckedDiv {}));
}

fn state_at_round_one(threshold: u32) -> State<BinanceData, Config> {
    let mut consensus_config = create_test_consensus_config();
    consensus_config.threshold = threshold;
    let mut state = State::initialize(1000, consensus_config);
    state.pending_round = aum_oracle::consensus::Round { round: 1, start: 1000 };
    state
}

fn publish(
    state: &mut State<BinanceData, Config>,
    now: u64,
    oracle: &str,
    data: BinanceData,
) -> (bool, aum_oracle::consensus::Round) {
    let (result, round) =
        execute_publish_data(state, create_test_contract_config(), now, oracle.to_string(), data).unwrap();
    (matches!(result, aum_oracle::consensus::PublishResult::ConsensusReached(_)), round)
}

#[test]
fn test_all_oracles_consensus_round_not_increased() {
    let mut state = state_at_round_one(2);
    let (reached, _) = publish(&mut state, 1000, "oracle1", create_test_data(ratio(5, 10), ratio(1000, 1), ratio(2000, 1), ratio(500, 1)));
    assert!(!reached);
    publish(&mut state, 1000, "oracle2", create_test_data(ratio(505, 1000), ratio(1005, 1), ratio(2010, 1), ratio(505, 1)));
    let (reached, round) =
        publish(&mut state, 1000, "oracle3", create_test_data(ratio(503, 1000), ratio(1003, 1), ratio(2005, 1), ratio(503, 1)));
    assert!(reached, "Consensus should be reached when all oracles submit data");
    assert_eq!(round.round, 1, "Round should not increase until time passes");
    assert_eq!(round.next_round(3600).round, 2, "Next round should be set to 2 (current round + 1)");
}

#[test]
fn test_partial_oracles_consensus_round_not_increased() {
    let mut state = state_at_round_one(2);
    let (reached, _) = publish(&mut state, 1000, "oracle1", create_test_data(ratio(5, 10), ratio(1000, 1), ratio(2000, 1), ratio(500, 1)));
    assert!(!reached, "No consensus should be reached with only one oracle");
    let (reached, _) = publish(&mut state, 1000, "oracle2", create_test_data(ratio(505, 1000), ratio(1005, 1), ratio(2010, 1), ratio(505, 1)));
    assert!(!reached, "No consensus should be reached with only threshold oracles");
    let (reached, round) =
        publish(&mut state, 1000, "oracle3", create_test_data(ratio(503, 1000), ratio(1003, 1), ratio(2005, 1), ratio(503, 1)));
    assert!(reached, "Consensus should be reached when all oracles submit data");
    assert_eq!(round.round, 1);
    assert_eq!(round.next_round(3600).round, 2);
}

#[test]
fn test_no_consensus_when_threshold_not_met_and_round_passed() {
    let mut state = state_at_round_one(2);
    let (reached, _) = publish(&mut state, 1000, "oracle1", create_test_data(ratio(5, 10), ratio(1000, 1), ratio(2000, 1), ratio(500, 1)));
    assert!(!reached);
    let (reached, round) = publish(
        &mut state,
        1000 + 3600 + 1,
        "oracle2",
        create_test_data(ratio(51, 100), ratio(1010, 1), ratio(2020, 1), ratio(510, 1)),
    );
    assert_eq!(round.round, 2, "Round should increase after time passes");
    assert!(!reached, "No consensus should be reached yet for the new round");
    assert!(state.last_published_data.is_none());
}

fn prepublish_message(r: Result<(aum_oracle::consensus::PublishResult<BinanceData>, aum_oracle::consensus::Round), ContractError>) -> String {
    match r {
        Err(ContractError::ConsensusError(ConsensusError::PrepublishError { msg })) => msg,
        other => panic!("unexpected {:?}", other),
    }
}

#[test]
fn test_execute_publish_data() {
    let mut state = state_at_round_one(2);
    let config = create_test_contract_config();
    let test_data = create_test_data(ratio(5, 10), ratio(1000, 1), ratio(2000, 1), ratio(500, 1));

    let r = execute_publish_data(&mut state, config.clone(), 1000, "unauthorized".to_string(), test_data.clone());
    assert_eq!(r.unwrap_err(), ContractError::Unauthorized {});

    let mut invalid_positions_data = test_data.clone();
    invalid_positions_data.positions = vec![
        Position { symbol: "WRONG_SYMBOL".to_string(), amount: ratio(1, 1), pnl: ratio(100, 1) },
        Position { symbol: "ANOTHER_WRONG_SYMBOL".to_string(), amount: ratio(1, 1), pnl: ratio(100, 1) },
    ];
    let r = execute_publish_data(&mut state, config.clone(), 1000, "oracle1".to_string(), invalid_positions_data);
    assert_eq!(prepublish_message(r), "Binance positions do not match required positions");

    let mut invalid_spot_balances_data = test_data.clone();
    invalid_spot_balances_data.spot_balances = vec![
        SpotBalance { asset: "WRONG_ASSET".to_string(), amount: ratio(1, 1) },
        SpotBalance { asset: "ANOTHER_WRONG_ASSET".to_string(), amount: ratio(10000, 1) },
    ];
    let r = execute_publish_data(&mut state, config.clone(), 1000, "oracle1".to_string(), invalid_spot_balances_data);
    assert_eq!(prepublish_message(r), "Binance spot assets do not match required spot assets");

    assert!(execute_publish_data(&mut state, config.clone(), 1000, "oracle1".to_string(), test_data.clone()).is_ok());

    let mut test_data2 = create_test_data(ratio(505, 1000), ratio(1005, 1), ratio(2010, 1), ratio(505, 1));
    test_data2.positions.append(&mut vec![
        Position { symbol: "WRONG_SYMBOL".to_string(), amount: ratio(1, 1), pnl: ratio(100, 1) },
        Position { symbol: "ANOTHER_WRONG_SYMBOL".to_string(), amount: ratio(1, 1), pnl: ratio(100, 1) },
    ]);
    test_data2.spot_balances.append(&mut vec![
        SpotBalance { asset: "WRONG_ASSET".to_string(), amount: ratio(1, 1) },
        SpotBalance { asset: "ANOTHER_WRONG_ASSET".to_string(), amount: ratio(10000, 1) },
    ]);
    assert!(execute_publish_data(&mut state, config.clone(), 1000, "oracle2".to_string(), test_data2).is_ok());

    let test_data3 = create_test_data(ratio(503, 1000), ratio(1003, 1), ratio(2005, 1), ratio(503, 1));
    let (result, round) =
        execute_publish_data(&mut state, config.clone(), 1000, "oracle3".to_string(), test_data3).unwrap();
    assert!(matches!(result, aum_oracle::consensus::PublishResult::ConsensusReached(_)));
    assert_eq!(round.round, 1);

    let new_round_data = create_test_data(ratio(51, 100), ratio(1010, 1), ratio(2020, 1), ratio(510, 1));
    let (_, round) =
        execute_publish_data(&mut state, config, 1000 + 3600 + 1, "oracle2".to_string(), new_round_data).unwrap();
    assert_eq!(round.round, 2);
}

#[test]
fn test_query_get_aum_with_large_values() {
    // 40M USD of equity at 100000 USD per BTC (400 BTC), 1000 BTC and 20000 ETH at
    // 40 ETH per BTC (500 BTC): 1900 BTC.
    let spot_balances = vec![
        SpotBalance { asset: "BTC".to_string(), amount: ratio(1000, 1) },
        SpotBalance { asset: "ETH".to_string(), amount: ratio(20000, 1) },
    ];
    let prices = [ratio(1, 1), ratio(40, 1)];
    let spot: Vec<SignedDecimal256> = spot_balances
        .iter()
        .zip(prices.iter())
        .map(|(sb, p)| spot_balance_asset_in_btc(sb, *p).unwrap())
        .collect();
    let total = total_spot_in_btc(&spot).unwrap();
    assert_eq!(total, ratio(1500, 1));
    assert_eq!(binance_aum_in_wbtc(ratio(40000000, 1), ratio(100000, 1), total), Int256Parts::from_i128(190000000000));
}

fn last_round(state: &State<BinanceData, Config>, now: u64) -> Option<u64> {
    state.get_last_published_data(now).map(|o| o.round)
}

#[test]
fn test_execute_publish_data_time_based_consensus() {
    let mut state = state_at_round_one(2);
    let d = || create_test_data(ratio(5, 10), ratio(1000, 1), ratio(2000, 1), ratio(500, 1));
    let (reached, _) = publish(&mut state, 1000, "oracle1", d());
    assert!(!reached);
    let (reached, _) = publish(&mut state, 1000, "oracle2", d());
    assert!(!reached);
    let (reached, _) = publish(&mut state, 1000, "oracle3", d());
    assert!(reached);
}

#[test]
fn test_oracles_submitting_across_multiple_rounds() {
    let start = 1000;
    let len = 3600;
    let mut state = state_at_round_one(2);
    assert_eq!(last_round(&state, start), None);
    publish(&mut state, start, "oracle1", create_test_data(ratio(5, 10), ratio(1000, 1), ratio(2000, 1), ratio(500, 1)));
    assert_eq!(last_round(&state, start), None);
    publish(&mut state, start, "oracle2", create_test_data(ratio(505, 1000), ratio(1005, 1), ratio(2010, 1), ratio(505, 1)));
    assert_eq!(last_round(&state, start), None);
    publish(&mut state, start, "oracle3", create_test_data(ratio(503, 1000), ratio(1003, 1), ratio(2005, 1), ratio(503, 1)));
    assert_eq!(last_round(&state, start), Some(1));
    let (_, round) =
        publish(&mut state, start + len + 1, "oracle2", create_test_data(ratio(505, 1000), ratio(1005, 1), ratio(2010, 1), ratio(505, 1)));
    assert_eq!(round.round, 2);
    let now = start + 2 * len + 1;
    let (_, round) = publish(&mut state, now, "oracle1", create_test_data(ratio(504, 1000), ratio(1004, 1), ratio(2008, 1), ratio(504, 1)));
    assert_eq!(round.round, 3);
    publish(&mut state, now, "oracle2", create_test_data(ratio(504, 1000), ratio(1004, 1), ratio(2008, 1), ratio(504, 1)));
    assert_eq!(last_round(&state, now), Some(1));
    let now = start + 3 * len + 1;
    assert_eq!(last_round(&state, now), Some(3));
    let (_, round) = publish(&mut state, now, "oracle3", create_test_data(ratio(51, 100), ratio(1010, 1), ratio(2020, 1), ratio(510, 1)));
    assert_eq!(round.round, 4);
    let now = start + 4 * len + 1;
    assert_eq!(last_round(&state, now), Some(3));
    let (_, round) = publish(&mut state, now, "oracle3", create_test_data(ratio(50, 100), ratio(1000, 1), ratio(2000, 1), ratio(500, 1)));
    assert_eq!(round.round, 5);
}

#[test]
fn test_delayed_oracle_submissions_within_round() {
    let start = 1000;
    let len = 3600;
    let mut state = state_at_round_one(2);
    publish(&mut state, start, "oracle1", create_test_data(ratio(5, 10), ratio(1000, 1), ratio(2000, 1), ratio(500, 1)));
    let (_, round) =
        publish(&mut state, start + len / 2, "oracle2", create_test_data(ratio(505, 1000), ratio(1005, 1), ratio(2010, 1), ratio(505, 1)));
    assert_eq!(round.round, 1);
    let (reached, round) =
        publish(&mut state, start + len - 10, "oracle3", create_test_data(ratio(503, 1000), ratio(1003, 1), ratio(2005, 1), ratio(503, 1)));
    assert!(reached);
    assert_eq!(round.round, 1);
}
