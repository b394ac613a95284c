use aum_oracle::binance::{BinanceData, Config as BinanceConfig};
use aum_oracle::consensus::{Config, ConsensusData, ConsensusError, PublishResult, Round, State};
use aum_oracle::decimal::SignedDecimal256;
use aum_oracle::items::{all_items_equal, consensus_on_items_dec256};

fn ratio(n: i128, d: i128) -> SignedDecimal256 {
    SignedDecimal256::checked_from_ratio(n, d).unwrap()
}

// Four decimal values carried in the scalar fields of Binance data, with no
// positions or spot balances: consensus is formed on each value separately.
fn create_test_data(
    value1: SignedDecimal256,
    value2: SignedDecimal256,
    value3: SignedDecimal256,
    value4: SignedDecimal256,
) -> BinanceData {
    BinanceData {
        unimmr: value1,
        positions: vec![],
        um_balance_usdt: value2,
        spot_balances: vec![],
        pm_account_actual_equity: value3,
        withdrawable_usdt: value4,
    }
}

fn create_test_config() -> Config {
    Config {
        messengers: vec![
            "messenger1".to_string(),
            "messenger2".to_string(),
            "messenger3".to_string(),
        ],
        threshold: 2,
        data_delta_ppm: 10000,
        round_length: 3600,
    }
}

fn create_mock_config() -> BinanceConfig {
    BinanceConfig {
        owner: "owner".to_string(),
        price_oracle_contract: "oracle".to_string(),
        consensus_data_valid_period: 3600,
        price_data_valid_period: 10,
        required_binance_positions: vec![],
        required_binance_spot_assets: vec![],
    }
}

fn setup_test_state(config: &Config, round: u64, start_time: u64) -> State<BinanceData, BinanceConfig> {
    let mut state = State::initialize(start_time, config.clone());
    state.pending_round = Round { round, start: start_time };
    state
}

fn value1(d: &BinanceData) -> SignedDecimal256 {
    d.unimmr
}

#[test]
fn test_try_consensus() {
    // Empty data array should return None
    {
        let config = create_test_config();
        let empty_data: Vec<BinanceData> = vec![];
        assert!(BinanceData::try_consensus(&empty_data, config.threshold as usize, config.data_delta_ppm).is_none());
    }

    // Fewer elements than the threshold
    {
        let config = create_test_config();
        let single_data = vec![create_test_data(ratio(5, 10), ratio(1000, 1), ratio(2000, 1), ratio(500, 1))];
        assert!(BinanceData::try_consensus(&single_data, config.threshold as usize, config.data_delta_ppm).is_none());
    }

    // Data within the delta reaches consensus
    {
        let config = create_test_config();
        let data = vec![
            create_test_data(ratio(5, 10), ratio(1000, 1), ratio(2000, 1), ratio(500, 1)),
            create_test_data(ratio(505, 1000), ratio(1005, 1), ratio(2010, 1), ratio(505, 1)),
        ];
        let result = BinanceData::try_consensus(&data, config.threshold as usize, config.data_delta_ppm).unwrap();
        assert_eq!(result.unimmr, ratio(5025, 10000));
        assert_eq!(result.um_balance_usdt, ratio(10025, 10));
        assert_eq!(result.pm_account_actual_equity, ratio(2005, 1));
        assert_eq!(result.withdrawable_usdt, ratio(5025, 10));
    }

    // Data outside the delta does not
    {
        let mut config = create_test_config();
        config.data_delta_ppm = 1000;
        let data_divergent = vec![
            create_test_data(ratio(5, 10), ratio(1000, 1), ratio(2000, 1), ratio(500, 1)),
            create_test_data(ratio(51, 100), ratio(1020, 1), ratio(2050, 1), ratio(510, 1)),
        ];
        assert!(BinanceData::try_consensus(&data_divergent, config.threshold as usize, config.data_delta_ppm).is_none());
    }

    // More submissions than the threshold
    {
        let config = create_test_config();
        let data_multiple = vec![
            create_test_data(ratio(5, 10), ratio(1000, 1), ratio(2000, 1), ratio(500, 1)),
            create_test_data(ratio(505, 1000), ratio(1005, 1), ratio(2010, 1), ratio(505, 1)),
            create_test_data(ratio(503, 1000), ratio(1003, 1), ratio(2005, 1), ratio(503, 1)),
        ];
        let result =
            BinanceData::try_consensus(&data_multiple, config.threshold as usize, config.data_delta_ppm).unwrap();
        assert_eq!(result.unimmr, ratio(503, 1000));
        assert_eq!(result.um_balance_usdt, ratio(1003, 1));
        assert_eq!(result.pm_account_actual_equity, ratio(2005, 1));
        assert_eq!(result.withdrawable_usdt, ratio(503, 1));
    }

    // An outlier is left out
    {
        let config = create_test_config();
        let data_with_outliers = vec![
            create_test_data(ratio(5, 10), ratio(1000, 1), ratio(2000, 1), ratio(500, 1)),
            create_test_data(ratio(505, 1000), ratio(1005, 1), ratio(2010, 1), ratio(505, 1)),
            create_test_data(ratio(6, 10), ratio(1200, 1), ratio(2500, 1), ratio(600, 1)),
        ];
        let result =
            BinanceData::try_consensus(&data_with_outliers, config.threshold as usize, config.data_delta_ppm).unwrap();
        assert_eq!(result.unimmr, ratio(5025, 10000));
    }
}

#[test]
fn test_round_operations() {
    let start_time = 1000;
    let round_length = 3600;
    let round = Round { round: 1, start: start_time };
    assert!(!round.is_passed(start_time, round_length), "Round should not be passed at start time");
    assert!(
        !round.is_passed(start_time + round_length - 1, round_length),
        "Round should not be passed just before end time"
    );
    assert!(round.is_passed(start_time + round_length, round_length), "Round should be passed at end time");
    assert!(round.is_passed(start_time + round_length + 1, round_length), "Round should be passed after end time");

    let next_round = round.next_round(round_length);
    assert_eq!(next_round.round, 2, "Round number should be increased by 1");
    assert_eq!(next_round.start, start_time + round_length, "Start time should be increased by 1 round length");
}

#[test]
fn test_consensus_on_items() {
    struct TestCase {
        name: &'static str,
        items: Vec<SignedDecimal256>,
        threshold: usize,
        delta: u64,
        expected: Option<SignedDecimal256>,
    }

    let test_cases = vec![
        TestCase {
            name: "Empty array should return None",
            items: vec![],
            threshold: 1,
            delta: 10000,
            expected: None,
        },
        TestCase {
            name: "Array smaller than threshold should return None",
            items: vec![ratio(5, 10)],
            threshold: 2,
            delta: 0,
            expected: None,
        },
        TestCase {
            name: "Values within delta should reach consensus",
            items: vec![ratio(5, 10), ratio(505, 1000), ratio(51, 100)],
            threshold: 2,
            delta: 10000,
            expected: Some(ratio(5025, 10000)),
        },
        TestCase {
            name: "Values outside delta should not reach consensus",
            items: vec![ratio(5, 10), ratio(6, 10), ratio(45, 100)],
            threshold: 2,
            delta: 10000,
            expected: None,
        },
        TestCase {
            name: "Values that are all within delta but with zero as corner value",
            items: vec![
                ratio(0, 1),
                ratio(-9, 1),
                ratio(-8, 1),
                ratio(-7, 1),
                ratio(-6, 1),
                ratio(-5, 1),
                ratio(-4, 1),
                ratio(-3, 1),
                ratio(-2, 1),
                ratio(-1, 1),
            ],
            threshold: 7,
            delta: 1000000,
            expected: Some(ratio(-45, 10)),
        },
        TestCase {
            name: "No consensus with 10% delta and incremented numbers",
            items: (1..=10).map(|k| ratio(k, 1)).collect(),
            threshold: 7,
            delta: 100000,
            expected: None,
        },
        TestCase {
            name: "Consensus with a couple of large wrong numbers (threshold is reached)",
            items: vec![
                ratio(100000, 1),
                ratio(100000, 1),
                ratio(100000, 1),
                ratio(1, 1),
                ratio(101, 100),
                ratio(102, 100),
                ratio(103, 100),
                ratio(104, 100),
                ratio(105, 100),
                ratio(106, 100),
            ],
            threshold: 7,
            delta: 100000,
            expected: Some(ratio(103, 100)),
        },
        TestCase {
            name: "No consensus with a couple of large wrong numbers (threshold is reached not)",
            items: vec![
                ratio(100000, 1),
                ratio(100000, 1),
                ratio(100000, 1),
                ratio(100000, 1),
                ratio(1, 1),
                ratio(101, 100),
                ratio(102, 100),
                ratio(103, 100),
                ratio(104, 100),
                ratio(105, 100),
            ],
            threshold: 7,
            delta: 100000,
            expected: None,
        },
    ];

    for tc in test_cases {
        println!("Running test case: {}", tc.name);
        assert_eq!(consensus_on_items_dec256(&tc.items, tc.threshold, tc.delta), tc.expected);
    }
}

#[test]
fn test_state_publish_data() {
    let start_time = 1000;
    let config = create_test_config();
    let mut state = setup_test_state(&config, 1, start_time);
    let test_data = create_test_data(ratio(5, 10), ratio(1000, 1), ratio(2000, 1), ratio(500, 1));

    let result = state.publish_data(start_time, "messenger1".to_string(), test_data.clone(), create_mock_config());
    assert!(result.is_ok(), "Messenger should be able to publish data");

    let result = state.publish_data(start_time, "messenger1".to_string(), test_data.clone(), create_mock_config());
    assert_eq!(result.err().unwrap(), ConsensusError::DoubleSubmission {});

    let test_data2 = create_test_data(ratio(505, 1000), ratio(1005, 1), ratio(2010, 1), ratio(505, 1));
    let result = state.publish_data(start_time, "messenger2".to_string(), test_data2, create_mock_config());
    assert!(result.is_ok(), "Second messenger should be able to publish data");

    let test_data3 = create_test_data(ratio(503, 1000), ratio(1003, 1), ratio(2005, 1), ratio(503, 1));
    let result = state.publish_data(start_time, "messenger3".to_string(), test_data3, create_mock_config());
    assert!(result.is_ok(), "Third messenger should be able to publish data");

    let data = state.last_published_data.clone().expect("Consensus data should be published");
    assert_eq!(data.round, 1, "Published data should be for round 1");
    assert_eq!(data.data.unimmr, ratio(503, 1000));
    assert_eq!(data.data.um_balance_usdt, ratio(1003, 1));
    assert_eq!(data.data.pm_account_actual_equity, ratio(2005, 1));
    assert_eq!(data.data.withdrawable_usdt, ratio(503, 1));
}

#[test]
fn test_state_round_advancement() {
    let start_time = 1000;
    let config = create_test_config();
    let mut state = setup_test_state(&config, 1, start_time);

    let now = start_time + config.round_length + 1;
    let test_data = create_test_data(ratio(5, 10), ratio(1000, 1), ratio(2000, 1), ratio(500, 1));
    let result = state.publish_data(now, "messenger1".to_string(), test_data, create_mock_config());
    assert!(result.is_ok(), "Messenger should be able to publish data for the new round");
    let pending_round = state.get_pending_round();
    assert_eq!(pending_round.round, 2, "Round should have advanced");
    assert_eq!(pending_round.start, now, "Round start time should be updated");

    let now = start_time + 3 * config.round_length + 1;
    let test_data_multi = create_test_data(ratio(51, 100), ratio(1010, 1), ratio(2020, 1), ratio(510, 1));
    let result = state.publish_data(now, "messenger1".to_string(), test_data_multi, create_mock_config());
    assert!(result.is_ok(), "Messenger should be able to publish data after multiple round advances");
    let pending_round = state.get_pending_round();
    assert_eq!(pending_round.round, 3, "Round should have advanced by multiple steps");
    assert_eq!(pending_round.start, now, "Round start time should be updated");
}

#[test]
fn test_state_get_last_published_data() {
    let start_time = 1000;
    let config = create_test_config();
    let mut state = setup_test_state(&config, 1, start_time);

    assert!(state.get_last_published_data(start_time).is_none(), "No data should be published initially");

    let d1 = create_test_data(ratio(5, 10), ratio(1000, 1), ratio(2000, 1), ratio(500, 1));
    state.publish_data(start_time, "messenger1".to_string(), d1, create_mock_config()).unwrap();
    let d2 = create_test_data(ratio(505, 1000), ratio(1005, 1), ratio(2010, 1), ratio(505, 1));
    state.publish_data(start_time, "messenger2".to_string(), d2, create_mock_config()).unwrap();
    let d3 = create_test_data(ratio(503, 1000), ratio(1003, 1), ratio(2005, 1), ratio(503, 1));
    state.publish_data(start_time, "messenger3".to_string(), d3, create_mock_config()).unwrap();

    let data = state.get_last_published_data(start_time).expect("Data must be published after all messengers submit");
    assert_eq!(data.round, 1, "Published data should be for round 1");
    assert_eq!(data.data.unimmr, ratio(503, 1000), "Consensus value1 should be correct");

    let now = start_time + config.round_length + 1;
    let d4 = create_test_data(ratio(52, 100), ratio(1020, 1), ratio(2040, 1), ratio(520, 1));
    state.publish_data(now, "messenger1".to_string(), d4, create_mock_config()).unwrap();
    let data = state.get_last_published_data(now).expect("Should still return last published data");
    assert_eq!(data.round, 1, "Should still return data from round 1");

    let d5 = create_test_data(ratio(525, 1000), ratio(1025, 1), ratio(2050, 1), ratio(525, 1));
    state.publish_data(now, "messenger2".to_string(), d5, create_mock_config()).unwrap();
    let data = state.get_last_published_data(now).expect("Should still return last published data");
    assert_eq!(data.round, 1, "Should still return data from round 1");

    let later = start_time + config.round_length * 2 + 1;
    let data = state.get_last_published_data(later).expect("Should return consensus data for round 2");
    assert_eq!(data.round, 2, "Should return data from round 2");
    assert_eq!(data.data.unimmr, ratio(5225, 10000), "Consensus value1 should be correct");
}

#[test]
fn test_state_init() {
    let now = 1_571_797_419;
    let config = create_test_config();
    let state: State<BinanceData, BinanceConfig> = State::initialize(now, config.clone());
    assert_eq!(state.config, config, "Saved config should match the provided config");
    let pending_round = state.get_pending_round();
    assert_eq!(pending_round.round, 0, "Initial round should be 0");
    assert_eq!(pending_round.start, now, "Round start time should match env time");
}

#[test]
fn test_exact_consensus_on_items_various_cases() {
    // empty input
    {
        let items: Vec<u64> = vec![];
        assert_eq!(all_items_equal(&items), None);
    }

    // single item
    {
        let items = vec![42];
        assert_eq!(all_items_equal(&items), Some(42));
    }

    // all equal
    {
        let items = vec![7, 7, 7, 7];
        assert_eq!(all_items_equal(&items), Some(7));
    }

    // one different
    {
        let items = vec![1, 1, 2, 1];
        assert_eq!(all_items_equal(&items), None);
    }

    // all equal strings
    {
        let items = vec!["a", "a", "a"];
        assert_eq!(all_items_equal(&items), Some("a"));
    }

    // different strings
    {
        let items = vec!["a", "b", "a"];
        assert_eq!(all_items_equal(&items), None);
    }

    // custom struct
    {
        #[derive(Clone, Eq, PartialEq, Debug)]
        struct Foo(u8);
        let items = vec![Foo(1), Foo(1), Foo(1)];
        assert_eq!(all_items_equal(&items), Some(Foo(1)));
    }
}

#[test]
fn test_finalize_round_on_update_messengers_count() {
    // 1 -> 2 messengers: the first publication does not finalize the round
    {
        let start_time = 1000;
        let initial_config = Config {
            messengers: vec!["messenger1".to_string()],
            threshold: 1,
            data_delta_ppm: 10000,
            round_length: 3600,
        };
        let mut state = setup_test_state(&initial_config, 1, start_time);
        state.save_config(Config {
            messengers: vec!["messenger1".to_string(), "messenger2".to_string()],
            threshold: 1,
            data_delta_ppm: 10000,
            round_length: 3600,
        });
        let now = start_time + initial_config.round_length + 1;
        let d = create_test_data(ratio(5, 10), ratio(1000, 1), ratio(2000, 1), ratio(500, 1));
        let result = state.publish_data(now, "messenger1".to_string(), d, create_mock_config()).unwrap();
        match result.0 {
            PublishResult::ConsensusNotReached => {},
            PublishResult::ConsensusReached(_) => {
                panic!("Consensus should NOT be reached immediately with only 1 out of 2 messengers submitting data")
            },
        }
        assert_eq!(state.config.messengers.len(), 2, "Config should have 2 messengers now");
        assert!(state.pending_config.is_none(), "Pending config should be cleared after application");

        let d2 = create_test_data(ratio(505, 1000), ratio(1005, 1), ratio(2010, 1), ratio(505, 1));
        let result2 = state.publish_data(now, "messenger2".to_string(), d2, create_mock_config()).unwrap();
        match result2.0 {
            PublishResult::ConsensusReached(outcome) => {
                assert_eq!(outcome.round, 2, "Consensus should be reached for round 2");
            },
            PublishResult::ConsensusNotReached => {
                panic!("Consensus SHOULD be reached with both messengers submitting data")
            },
        }
    }

    // 2 -> 1 messengers: the first publication finalizes the round
    {
        let start_time = 2000;
        let initial_config = Config {
            messengers: vec!["messenger1".to_string(), "messenger2".to_string()],
            threshold: 1,
            data_delta_ppm: 10000,
            round_length: 3600,
        };
        let mut state = setup_test_state(&initial_config, 1, start_time);
        state.save_config(Config {
            messengers: vec!["messenger1".to_string()],
            threshold: 1,
            data_delta_ppm: 10000,
            round_length: 3600,
        });
        let now = start_time + initial_config.round_length + 1;
        let d = create_test_data(ratio(6, 10), ratio(1100, 1), ratio(2100, 1), ratio(600, 1));
        let result = state.publish_data(now, "messenger1".to_string(), d, create_mock_config()).unwrap();
        match result.0 {
            PublishResult::ConsensusReached(outcome) => {
                assert_eq!(outcome.round, 2, "Consensus should be reached immediately for round 2");
            },
            PublishResult::ConsensusNotReached => {
                panic!("Consensus SHOULD be reached immediately with 1 out of 1 messenger submitting data")
            },
        }
        assert_eq!(state.config.messengers.len(), 1, "Config should have 1 messenger now");
        assert!(state.pending_config.is_none(), "Pending config should be cleared after application");
    }
}

#[test]
fn consensus_on_a_field_of_submissions() {
    let data = vec![
        create_test_data(ratio(5, 10), ratio(1000, 1), ratio(2000, 1), ratio(500, 1)),
        create_test_data(ratio(505, 1000), ratio(1005, 1), ratio(2010, 1), ratio(505, 1)),
    ];
    assert_eq!(aum_oracle::items::consensus_on_field(&data, value1, 2, 10000), Some(ratio(5025, 10000)));
    assert_eq!(aum_oracle::items::consensus_on_field(&data, value1, 3, 10000), None);
}

#[test]
fn refused_publication_leaves_state_unchanged() {
    let config = create_test_config();
    let mut state = setup_test_state(&config, 1, 1000);
    let d = create_test_data(ratio(5, 10), ratio(1000, 1), ratio(2000, 1), ratio(500, 1));
    state.publish_data(1000, "messenger1".to_string(), d.clone(), create_mock_config()).unwrap();
    let pending_before = state.pending_messengers.clone();
    let round_before = state.get_pending_round();
    assert_eq!(
        state.publish_data(1000, "messenger1".to_string(), d, create_mock_config()).unwrap_err(),
        ConsensusError::DoubleSubmission {}
    );
    assert_eq!(state.pending_messengers, pending_before);
    assert_eq!(state.get_pending_round(), round_before);
}

#[test]
fn test_data_query_answers_fixed_values() {
    let d = aum_oracle::sample_data::query_test_data();
    assert_eq!(d.frist_value, "first_value");
    assert_eq!(d.second_value, "second_value");
}

#[test]
fn a_messenger_listed_twice_is_refused() {
    let config = Config {
        messengers: vec!["a".to_string(), "b".to_string(), "a".to_string(), "c".to_string()],
        threshold: 2,
        data_delta_ppm: 1000,
        round_length: 100,
    };
    assert_eq!(config.validate(), Err(ConsensusError::DuplicateMessengers {}));
    let empty = Config { messengers: vec![], ..config.clone() };
    assert_eq!(empty.validate(), Err(ConsensusError::EmptyMessengers {}));
    let zero = Config { messengers: vec!["a".to_string()], threshold: 0, ..config.clone() };
    assert_eq!(zero.validate(), Err(ConsensusError::ZeroThreshold {}));
    let high = Config { messengers: vec!["a".to_string()], threshold: 2, ..config };
    assert_eq!(high.validate(), Err(ConsensusError::UnreachableThreshold {}));
}

#[test]
fn a_second_submission_after_early_finalization_is_refused() {
    let config = create_test_config();
    let mut state = setup_test_state(&config, 1, 1000);
    let d = create_test_data(ratio(5, 10), ratio(1000, 1), ratio(2000, 1), ratio(500, 1));
    for m in ["messenger1", "messenger2", "messenger3"] {
        state.publish_data(1000, m.to_string(), d.clone(), create_mock_config()).unwrap();
    }
    assert!(state.pending_messengers.is_empty());
    let last_before = state.last_published_data.clone();
    assert_eq!(
        state.publish_data(1000, "messenger1".to_string(), d.clone(), create_mock_config()).unwrap_err(),
        ConsensusError::DoubleSubmission {}
    );
    assert!(state.pending_messengers.is_empty());
    assert!(state.pending_values.is_empty());
    assert_eq!(state.last_published_data, last_before);
    assert_eq!(state.get_pending_round(), Round { round: 1, start: 1000 });
    // Once the round is over, the messenger submits again.
    let (_, round) = state.publish_data(4600, "messenger1".to_string(), d, create_mock_config()).unwrap();
    assert_eq!(round, Round { round: 2, start: 4600 });
}
