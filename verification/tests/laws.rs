use aum_oracle::binance::{BinanceData, Config as BinanceConfig, Position, SpotBalance};
use aum_oracle::consensus::{Config, ConsensusData, PublishResult, Round, State};
use aum_oracle::decimal::{Decimal, Int256Parts, SignedDecimal256};
use aum_oracle::items::{consensus_on_items_dec256, consensus_on_items_u64, median};
use aum_oracle::jupiter::{
    CustodyAsset, SolanaBalance, SolanaData, SolanaTokenDecimals, SolanaTokenTotalSupply,
};

fn dec(n: i128, d: i128) -> SignedDecimal256 {
    SignedDecimal256::checked_from_ratio(n, d).unwrap()
}

fn solana() -> SolanaData {
    SolanaData {
        custody_assets: vec![
            CustodyAsset { owned: 100, locked: 50, guaranteed_usd: 1000, decimals: 6, denom: "SOL".to_string() },
            CustodyAsset { owned: 200, locked: 75, guaranteed_usd: 2000, decimals: 6, denom: "USDC".to_string() },
        ],
        aum_usd: 1000,
        solana_balances: vec![SolanaBalance { address: "strategy".to_string(), asset: "jlp".to_string(), amount: 300 }],
        solana_token_total_supply: vec![SolanaTokenTotalSupply { asset: "jlp".to_string(), total_supply: 5000 }],
        solana_token_decimals: vec![SolanaTokenDecimals { asset: "jlp".to_string(), decimals: 6 }],
    }
}

fn binance() -> BinanceData {
    BinanceData {
        unimmr: dec(1, 10),
        positions: vec![Position { symbol: "BTCUSDT".to_string(), amount: dec(15, 10), pnl: dec(-1000, 1) }],
        um_balance_usdt: dec(5000, 1),
        spot_balances: vec![SpotBalance { asset: "BTC".to_string(), amount: dec(25, 10) }],
        pm_account_actual_equity: dec(80000, 1),
        withdrawable_usdt: dec(3000, 1),
    }
}

fn binance_config() -> BinanceConfig {
    BinanceConfig {
        owner: "owner".to_string(),
        price_oracle_contract: "oracle".to_string(),
        consensus_data_valid_period: 100,
        price_data_valid_period: 100,
        required_binance_positions: vec![],
        required_binance_spot_assets: vec![],
    }
}

#[test]
fn identical_solana_submissions_are_the_consensus() {
    let data = vec![solana(); 4];
    assert_eq!(SolanaData::try_consensus(&data, 3, 0), Some(solana()));
}

#[test]
fn identical_binance_submissions_are_the_consensus() {
    let data = vec![binance(); 3];
    assert_eq!(BinanceData::try_consensus(&data, 3, 0), Some(binance()));
}

#[test]
fn consensus_does_not_depend_on_the_order_of_reports() {
    let a = vec![dec(1, 1), dec(101, 100), dec(2, 1), dec(1005, 1000)];
    let b = vec![dec(2, 1), dec(1005, 1000), dec(1, 1), dec(101, 100)];
    assert_eq!(consensus_on_items_dec256(&a, 3, 20000), consensus_on_items_dec256(&b, 3, 20000));
    assert_eq!(consensus_on_items_dec256(&a, 3, 20000), Some(dec(1005, 1000)));
}

#[test]
fn consensus_lies_between_the_reports() {
    let items = vec![10u64, 11, 12, 50];
    let c = consensus_on_items_u64(&items, 3, 200_000).unwrap();
    assert!(10 <= c && c <= 50);
    assert_eq!(c, 11);
}

#[test]
fn median_of_an_even_slice_is_the_mean_of_the_middle() {
    assert_eq!(median(&[1u64, 3, 5, 7]), Some(4));
    assert_eq!(median::<u64>(&[]), None);
}

fn config(n: usize) -> Config {
    Config {
        messengers: (1..=n).map(|k| format!("m{}", k)).collect(),
        threshold: 1,
        data_delta_ppm: 0,
        round_length: 100,
    }
}

#[test]
fn published_consensus_is_read_back() {
    let mut state: State<BinanceData, BinanceConfig> = State::initialize(1000, config(2));
    state.publish_data(1000, "m1".to_string(), binance(), binance_config()).unwrap();
    let (result, _) = state.publish_data(1000, "m2".to_string(), binance(), binance_config()).unwrap();
    match result {
        PublishResult::ConsensusReached(outcome) => {
            assert_eq!(state.get_last_published_data(1000), Some(outcome));
        },
        PublishResult::ConsensusNotReached => panic!("both messengers agree"),
    }
}

#[test]
fn a_new_configuration_waits_for_the_next_round() {
    let mut state: State<BinanceData, BinanceConfig> = State::initialize(1000, config(2));
    state.save_config(config(3));
    state.publish_data(1050, "m1".to_string(), binance(), binance_config()).unwrap();
    assert_eq!(state.config, config(2));
    state.publish_data(1100, "m2".to_string(), binance(), binance_config()).unwrap();
    assert_eq!(state.config, config(3));
}

#[test]
fn rounds_advance_one_at_a_time() {
    let mut state: State<BinanceData, BinanceConfig> = State::initialize(1000, config(2));
    state.publish_data(5000, "m1".to_string(), binance(), binance_config()).unwrap();
    assert_eq!(state.get_pending_round(), Round { round: 1, start: 5000 });
}

#[test]
fn decimal_operations() {
    let half = Decimal::checked_from_ratio(1, 2).unwrap();
    assert_eq!(half, Decimal { atomics: 500_000_000_000_000_000 });
    assert_eq!(Decimal::checked_from_ratio(1, 0), None);
    let three = Decimal::checked_from_ratio(3, 1).unwrap();
    assert_eq!(three.checked_mul(half), Some(Decimal { atomics: 1_500_000_000_000_000_000 }));
    assert_eq!(three.checked_div(half), Some(Decimal { atomics: 6_000_000_000_000_000_000 }));
    assert_eq!(dec(-1, 3), SignedDecimal256 { atomics: Int256Parts::from_i128(-333_333_333_333_333_333) });
    assert_eq!(dec(3, 1).checked_mul(dec(-1, 2)), Some(dec(-15, 10)));
    assert_eq!(SignedDecimal256::from_atomics(12345, 2), Some(dec(12345, 100)));
    assert_eq!(SignedDecimal256::from_atomics(12345, 20), Some(SignedDecimal256 { atomics: Int256Parts::from_i128(123) }));
    assert_eq!(dec(1, 1).checked_div(SignedDecimal256::zero()), None);
}
