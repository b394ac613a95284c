use aum_oracle::jupiter_aum::calculate_aum_in_btc;
use aum_oracle::jupiter_aum::check_published;
use aum_oracle::consensus::{Config as ConsensusConfig, ConsensusError, Round, State};
use aum_oracle::decimal::{Int256Parts, SignedDecimal256};
use aum_oracle::jupiter::{
    AumInWBTC, Config, ContractError, CustodyAsset, PriceTicker, SolanaBalance, SolanaData, SolanaTokenDecimals,
    SolanaTokenTotalSupply, UpdateConfig,
};
use aum_oracle::jupiter_receiver::{
    calculate_aum, calculate_aum_in_wbtc, check_slinky_price, execute_publish_data, execute_update_config,
    get_jlp_price_in_usd, prices_in_btc, query_get_aum,
};
use aum_oracle::receiver::{aum_response_from_uwbtc, query_round_info, GetAumResponse, RoundInfoResponse};

fn wide(x: i128) -> Int256Parts {
    Int256Parts::from_i128(x)
}

fn dec(n: i128, d: i128) -> SignedDecimal256 {
    SignedDecimal256::checked_from_ratio(n, d).unwrap()
}

fn config() -> Config {
    Config {
        consensus_data_valid_period: 3600,
        price_data_valid_period: 10,
        required_custody_assets: vec!["usdc".to_string()],
        required_solana_balances: vec![("strategy".to_string(), vec!["jlp".to_string()])],
        required_solana_token_total_supply: vec!["jlp".to_string()],
        solana_slinky_map: vec![("jlp".to_string(), PriceTicker::Jlp)],
    }
}

// JLP pool AUM of 2,000 USD over 1,000 JLP (6 decimals): 2 USD per JLP.
fn data() -> SolanaData {
    SolanaData {
        custody_assets: vec![CustodyAsset {
            owned: 100,
            locked: 50,
            guaranteed_usd: 1000,
            decimals: 6,
            denom: "usdc".to_string(),
        }],
        aum_usd: 2000,
        solana_balances: vec![SolanaBalance {
            address: "strategy".to_string(),
            asset: "jlp".to_string(),
            amount: 500_000_000,
        }],
        solana_token_total_supply: vec![SolanaTokenTotalSupply { asset: "jlp".to_string(), total_supply: 1_000_000_000 }],
        solana_token_decimals: vec![SolanaTokenDecimals { asset: "jlp".to_string(), decimals: 6 }],
    }
}

#[test]
fn jlp_price_is_aum_over_supply() {
    assert_eq!(get_jlp_price_in_usd(&data(), &"jlp".to_string()), Ok(dec(2, 1)));
}

#[test]
fn jlp_price_needs_the_total_supply() {
    let mut d = data();
    d.solana_token_total_supply.clear();
    assert_eq!(
        get_jlp_price_in_usd(&d, &"jlp".to_string()),
        Err(ContractError::CrucialConsensusDataMissing { details: "JLP total supply".to_string() })
    );
}

#[test]
fn jlp_price_needs_the_decimals() {
    let mut d = data();
    d.solana_token_decimals.clear();
    assert_eq!(
        get_jlp_price_in_usd(&d, &"jlp".to_string()),
        Err(ContractError::CrucialConsensusDataMissing { details: "JLP decimals".to_string() })
    );
}

#[test]
fn jlp_price_of_a_zero_supply_is_a_division_error() {
    let mut d = data();
    d.solana_token_total_supply[0].total_supply = 0;
    assert_eq!(get_jlp_price_in_usd(&d, &"jlp".to_string()), Err(ContractError::CheckedDiv {}));
}

#[test]
fn aum_in_wbtc_of_the_strategy_balance() {
    // 500 JLP at 2 USD each, BTC at 100,000 USD: 0.01 BTC = 1,000,000 uwBTC.
    let btc = dec(100_000, 1);
    let prices = prices_in_btc(&config().solana_slinky_map, &data(), btc, vec![Ok(SignedDecimal256::zero())]).unwrap();
    assert_eq!(prices, vec![("jlp".to_string(), dec(2, 100_000))]);
    assert_eq!(calculate_aum_in_wbtc(&prices, &data()), Ok(wide(1_000_000)));
    let aum = calculate_aum(&config().solana_slinky_map, &data(), btc, vec![Ok(SignedDecimal256::zero())]);
    assert_eq!(aum, Ok(wide(1_000_000)));
}

#[test]
fn aum_needs_a_price_for_each_balance() {
    assert_eq!(
        calculate_aum_in_wbtc(&vec![], &data()),
        Err(ContractError::CrucialConsensusDataMissing { details: "jlp price".to_string() })
    );
}

#[test]
fn aum_needs_decimals_for_each_balance() {
    let mut d = data();
    d.solana_token_decimals.clear();
    assert_eq!(
        calculate_aum_in_wbtc(&vec![("jlp".to_string(), dec(1, 1))], &d),
        Err(ContractError::CrucialConsensusDataMissing { details: "jlp decimals".to_string() })
    );
}

#[test]
fn slinky_prices_come_from_the_oracle() {
    let map = vec![
        ("sol".to_string(), PriceTicker::Slinky { asset: "SOL".to_string() }),
        ("jlp".to_string(), PriceTicker::Jlp),
    ];
    let btc = dec(100_000, 1);
    let prices = prices_in_btc(&map, &data(), btc, vec![Ok(dec(200, 1)), Ok(SignedDecimal256::zero())]).unwrap();
    assert_eq!(prices[0], ("sol".to_string(), dec(2, 1000)));
    let failure = ContractError::SlinkyAssetPriceMissing { asset: "SOL".to_string() };
    assert_eq!(
        prices_in_btc(&map, &data(), btc, vec![Err(failure.clone()), Ok(SignedDecimal256::zero())]),
        Err(failure)
    );
}

#[test]
fn a_zero_btc_price_is_a_division_error() {
    assert_eq!(
        prices_in_btc(&config().solana_slinky_map, &data(), SignedDecimal256::zero(), vec![Ok(SignedDecimal256::zero())]),
        Err(ContractError::CheckedDiv {})
    );
}

#[test]
fn slinky_quote_is_parsed_and_scaled() {
    let base = "BTC".to_string();
    assert_eq!(
        check_slinky_price(&base, Some(("10000000000000".to_string(), 95)), 8, 10, 100),
        Ok(dec(100_000, 1))
    );
    assert_eq!(
        check_slinky_price(&base, Some(("+12".to_string(), 95)), 0, 10, 100),
        Ok(dec(12, 1))
    );
}

#[test]
fn slinky_quote_errors() {
    let base = "BTC".to_string();
    assert_eq!(
        check_slinky_price(&base, None, 8, 10, 100),
        Err(ContractError::SlinkyAssetPriceMissing { asset: "BTC".to_string() })
    );
    assert_eq!(
        check_slinky_price(&base, Some(("1".to_string(), 80)), 8, 10, 100),
        Err(ContractError::SlinkyAssetPriceTooOld { asset: "BTC".to_string(), price_height: 80 })
    );
    match check_slinky_price(&base, Some(("12x".to_string(), 95)), 8, 10, 100) {
        Err(ContractError::SlinkyAssetPriceIncorrect { asset, price, error }) => {
            assert_eq!(asset, "BTC");
            assert_eq!(price, "12x");
            assert!(error.contains("Parsing u128"));
        },
        other => panic!("unexpected {:?}", other),
    }
    assert_eq!(
        check_slinky_price(&base, Some(("340282366920938463463374607431768211455".to_string(), 95)), 0, 10, 100),
        Ok(SignedDecimal256::from_atomics(u128::MAX, 0).unwrap())
    );
}

#[test]
fn stored_aum_is_answered_while_fresh() {
    let aum = AumInWBTC { amount: wide(1234), timestamp: 1000 };
    assert_eq!(query_get_aum(Some(aum), 3600, 4600), Ok(GetAumResponse { aum_in_wbtc: wide(1234), decimals: 8 }));
    assert_eq!(query_get_aum(Some(aum), 3600, 4601), Err(ContractError::PublishedDataTooOld {}));
    assert_eq!(query_get_aum(None, 3600, 0), Err(ContractError::NoDataPublished {}));
    assert_eq!(aum_response_from_uwbtc(wide(-5)), GetAumResponse { aum_in_wbtc: wide(-5), decimals: 8 });
}

#[test]
fn round_info_gives_the_next_round() {
    let r = query_round_info(&Round { round: 4, start: 100 }, 60);
    assert_eq!(r, RoundInfoResponse { pending_round: Round { round: 4, start: 100 }, next_round: Round { round: 5, start: 160 } });
}

fn consensus_config() -> ConsensusConfig {
    ConsensusConfig {
        messengers: vec!["m1".to_string(), "m2".to_string()],
        threshold: 2,
        data_delta_ppm: 0,
        round_length: 60,
    }
}

fn empty_update() -> UpdateConfig {
    UpdateConfig {
        consensus_data_valid_period: None,
        price_data_valid_period: None,
        required_custody_assets: None,
        required_solana_balances: None,
        required_solana_token_total_supply: None,
        solana_slinky_map: None,
        messengers: None,
        threshold: None,
        data_delta_ppm: None,
        round_length: None,
    }
}

#[test]
fn config_update_by_the_owner() {
    let mut u = empty_update();
    u.consensus_data_valid_period = Some(50_000);
    u.threshold = Some(1);
    let (c, cc) = execute_update_config(config(), consensus_config(), true, u).unwrap();
    assert_eq!(c.consensus_data_valid_period, 50_000);
    assert_eq!(c.required_custody_assets, vec!["usdc".to_string()]);
    assert_eq!(cc.threshold, 1);
    assert_eq!(cc.messengers, consensus_config().messengers);
}

#[test]
fn config_update_errors() {
    assert!(matches!(
        execute_update_config(config(), consensus_config(), false, empty_update()),
        Err(ContractError::Ownable { .. })
    ));
    let mut u = empty_update();
    u.price_data_valid_period = Some(0);
    assert_eq!(
        execute_update_config(config(), consensus_config(), true, u),
        Err(ContractError::InvalidPriceDataPeriod {})
    );
    let mut u = empty_update();
    u.threshold = Some(3);
    assert_eq!(
        execute_update_config(config(), consensus_config(), true, u),
        Err(ContractError::ConsensusError(ConsensusError::UnreachableThreshold {}))
    );
}

#[test]
fn only_messengers_publish() {
    let mut state: State<SolanaData, Config> = State::initialize(1000, consensus_config());
    assert_eq!(
        execute_publish_data(&mut state, config(), 1000, "stranger".to_string(), data()).unwrap_err(),
        ContractError::Unauthorized {}
    );
    assert!(state.pending_messengers.is_empty());
    execute_publish_data(&mut state, config(), 1000, "m1".to_string(), data()).unwrap();
    assert_eq!(state.pending_messengers, vec!["m1".to_string()]);
    assert_eq!(
        execute_publish_data(&mut state, config(), 1000, "m1".to_string(), data()).unwrap_err(),
        ContractError::ConsensusError(ConsensusError::DoubleSubmission {})
    );
}

#[test]
fn jlp_price_of_a_large_pool() {
    // 10^21 USD over 10^9 JLP: 10^12 USD per JLP, past the 128-bit range on the way.
    let mut d = data();
    d.aum_usd = 1_000_000_000_000_000_000_000;
    d.solana_token_total_supply[0].total_supply = 1_000_000_000_000_000;
    assert_eq!(get_jlp_price_in_usd(&d, &"jlp".to_string()), Ok(dec(1_000_000_000_000, 1)));
}

#[test]
fn jlp_price_example() {
    let mut d = data();
    d.aum_usd = 500_000;
    d.solana_token_total_supply[0].total_supply = 1_000_000_000;
    assert_eq!(get_jlp_price_in_usd(&d, &"jlp".to_string()), Ok(dec(500, 1)));
}

#[test]
fn config_update_with_a_messenger_listed_twice() {
    let mut u = empty_update();
    u.messengers = Some(vec!["m1".to_string(), "m2".to_string(), "m1".to_string(), "m3".to_string()]);
    assert_eq!(
        execute_update_config(config(), consensus_config(), true, u),
        Err(ContractError::ConsensusError(ConsensusError::DuplicateMessengers {}))
    );
}

fn jlp_data(aum: u128, balance: u128, supply: u128) -> SolanaData {
    SolanaData {
        custody_assets: vec![],
        aum_usd: aum,
        solana_balances: vec![SolanaBalance { address: "strategy".to_string(), asset: "jlp_token".to_string(), amount: balance }],
        solana_token_total_supply: vec![SolanaTokenTotalSupply { asset: "jlp_token".to_string(), total_supply: supply }],
        solana_token_decimals: vec![SolanaTokenDecimals { asset: "jlp_token".to_string(), decimals: 6 }],
    }
}

fn jlp_map() -> Vec<(String, PriceTicker)> {
    vec![("jlp_token".to_string(), PriceTicker::Jlp)]
}

#[test]
fn test_calculate_aum_in_wbtc() {
    // 500 USD per JLP, 10,000 JLP, BTC at 25,000 USD: 200 BTC.
    let r1 = calculate_aum(&jlp_map(), &jlp_data(500_000, 10_000_000_000, 1_000_000_000), dec(25_000, 1), vec![Ok(SignedDecimal256::zero())]);
    assert_eq!(r1, Ok(wide(20_000_000_000)));
    // 20,000 USD per JLP, 20,000 JLP, BTC at 50,000 USD: 8,000 BTC.
    let r2 = calculate_aum(
        &jlp_map(),
        &jlp_data(1_000_000_000, 20_000_000_000, 50_000_000_000),
        dec(50_000, 1),
        vec![Ok(SignedDecimal256::zero())],
    );
    assert_eq!(r2, Ok(wide(800_000_000_000)));
    // A zero JLP supply and a zero BTC price are division errors.
    let r3 = calculate_aum(&jlp_map(), &jlp_data(100, 10, 0), dec(1, 1), vec![Ok(SignedDecimal256::zero())]);
    assert_eq!(r3, Err(ContractError::CheckedDiv {}));
    let r4 = calculate_aum(&jlp_map(), &jlp_data(100, 5, 10), SignedDecimal256::zero(), vec![Ok(SignedDecimal256::zero())]);
    assert_eq!(r4, Err(ContractError::CheckedDiv {}));
}

#[test]
fn test_calculate_aum_in_wbtc_missing_jlp_total_supply() {
    let mut d = jlp_data(500_000, 10_000_000_000, 1_000_000_000);
    d.solana_token_total_supply[0].asset = "some_token".to_string();
    assert_eq!(
        calculate_aum(&jlp_map(), &d, dec(25_000, 1), vec![Ok(SignedDecimal256::zero())]),
        Err(ContractError::CrucialConsensusDataMissing { details: "JLP total supply".to_string() })
    );
}

#[test]
fn test_calculate_aum_in_wbtc_missing_jlp_decimals() {
    let mut d = jlp_data(500_000, 10_000_000_000, 1_000_000_000);
    d.solana_token_decimals[0].asset = "some_token".to_string();
    assert_eq!(
        calculate_aum(&jlp_map(), &d, dec(25_000, 1), vec![Ok(SignedDecimal256::zero())]),
        Err(ContractError::CrucialConsensusDataMissing { details: "JLP decimals".to_string() })
    );
}

#[test]
fn test_instantiate_validation() {
    let mut c = config();
    c.consensus_data_valid_period = 0;
    assert_eq!(c.validate(), Err(ContractError::InvalidConsensusPeriod {}));
    let mut c = config();
    c.price_data_valid_period = 0;
    assert_eq!(c.validate(), Err(ContractError::InvalidPriceDataPeriod {}));
    let base = ConsensusConfig {
        messengers: vec!["messenger1".to_string(), "messenger2".to_string(), "messenger3".to_string()],
        threshold: 2,
        data_delta_ppm: 1000,
        round_length: 100,
    };
    assert_eq!(ConsensusConfig { messengers: vec![], ..base.clone() }.validate(), Err(ConsensusError::EmptyMessengers {}));
    let dup = vec!["a".to_string(), "b".to_string(), "a".to_string(), "c".to_string()];
    assert_eq!(ConsensusConfig { messengers: dup, ..base.clone() }.validate(), Err(ConsensusError::DuplicateMessengers {}));
    assert_eq!(ConsensusConfig { threshold: 0, ..base.clone() }.validate(), Err(ConsensusError::ZeroThreshold {}));
    assert_eq!(ConsensusConfig { threshold: 4, ..base.clone() }.validate(), Err(ConsensusError::UnreachableThreshold {}));
    assert_eq!(base.validate(), Ok(()));
}

#[test]
fn test_update_config_validation() {
    let mut u = empty_update();
    u.consensus_data_valid_period = Some(0);
    assert_eq!(execute_update_config(config(), consensus_config(), true, u), Err(ContractError::InvalidConsensusPeriod {}));
    let mut u = empty_update();
    u.price_data_valid_period = Some(0);
    assert_eq!(execute_update_config(config(), consensus_config(), true, u), Err(ContractError::InvalidPriceDataPeriod {}));
    let mut u = empty_update();
    u.messengers = Some(vec![]);
    assert_eq!(
        execute_update_config(config(), consensus_config(), true, u),
        Err(ContractError::ConsensusError(ConsensusError::EmptyMessengers {}))
    );
    let mut u = empty_update();
    u.threshold = Some(0);
    assert_eq!(
        execute_update_config(config(), consensus_config(), true, u),
        Err(ContractError::ConsensusError(ConsensusError::ZeroThreshold {}))
    );
    let mut u = empty_update();
    u.threshold = Some(3);
    assert_eq!(
        execute_update_config(config(), consensus_config(), true, u),
        Err(ContractError::ConsensusError(ConsensusError::UnreachableThreshold {}))
    );
}

fn position(aum: u128, supply: u128, balance: u128) -> aum_oracle::jupiter_aum::JlpPosition {
    aum_oracle::jupiter_aum::JlpPosition {
        aum_usd: aum,
        total_jlp_supply: supply,
        strategy_jlp_balance: balance,
        total_jlp_supply_decimals: 6,
        strategy_jlp_balance_decimals: 6,
    }
}

#[test]
fn test_calculate_aum_in_btc() {
    assert_eq!(calculate_aum_in_btc(position(500_000, 1_000_000_000, 10_000_000_000), dec(25_000, 1)), Ok(wide(20_000_000_000)));
    assert_eq!(
        calculate_aum_in_btc(position(1_000_000_000, 50_000_000_000, 20_000_000_000), dec(50_000, 1)),
        Ok(wide(800_000_000_000))
    );
    assert_eq!(calculate_aum_in_btc(position(100, 0, 10), dec(1, 1)), Err(ContractError::CheckedDiv {}));
    assert_eq!(calculate_aum_in_btc(position(100, 10, 5), SignedDecimal256::zero()), Err(ContractError::CheckedDiv {}));
}

#[test]
fn aum_of_a_large_jlp_position() {
    // A pool of 10^21 USD: the intermediate decimals pass the 128-bit range.
    let r = calculate_aum_in_btc(position(1_000_000_000_000_000_000_000, 1_000_000_000_000_000, 1_000_000), dec(100_000, 1));
    // 10^12 USD per JLP, 1 JLP, BTC at 10^5 USD: 10^7 BTC = 10^15 uwBTC.
    assert_eq!(r, Ok(wide(1_000_000_000_000_000)));
}

#[test]
fn jlp_price_of_the_largest_pool() {
    let mut d = data();
    d.aum_usd = u128::MAX;
    d.solana_token_total_supply[0].total_supply = 1;
    d.solana_token_decimals[0].decimals = 0;
    assert_eq!(get_jlp_price_in_usd(&d, &"jlp".to_string()), Ok(SignedDecimal256::from_atomics(u128::MAX, 0).unwrap()));
}

#[test]
fn test_publish_data_invalid_custody() {
    let mut state: State<SolanaData, Config> = State::initialize(1000, consensus_config());
    let mut d = data();
    d.custody_assets.clear();
    assert!(matches!(
        execute_publish_data(&mut state, config(), 1000, "m1".to_string(), d),
        Err(ContractError::ConsensusError(ConsensusError::PrepublishError { .. }))
    ));
}

#[test]
fn test_query_get_aum_data_stale() {
    // Published at 1000 with a validity period of 1000 seconds, queried 10000 seconds later.
    let aum = AumInWBTC { amount: wide(20_000_000_000), timestamp: 1000 };
    assert_eq!(query_get_aum(Some(aum), 1_000, 11_000), Err(ContractError::PublishedDataTooOld {}));
}

#[test]
fn test_query_get_aum_behavior() {
    assert_eq!(query_get_aum(None, 1_000, 1000), Err(ContractError::NoDataPublished {}));
    let aum = AumInWBTC { amount: wide(20_000_000_000_000_000), timestamp: 1000 };
    assert_eq!(query_get_aum(Some(aum), 1_000, 11_000), Err(ContractError::PublishedDataTooOld {}));
    assert_eq!(
        query_get_aum(Some(aum), 1_000, 1_100),
        Ok(GetAumResponse { aum_in_wbtc: wide(20_000_000_000_000_000), decimals: 8 })
    );
    // A malformed or stale BTC price stops the AUM calculation.
    let base = "BTC".to_string();
    assert!(matches!(
        check_slinky_price(&base, Some(("not_a_number".to_string(), 200)), 8, 100, 200),
        Err(ContractError::SlinkyAssetPriceIncorrect { .. })
    ));
    assert!(matches!(
        check_slinky_price(&base, Some(("25000".to_string(), 50)), 8, 100, 200),
        Err(ContractError::SlinkyAssetPriceTooOld { .. })
    ));
}

#[test]
fn jlp_figures_are_answered_while_fresh() {
    let p = position(500_000, 1_000_000_000, 10_000_000_000);
    assert_eq!(check_published(None, 1_000, 1_000), Err(ContractError::NoDataPublished {}));
    assert_eq!(check_published(Some((1_000, p.clone())), 1_000, 2_000), Ok(p.clone()));
    assert_eq!(check_published(Some((1_000, p)), 1_000, 2_001), Err(ContractError::PublishedDataTooOld {}));
}
