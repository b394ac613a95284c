use aum_oracle::binance::{BinanceData, SpotBalance};
use aum_oracle::consensus::ConsensusOutcome;
use aum_oracle::decimal::SignedDecimal256;
use aum_oracle::waitosaur::{
    execute_lock, execute_update_config, finish_unlock, unlock_precheck, Config, ContractError, State, UpdateConfig,
};

// The block time of the test environment, in seconds.
const NOW: u64 = 1_571_797_419;

fn dec(atomics_of_hundredths: i128) -> SignedDecimal256 {
    SignedDecimal256::checked_from_ratio(atomics_of_hundredths, 100).unwrap()
}

fn config() -> Config {
    Config {
        locker: "locker".to_string(),
        unlocker: "unlocker".to_string(),
        contract: "receiver_contract".to_string(),
        asset: "asset".to_string(),
        aum_stale_period: 100,
    }
}

fn published(asset: &str, amount: Option<SignedDecimal256>, timestamp: Option<u64>) -> Option<ConsensusOutcome<BinanceData>> {
    amount.map(|amount| ConsensusOutcome {
        round: 1,
        timestamp: timestamp.unwrap_or(0),
        data: BinanceData {
            unimmr: SignedDecimal256::zero(),
            positions: vec![],
            um_balance_usdt: SignedDecimal256::zero(),
            spot_balances: vec![SpotBalance { asset: asset.to_string(), amount }],
            pm_account_actual_equity: SignedDecimal256::zero(),
            withdrawable_usdt: SignedDecimal256::zero(),
        },
    })
}

fn unlock(
    state: &mut State,
    config: &Config,
    sender: &str,
    data: Option<ConsensusOutcome<BinanceData>>,
) -> Result<(), ContractError> {
    unlock_precheck(state, config, &sender.to_string(), false)?;
    finish_unlock(state, config, data, NOW)
}

fn locked_state() -> State {
    let mut state = State::Unlocked {};
    execute_lock(&mut state, &config(), &"locker".to_string(), false, dec(10050), NOW * 1_000_000_000).unwrap();
    state
}

#[test]
fn tests_update_config_by_owner() {
    let new_config = UpdateConfig {
        locker: Some("new_locker".to_string()),
        unlocker: Some("new_unlocker".to_string()),
        contract: Some("new_contract".to_string()),
        asset: Some("new_asset".to_string()),
        aum_stale_period: Some(200),
    };
    let c = execute_update_config(config(), true, new_config).unwrap();
    assert_eq!(
        c,
        Config {
            locker: "new_locker".to_string(),
            unlocker: "new_unlocker".to_string(),
            contract: "new_contract".to_string(),
            asset: "new_asset".to_string(),
            aum_stale_period: 200,
        }
    );
}

#[test]
fn tests_update_config_by_unauthorized() {
    let new_config = UpdateConfig {
        locker: Some("new_locker".to_string()),
        unlocker: None,
        contract: None,
        asset: None,
        aum_stale_period: Some(200),
    };
    let err = execute_update_config(config(), false, new_config).unwrap_err();
    assert_eq!(err, ContractError::NotOwner {});
}

#[test]
fn query_default_state() {
    let state = State::Unlocked {};
    assert_eq!(state, State::Unlocked {});
}

#[test]
fn lock_and_query_state() {
    let state = locked_state();
    assert_eq!(state, State::Locked { amount: dec(10050), at_timestamp: NOW * 1_000_000_000 });
}

#[test]
fn lock_already_locked() {
    let mut state = locked_state();
    let err = execute_lock(&mut state, &config(), &"locker".to_string(), false, dec(10050), NOW * 1_000_000_000)
        .unwrap_err();
    assert_eq!(err, ContractError::AlreadyLocked {});
}

#[test]
fn lock_unauthorized() {
    let mut state = State::Unlocked {};
    let err = execute_lock(&mut state, &config(), &"stranger".to_string(), false, dec(10050), 0).unwrap_err();
    assert_eq!(err, ContractError::Unauthorized {});
    assert_eq!(state, State::Unlocked {});
}

#[test]
fn unlock_not_locked() {
    let mut state = State::Unlocked {};
    let err = unlock(&mut state, &config(), "unlocker", None).unwrap_err();
    assert_eq!(err, ContractError::AlreadyUnlocked {});
}

#[test]
fn unlock_unauthorized() {
    let mut state = State::Unlocked {};
    let err = unlock(&mut state, &config(), "stranger", None).unwrap_err();
    assert_eq!(err, ContractError::Unauthorized {});
}

#[test]
fn unlock_success() {
    let mut state = locked_state();
    unlock(&mut state, &config(), "unlocker", published("asset", Some(dec(20075)), Some(NOW))).unwrap();
    assert_eq!(state, State::Unlocked {});
}

#[test]
fn unlock_wrong_asset() {
    let mut state = locked_state();
    let err = unlock(&mut state, &config(), "unlocker", published("wrong_asset", Some(dec(20075)), Some(NOW)))
        .unwrap_err();
    assert_eq!("No asset found in the published data", err.message());
    assert_eq!(state, State::Locked { amount: dec(10050), at_timestamp: NOW * 1_000_000_000 });
}

#[test]
fn unlock_stale_aum() {
    let mut state = locked_state();
    let err = unlock(&mut state, &config(), "unlocker", published("asset", Some(dec(20075)), Some(NOW - 200)))
        .unwrap_err();
    assert_eq!("AUM data is stale", err.message());
    assert_eq!(state, State::Locked { amount: dec(10050), at_timestamp: NOW * 1_000_000_000 });
}

#[test]
fn unlock_no_data() {
    let mut state = locked_state();
    let err = unlock(&mut state, &config(), "unlocker", published("asset", None, None)).unwrap_err();
    assert_eq!("No data available in the target contract", err.message());
    assert_eq!(state, State::Locked { amount: dec(10050), at_timestamp: NOW * 1_000_000_000 });
}

#[test]
fn unlock_little_amount() {
    let mut state = State::Unlocked {};
    execute_lock(&mut state, &config(), &"locker".to_string(), false, dec(30050), NOW * 1_000_000_000).unwrap();
    let err = unlock(&mut state, &config(), "unlocker", published("asset", Some(dec(5025)), Some(NOW))).unwrap_err();
    assert_eq!("Insufficient asset amount to unlock", err.message());
    assert_eq!(state, State::Locked { amount: dec(30050), at_timestamp: NOW * 1_000_000_000 });
}

#[test]
fn the_owner_may_lock_and_unlock() {
    let mut state = State::Unlocked {};
    execute_lock(&mut state, &config(), &"owner".to_string(), true, dec(100), 5).unwrap();
    assert_eq!(unlock_precheck(&state, &config(), &"owner".to_string(), true), Ok(dec(100)));
}

#[test]
fn data_exactly_at_the_stale_limit_is_fresh() {
    let mut state = locked_state();
    unlock(&mut state, &config(), "unlocker", published("asset", Some(dec(10050)), Some(NOW - 100))).unwrap();
    assert_eq!(state, State::Unlocked {});
}
