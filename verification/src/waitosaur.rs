use crate::binance::{BinanceData, SpotBalance, SpotBalanceView};
use crate::consensus::ConsensusOutcome;
use crate::decimal::{Int256Parts, SignedDecimal256};
use crate::sequences::views;
use vstd::prelude::*;
use vstd::string::StringExecFns;

verus! {

/// Errors of the lock contract.
#[derive(Clone, Debug, PartialEq)]
pub enum ContractError {
    Std { msg: String },
    /// the sender is not the contract's owner
    NotOwner {},
    Unauthorized {},
    AlreadyLocked {},
    AlreadyUnlocked {},
    NoDataInContract {},
    NoAssetFound {},
    InsufficientAssetAmount {},
    AumStale {},
}

impl ContractError {
    /// The error's message.
    pub fn message(&self) -> (r: String)
        ensures
            self is AumStale ==> r@ == "AUM data is stale"@,
            self is NoDataInContract ==> r@ == "No data available in the target contract"@,
            self is NoAssetFound ==> r@ == "No asset found in the published data"@,
            self is InsufficientAssetAmount ==> r@ == "Insufficient asset amount to unlock"@,
            self is AlreadyLocked ==> r@ == "Already locked"@,
            self is AlreadyUnlocked ==> r@ == "Already unlocked"@,
            self is Unauthorized ==> r@ == "Unauthorized"@,
            self is NotOwner ==> r@ == "Caller is not the contract's current owner"@,
            self matches ContractError::Std { msg } ==> r@ == msg@,
    {
        match self {
            ContractError::Std { msg } => msg.clone(),
            ContractError::NotOwner {} => String::from_str("Caller is not the contract's current owner"),
            ContractError::Unauthorized {} => String::from_str("Unauthorized"),
            ContractError::AlreadyLocked {} => String::from_str("Already locked"),
            ContractError::AlreadyUnlocked {} => String::from_str("Already unlocked"),
            ContractError::NoDataInContract {} => String::from_str(
                "No data available in the target contract",
            ),
            ContractError::NoAssetFound {} => String::from_str("No asset found in the published data"),
            ContractError::InsufficientAssetAmount {} => String::from_str(
                "Insufficient asset amount to unlock",
            ),
            ContractError::AumStale {} => String::from_str("AUM data is stale"),
        }
    }
}

/// The contract's configuration.
#[derive(Clone, Debug, PartialEq)]
pub struct Config {
    /// the address allowed to lock
    pub locker: String,
    /// the address allowed to unlock
    pub unlocker: String,
    /// the contract whose published data decides an unlock
    pub contract: String,
    /// the asset that must cover the locked amount
    pub asset: String,
    /// the longest time, in seconds, for which published data counts as fresh
    pub aum_stale_period: u64,
}

/// Changes to the configuration; every field is optional.
#[derive(Clone, Debug, PartialEq)]
pub struct UpdateConfig {
    pub locker: Option<String>,
    pub unlocker: Option<String>,
    pub contract: Option<String>,
    pub asset: Option<String>,
    pub aum_stale_period: Option<u64>,
}

/// The lock: an amount locked at a time (in nanoseconds), or none.
#[derive(Clone, Copy, Debug, PartialEq, Eq, Structural)]
pub enum State {
    Locked { amount: SignedDecimal256, at_timestamp: u64 },
    Unlocked {},
}

/// The contract needs no data for a migration.
#[derive(Clone, Copy, Debug, PartialEq, Eq, Structural)]
pub struct MigrateMsg {}

/// The configuration after an update by the owner: each field that is given
/// replaces the stored one.
pub open spec fn updated(c: Config, u: UpdateConfig) -> Config {
    Config {
        locker: match u.locker {
            Some(x) => x,
            None => c.locker,
        },
        unlocker: match u.unlocker {
            Some(x) => x,
            None => c.unlocker,
        },
        contract: match u.contract {
            Some(x) => x,
            None => c.contract,
        },
        asset: match u.asset {
            Some(x) => x,
            None => c.asset,
        },
        aum_stale_period: match u.aum_stale_period {
            Some(x) => x,
            None => c.aum_stale_period,
        },
    }
}

/// Only the owner may update the configuration.
pub fn execute_update_config(config: Config, sender_is_owner: bool, new_config: UpdateConfig) -> (r: Result<
    Config,
    ContractError,
>)
    ensures
        !sender_is_owner ==> (r matches Err(e) && e is NotOwner),
        sender_is_owner ==> r == Ok::<Config, ContractError>(updated(config, new_config)),
{
    if !sender_is_owner {
        return Err(ContractError::NotOwner {});
    }
    let mut c = config;
    if let Some(x) = new_config.locker {
        c.locker = x;
    }
    if let Some(x) = new_config.unlocker {
        c.unlocker = x;
    }
    if let Some(x) = new_config.contract {
        c.contract = x;
    }
    if let Some(x) = new_config.asset {
        c.asset = x;
    }
    if let Some(x) = new_config.aum_stale_period {
        c.aum_stale_period = x;
    }
    Ok(c)
}

/// What a lock asked at time `now_nanos` makes of the state: refused (`Err(0)`)
/// unless the sender may lock, refused (`Err(1)`) while a lock is held, else the
/// new lock.
pub open spec fn lock_result(s: State, authorized: bool, amount: SignedDecimal256, now_nanos: u64) -> Result<
    State,
    int,
> {
    if !authorized {
        Err(0)
    } else if s is Locked {
        Err(1)
    } else {
        Ok(State::Locked { amount, at_timestamp: now_nanos })
    }
}

/// The error that `lock_result` names by its number.
pub open spec fn lock_error(e: ContractError, k: int) -> bool {
    ||| k == 0 && e is Unauthorized
    ||| k == 1 && e is AlreadyLocked
}

/// The locker or the owner locks `amount` at time `now_nanos`; a lock that is
/// already held stays as it is.
pub fn execute_lock(
    state: &mut State,
    config: &Config,
    sender: &String,
    sender_is_owner: bool,
    amount: SignedDecimal256,
    now_nanos: u64,
) -> (r: Result<(), ContractError>)
    ensures
        match lock_result(*old(state), sender@ == config.locker@ || sender_is_owner, amount, now_nanos) {
            Ok(t) => r is Ok && *final(state) == t,
            Err(k) => (r matches Err(e) && lock_error(e, k)) && *final(state) == *old(state),
        },
{
    if !crate::strings::str_eq(sender, &config.locker) && !sender_is_owner {
        return Err(ContractError::Unauthorized {});
    }
    if let State::Locked { .. } = *state {
        return Err(ContractError::AlreadyLocked {});
    }
    *state = State::Locked { amount, at_timestamp: now_nanos };
    Ok(())
}

/// A second lock is refused while the first is held.
pub proof fn lemma_lock_twice(s: State, a: SignedDecimal256, t: u64, b: SignedDecimal256, u: u64)
    requires
        lock_result(s, true, a, t) is Ok,
    ensures
        lock_result(lock_result(s, true, a, t)->Ok_0, true, b, u) == Err::<State, int>(1),
{
}

/// The amount that a lock holds.
pub open spec fn locked_amount(s: State) -> Option<SignedDecimal256> {
    match s {
        State::Locked { amount, .. } => Some(amount),
        State::Unlocked {} => None,
    }
}

/// A lock holds the amount it was asked for, and it is released once published
/// data covers that amount.
pub proof fn lemma_lock_then_unlock(
    s: State,
    a: SignedDecimal256,
    t: u64,
    config: Config,
    published: Option<ConsensusOutcome<crate::binance::BinanceDataView>>,
    now: u64,
)
    requires
        lock_result(s, true, a, t) is Ok,
        unlock_outcome(config, a, published, now) is Ok,
    ensures
        locked_amount(lock_result(s, true, a, t)->Ok_0) == Some(a),
        unlock_outcome(config, locked_amount(lock_result(s, true, a, t)->Ok_0)->Some_0, published, now) is Ok,
{
}

/// The checks of an unlock that come before the published data is read: the
/// sender must be the unlocker or the owner, and a lock must be held. Gives the
/// locked amount.
pub fn unlock_precheck(state: &State, config: &Config, sender: &String, sender_is_owner: bool) -> (r:
    Result<SignedDecimal256, ContractError>)
    ensures
        sender@ != config.unlocker@ && !sender_is_owner ==> (r matches Err(e) && e is Unauthorized),
        (sender@ == config.unlocker@ || sender_is_owner) && *state is Unlocked ==> (r matches Err(e)
            && e is AlreadyUnlocked),
        (sender@ == config.unlocker@ || sender_is_owner) ==> match *state {
            State::Locked { amount, .. } => r == Ok::<SignedDecimal256, ContractError>(amount),
            State::Unlocked {} => (r is Err),
        },
{
    if !crate::strings::str_eq(sender, &config.unlocker) && !sender_is_owner {
        return Err(ContractError::Unauthorized {});
    }
    match *state {
        State::Locked { amount, .. } => Ok(amount),
        State::Unlocked {} => Err(ContractError::AlreadyUnlocked {}),
    }
}

/// The amount of the first balance of `asset`, if there is one.
pub open spec fn find_asset(b: Seq<SpotBalanceView>, asset: Seq<char>) -> Option<SignedDecimal256>
    decreases b.len(),
{
    if b.len() == 0 {
        None
    } else if b[0].asset == asset {
        Some(b[0].amount)
    } else {
        find_asset(b.drop_first(), asset)
    }
}

/// The amount of the first spot balance of `asset`.
pub fn find_spot_balance(balances: &Vec<SpotBalance>, asset: &String) -> (r: Option<SignedDecimal256>)
    ensures
        r == find_asset(views(balances@), asset@),
{
    let ghost b = views(balances@);
    proof {
        assert(b.subrange(0, b.len() as int) =~= b);
    }
    let mut i: usize = 0;
    while i < balances.len()
        invariant
            i <= balances@.len(),
            b == views(balances@),
            b.len() == balances@.len(),
            find_asset(b, asset@) == find_asset(b.subrange(i as int, b.len() as int), asset@),
        decreases balances@.len() - i,
    {
        let ghost rest = b.subrange(i as int, b.len() as int);
        proof {
            assert(rest[0] == balances@[i as int]@);
        }
        if crate::strings::str_eq(&balances[i].asset, asset) {
            return Some(balances[i].amount);
        }
        proof {
            assert(rest.drop_first() =~= b.subrange(i + 1, b.len() as int));
        }
        i += 1;
    }
    proof {
        assert(b.subrange(i as int, b.len() as int).len() == 0);
    }
    None
}

/// Published data of time `published_at` is stale at time `now` (both in seconds)
/// when more than `period` seconds lie between them.
pub open spec fn is_stale(published_at: u64, period: u64, now: u64) -> bool {
    published_at + period < now
}

/// What decides an unlock once the published data has been read: it must exist,
/// be fresh, hold a balance of the configured asset, and that balance must cover
/// the locked amount.
pub open spec fn unlock_outcome(
    config: Config,
    locked: SignedDecimal256,
    published: Option<ConsensusOutcome<crate::binance::BinanceDataView>>,
    now: u64,
) -> Result<(), int> {
    match published {
        None => Err(0),
        Some(o) => if is_stale(o.timestamp, config.aum_stale_period, now) {
            Err(1)
        } else {
            match find_asset(o.data.spot_balances, config.asset@) {
                None => Err(2),
                Some(a) => if a.value() < locked.value() {
                    Err(3)
                } else {
                    Ok(())
                },
            }
        },
    }
}

/// The error that `unlock_outcome` names by its number.
pub open spec fn unlock_error(e: ContractError, k: int) -> bool {
    ||| k == 0 && e is NoDataInContract
    ||| k == 1 && e is AumStale
    ||| k == 2 && e is NoAssetFound
    ||| k == 3 && e is InsufficientAssetAmount
}

/// Completes an unlock with the data published by the configured contract, read
/// at time `now` (in seconds): the lock is released only when that data covers it.
pub fn finish_unlock(
    state: &mut State,
    config: &Config,
    published: Option<ConsensusOutcome<BinanceData>>,
    now: u64,
) -> (r: Result<(), ContractError>)
    requires
        *old(state) is Locked,
    ensures
        ({
            let locked = match *old(state) {
                State::Locked { amount, .. } => amount,
                State::Unlocked {} => SignedDecimal256 { atomics: Int256Parts { hi: 0, lo: 0 } },
            };
            let published_view = match published {
                Some(o) => Some(o@),
                None => None,
            };
            match unlock_outcome(*config, locked, published_view, now) {
                Ok(()) => r is Ok && *final(state) == (State::Unlocked {}),
                Err(k) => (r matches Err(e) && unlock_error(e, k)) && *final(state) == *old(state),
            }
        }),
{
    let locked = match *state {
        State::Locked { amount, .. } => amount,
        State::Unlocked {} => SignedDecimal256::zero(),
    };
    let o = match published {
        None => {
            return Err(ContractError::NoDataInContract {});
        },
        Some(o) => o,
    };
    let fresh = o.timestamp >= now || now - o.timestamp <= config.aum_stale_period;
    if !fresh {
        return Err(ContractError::AumStale {});
    }
    let amount = match find_spot_balance(&o.data.spot_balances, &config.asset) {
        None => {
            return Err(ContractError::NoAssetFound {});
        },
        Some(a) => a,
    };
    if amount.atomics.lt(&locked.atomics) {
        return Err(ContractError::InsufficientAssetAmount {});
    }
    *state = State::Unlocked {};
    Ok(())
}

/// `find_asset` gives the amount of the first balance of the asset, if any.
proof fn lemma_find_asset_first(b: Seq<SpotBalanceView>, asset: Seq<char>)
    ensures
        match find_asset(b, asset) {
            Some(a) => exists|i: int|
                0 <= i < b.len() && (#[trigger] b[i]).asset == asset && b[i].amount == a && forall|j: int|
                    0 <= j < i ==> (#[trigger] b[j]).asset != asset,
            None => forall|j: int| 0 <= j < b.len() ==> (#[trigger] b[j]).asset != asset,
        },
    decreases b.len(),
{
    if b.len() > 0 {
        let rest = b.drop_first();
        lemma_find_asset_first(rest, asset);
        if b[0].asset != asset {
            match find_asset(rest, asset) {
                Some(a) => {
                    let i = choose|i: int|
                        0 <= i < rest.len() && (#[trigger] rest[i]).asset == asset && rest[i].amount == a && forall|j: int|
                            0 <= j < i ==> (#[trigger] rest[j]).asset != asset;
                    assert(b[i + 1] == rest[i]);
                    assert forall|j: int| 0 <= j < i + 1 implies (#[trigger] b[j]).asset != asset by {
                        if j > 0 {
                            assert(b[j] == rest[j - 1]);
                        }
                    }
                },
                None => {
                    assert forall|j: int| 0 <= j < b.len() implies (#[trigger] b[j]).asset != asset by {
                        if j > 0 {
                            assert(b[j] == rest[j - 1]);
                        }
                    }
                },
            }
        }
    }
}

/// Balance `i` is the first one of `asset`.
pub open spec fn first_of(b: Seq<SpotBalanceView>, asset: Seq<char>, i: int) -> bool {
    &&& 0 <= i < b.len()
    &&& b[i].asset == asset
    &&& forall|j: int| 0 <= j < i ==> (#[trigger] b[j]).asset != asset
}

/// Law: an unlock is granted only by fresh published data whose first balance of
/// the configured asset covers the locked amount; fresh data whose first balance of
/// the asset falls short of the locked amount refuses it with the insufficiency error.
pub proof fn lemma_unlock_needs_covering_balance(
    config: Config,
    locked: SignedDecimal256,
    published: Option<ConsensusOutcome<crate::binance::BinanceDataView>>,
    now: u64,
)
    ensures
        unlock_outcome(config, locked, published, now) is Ok ==> (match published {
            None => false,
            Some(o) => o.timestamp + config.aum_stale_period >= now && exists|i: int|
                #[trigger] first_of(o.data.spot_balances, config.asset@, i)
                    && o.data.spot_balances[i].amount.value() >= locked.value(),
        }),
        (match published {
            None => false,
            Some(o) => o.timestamp + config.aum_stale_period >= now && exists|i: int|
                #[trigger] first_of(o.data.spot_balances, config.asset@, i)
                    && o.data.spot_balances[i].amount.value() < locked.value(),
        }) ==> unlock_outcome(config, locked, published, now) == Err::<(), int>(3),
{
    if let Some(o) = published {
        let b = o.data.spot_balances;
        let asset = config.asset@;
        lemma_find_asset_first(b, asset);
        match find_asset(b, asset) {
            Some(a) => {
                let k = choose|k: int|
                    0 <= k < b.len() && (#[trigger] b[k]).asset == asset && b[k].amount == a && forall|j: int|
                        0 <= j < k ==> (#[trigger] b[j]).asset != asset;
                assert(first_of(b, asset, k));
                assert forall|i: int| #[trigger] first_of(b, asset, i) implies i == k by {
                    if i < k {
                        assert(b[i].asset != asset);
                    } else if k < i {
                        assert(b[k].asset != asset);
                    }
                }
            },
            None => {
                assert forall|i: int| !(#[trigger] first_of(b, asset, i)) by {
                    if 0 <= i < b.len() {
                        assert(b[i].asset != asset);
                    }
                }
            },
        }
    }
}

} // verus!
