use crate::decimal::{
    fits_i256, trunc_div_by, spec_from_atomics, trunc_div, trunc_div_signed, unit, wide_checked_div, wide_checked_mul,
    wide_from_atomics, Int256Parts, SignedDecimal256,
};
use crate::jupiter::ContractError;
use vstd::prelude::*;

verus! {

/// The agreed JLP figures the AUM of a JLP position is computed from: the pool's
/// AUM in USD, the JLP total supply and the strategy's JLP balance, each with its
/// decimals.
#[derive(Clone, Debug, PartialEq)]
pub struct JlpPosition {
    pub aum_usd: u128,
    pub total_jlp_supply: u128,
    pub strategy_jlp_balance: u128,
    pub total_jlp_supply_decimals: u8,
    pub strategy_jlp_balance_decimals: u8,
}

/// Why the AUM of a JLP position cannot be computed.
pub enum PositionIssue {
    /// a value leaves the decimal range
    Range,
    /// a division by zero, or a quotient beyond the decimal range
    Division,
    /// a product beyond the decimal range
    Overflow,
}

/// The error that reports an issue.
pub open spec fn reports_position(e: ContractError, i: PositionIssue) -> bool {
    match i {
        PositionIssue::Range => e is DecimalRangeError,
        PositionIssue::Division => e is CheckedDiv,
        PositionIssue::Overflow => e is OverflowError,
    }
}

/// The AUM of the strategy's JLP in wBTC units (8 decimals): the JLP virtual price
/// (AUM over total supply) times the balance, over the BTC price in USD, all as
/// signed 256-bit decimals, and the atomics scaled down from 18 to 8 decimal
/// places, rounded toward zero.
pub open spec fn position_aum_in_btc(p: JlpPosition, btc: int) -> Result<int, PositionIssue> {
    let aum = spec_from_atomics(p.aum_usd as int, 0);
    let supply = spec_from_atomics(p.total_jlp_supply as int, p.total_jlp_supply_decimals as nat);
    let balance = spec_from_atomics(p.strategy_jlp_balance as int, p.strategy_jlp_balance_decimals as nat);
    let price = trunc_div_signed(aum * unit(), supply);
    let usd = trunc_div(price * balance, unit());
    let in_btc = trunc_div_signed(usd * unit(), btc);
    if !fits_i256(aum) || !fits_i256(supply) || !fits_i256(balance) {
        Err(PositionIssue::Range)
    } else if supply == 0 || !fits_i256(price) {
        Err(PositionIssue::Division)
    } else if !fits_i256(usd) {
        Err(PositionIssue::Overflow)
    } else if btc == 0 || !fits_i256(in_btc) {
        Err(PositionIssue::Division)
    } else {
        Ok(trunc_div(in_btc, 10_000_000_000))
    }
}

/// Computes the AUM of the strategy's JLP position in wBTC units from the BTC
/// price in USD.
pub fn calculate_aum_in_btc(data: JlpPosition, btc_price_in_usd: SignedDecimal256) -> (r: Result<Int256Parts, ContractError>)
    ensures
        match position_aum_in_btc(data, btc_price_in_usd.value()) {
            Ok(v) => r matches Ok(x) && x.value() == v,
            Err(i) => r matches Err(e) && reports_position(e, i),
        },
{
    let aum = match wide_from_atomics(data.aum_usd, 0) {
        Some(a) => a,
        None => {
            return Err(ContractError::DecimalRangeError {});
        },
    };
    let supply = match wide_from_atomics(data.total_jlp_supply, data.total_jlp_supply_decimals as u32) {
        Some(a) => a,
        None => {
            return Err(ContractError::DecimalRangeError {});
        },
    };
    let balance = match wide_from_atomics(data.strategy_jlp_balance, data.strategy_jlp_balance_decimals as u32) {
        Some(a) => a,
        None => {
            return Err(ContractError::DecimalRangeError {});
        },
    };
    let price = match wide_checked_div(aum, supply) {
        Some(p) => p,
        None => {
            return Err(ContractError::CheckedDiv {});
        },
    };
    let usd = match wide_checked_mul(price, balance) {
        Some(u) => u,
        None => {
            return Err(ContractError::OverflowError {});
        },
    };
    let btc = btc_price_in_usd.atomics;
    let in_btc = match wide_checked_div(usd, btc) {
        Some(b) => b,
        None => {
            return Err(ContractError::CheckedDiv {});
        },
    };
    Ok(trunc_div_by(in_btc, 10_000_000_000))
}

/// The agreed JLP figures while they are fresh: `NoDataPublished` when nothing was
/// agreed, `PublishedDataTooOld` once `now` is past the agreement time plus the
/// validity period.
pub fn check_published(
    published: Option<(u64, JlpPosition)>,
    consensus_data_validity_period: u64,
    now: u64,
) -> (r: Result<JlpPosition, ContractError>)
    ensures
        match published {
            None => r == Err::<JlpPosition, ContractError>(ContractError::NoDataPublished {}),
            Some((t, p)) => if now > t + consensus_data_validity_period {
                r == Err::<JlpPosition, ContractError>(ContractError::PublishedDataTooOld {})
            } else {
                r == Ok::<JlpPosition, ContractError>(p)
            },
        },
{
    match published {
        None => Err(ContractError::NoDataPublished {}),
        Some((t, p)) => {
            if now >= t && now - t > consensus_data_validity_period {
                Err(ContractError::PublishedDataTooOld {})
            } else {
                Ok(p)
            }
        },
    }
}

} // verus!
