use crate::consensus::Round;
use crate::decimal::Int256Parts;
use vstd::prelude::*;

verus! {

/// The number of decimal places of uwBTC amounts.
pub const WBTC_DECIMALS: u32 = 8;

/// The pending round and the one after it.
#[derive(Clone, Copy, Debug, PartialEq, Eq, Structural)]
pub struct RoundInfoResponse {
    pub pending_round: Round,
    pub next_round: Round,
}

/// The latest AUM in uwBTC, with the number of decimal places it is given in.
#[derive(Clone, Copy, Debug, PartialEq, Eq, Structural)]
pub struct GetAumResponse {
    pub aum_in_wbtc: Int256Parts,
    pub decimals: u32,
}

/// The response for an AUM in uwBTC.
pub fn aum_response_from_uwbtc(aum_in_wbtc: Int256Parts) -> (r: GetAumResponse)
    ensures
        r == (GetAumResponse { aum_in_wbtc, decimals: WBTC_DECIMALS }),
{
    GetAumResponse { aum_in_wbtc, decimals: WBTC_DECIMALS }
}

/// The pending round and the round that follows it.
pub fn query_round_info(pending_round: &Round, round_length: u64) -> (r: RoundInfoResponse)
    requires
        pending_round.round + 1 <= u64::MAX,
        pending_round.start + round_length <= u64::MAX,
    ensures
        r.pending_round == *pending_round,
        r.next_round == (Round { round: (pending_round.round + 1) as u64, start: (pending_round.start + round_length) as u64 }),
{
    RoundInfoResponse { pending_round: *pending_round, next_round: pending_round.next_round(round_length) }
}

} // verus!
