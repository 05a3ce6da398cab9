//! Requests and responses.

use vstd::prelude::*;

use crate::balance::Coin;
use crate::state::key_bytes;
use crate::trust::TrustMetrics;

verus! {

#[derive(Debug, Clone, Copy, PartialEq, Eq, Structural)]
pub struct InstantiateMsg {}

/// Every operation a caller can request.
#[derive(Debug)]
pub enum ExecuteMsg {
    ElArbitrate(String, ArbitrateMsg),
    CCreate(CreateMsg),
    FAccept { id: String },
    CCancel { id: String },
    FUnaccept { id: String },
    CChange(CreateMsg),
    FComplete { id: String },
    CReqArbitration { id: String },
    CComplete { id: String },
    CFeedback(String, FeedbackMsg),
    FFeedback(String, FeedbackMsg),
}

/// What a cw20 token contract may ask for when it sends tokens here.
#[derive(Debug)]
pub enum ReceiveMsg {
    CCreate(CreateMsg),
}

#[derive(Debug)]
pub struct CreateMsg {
    /// a human-readable name for the escrow, 3-20 bytes of utf-8 text
    pub id: String,
    /// arbiter can decide to approve or refund the escrow
    pub arbiter: String,
    /// when set and the block height exceeds it, the escrow is expired
    pub end_height: Option<u64>,
    /// when set (in seconds since the epoch) and the block time exceeds it,
    /// the escrow is expired
    pub end_time: Option<u64>,
    /// exchange rate desired, in Bolivares per UST
    pub exchange_rate: u128,
    /// besides the token sent with the request, the cw20 token contracts
    /// accepted during a top-up
    pub cw20_whitelist: Option<Vec<String>>,
    /// the least trust metrics a fulfiller needs to accept
    pub required_trust_metrics: TrustMetrics,
}

#[derive(Debug)]
pub struct ArbitrateMsg {
    pub reciever: String,
}

#[derive(Debug)]
pub struct FeedbackMsg {
    pub comment: String,
    pub satisfied: bool,
}

#[derive(Debug)]
pub enum QueryMsg {
    /// Show all open escrows.
    List {},
    /// The details of the named escrow.
    Details { id: String },
}

#[derive(Debug)]
pub struct ListResponse {
    /// all registered ids
    pub escrows: Vec<String>,
}

/// A cw20 holding as reported to callers.
#[derive(Debug)]
pub struct Cw20Coin {
    pub address: String,
    pub amount: u128,
}

#[derive(Debug)]
pub struct DetailsResponse {
    pub id: String,
    pub arbiter: String,
    pub fulfiller: String,
    pub creator: String,
    pub end_height: Option<u64>,
    pub end_time: Option<u64>,
    pub native_balance: Vec<Coin>,
    pub cw20_balance: Vec<Cw20Coin>,
    pub cw20_whitelist: Vec<String>,
}

/// Whether `name` is 3 to 20 bytes long.
pub fn is_valid_name(name: &str) -> (r: bool)
    ensures
        r == (3 <= key_bytes(name@).len() <= 20),
{
    let n = name.as_bytes().len();
    if n < 3 || n > 20 {
        return false;
    }
    true
}

} // verus!
