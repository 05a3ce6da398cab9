//! Why a request was refused.

use vstd::prelude::*;

verus! {

#[derive(Debug, Clone, Copy, PartialEq, Eq, Structural)]
pub enum ContractError {
    /// No escrow is stored under the id.
    NotFound {},
    /// A transfer message could not be serialized.
    SerializeErr {},
    /// The caller lacks the role the operation needs.
    Unauthorized {},
    /// The escrow is not listed as available for acceptance.
    NotListed {},
    /// The caller's trust metrics are below what the escrow requires.
    TrustMetricsInsufficient {},
    /// The escrow has already been accepted.
    AlreadyAccepted {},
    /// The escrow cannot be unaccepted now.
    CantUnaccept {},
    /// The escrow has not been accepted, or has already been fulfilled.
    CantFulfill {},
    /// The escrow has not been fulfilled yet, or has already been arbitrated.
    NotFulfilled {},
    /// The escrow was never completed, so no feedback can be left.
    NotComplete {},
    /// Only tokens of the cw20 whitelist are accepted.
    NotInWhitelist {},
    /// The escrow is expired.
    Expired {},
    /// No funds were sent to create the escrow.
    EmptyBalance {},
    /// The escrow id is already in use.
    AlreadyInUse {},
    /// The funds of one denomination sum to more than a `u128` holds.
    Overflow {},
}

impl ContractError {
    /// The sentence `message` returns.
    pub open spec fn spec_message(&self) -> Seq<char> {
        match self {
            ContractError::NotFound {} => "Escrow not found"@,
            ContractError::SerializeErr {} => "Error serializing a transfer message"@,
            ContractError::Unauthorized {} => "Unauthorized"@,
            ContractError::NotListed {} => "Contract is not listed as available for acceptance"@,
            ContractError::TrustMetricsInsufficient {} => "Sender Trust Metrics Not High Enough To Accept This Contract"@,
            ContractError::AlreadyAccepted {} => "Escrow has already been accepted"@,
            ContractError::CantUnaccept {} => "Escrow can not be unaccepted now"@,
            ContractError::CantFulfill {} => "The escrow either hasn't been accepted, or has already been fulfilled"@,
            ContractError::NotFulfilled {} => "The escrow either hasn't been fulfilled yet, or has already been arbitrated"@,
            ContractError::NotComplete {} => "The escrow was never completed so no feedback can be left"@,
            ContractError::NotInWhitelist {} => "Only accepts tokens in the cw20_whitelist"@,
            ContractError::Expired {} => "Escrow is expired"@,
            ContractError::EmptyBalance {} => "Send some coins to create an escrow"@,
            ContractError::AlreadyInUse {} => "Escrow id already in use"@,
            ContractError::Overflow {} => "Funds of one denomination sum beyond 2^128 - 1"@,
        }
    }

    /// A sentence describing the error.
    pub fn message(&self) -> (r: String)
        ensures
            r@ == self.spec_message(),
    {
        let s = match self {
            ContractError::NotFound {} => "Escrow not found",
            ContractError::SerializeErr {} => "Error serializing a transfer message",
            ContractError::Unauthorized {} => "Unauthorized",
            ContractError::NotListed {} => "Contract is not listed as available for acceptance",
            ContractError::TrustMetricsInsufficient {} =>
                "Sender Trust Metrics Not High Enough To Accept This Contract",
            ContractError::AlreadyAccepted {} => "Escrow has already been accepted",
            ContractError::CantUnaccept {} => "Escrow can not be unaccepted now",
            ContractError::CantFulfill {} =>
                "The escrow either hasn't been accepted, or has already been fulfilled",
            ContractError::NotFulfilled {} =>
                "The escrow either hasn't been fulfilled yet, or has already been arbitrated",
            ContractError::NotComplete {} =>
                "The escrow was never completed so no feedback can be left",
            ContractError::NotInWhitelist {} => "Only accepts tokens in the cw20_whitelist",
            ContractError::Expired {} => "Escrow is expired",
            ContractError::EmptyBalance {} => "Send some coins to create an escrow",
            ContractError::AlreadyInUse {} => "Escrow id already in use",
            ContractError::Overflow {} => "Funds of one denomination sum beyond 2^128 - 1",
        };
        s.to_string()
    }
}

} // verus!
