//! The requests the ledger answers, and who sent them.

use crate::amount::parse_amount;
use crate::amount::parsed;
use crate::error::ContractError;
use vstd::prelude::*;
use vstd::utf8::encode_utf8;

verus! {

/// Sets the ledger up. It carries nothing.
#[derive(Clone, Copy, Debug, PartialEq, Eq)]
pub struct InstantiateMsg {}

/// A request that changes the ledger.
#[derive(Clone, Copy, Debug, PartialEq, Eq)]
pub enum ExecuteMsg {
    /// Contribute `amount` under the sender's identity.
    Add { amount: u128 },
}

impl ExecuteMsg {
    /// The request to contribute, from the amount as it came in: a text of
    /// decimal digits. An amount that is missing or is no such text is the
    /// caller's error.
    pub fn parse_add(amount: Option<&str>) -> (r: Result<ExecuteMsg, ContractError>)
        ensures
            match amount {
                Some(text) => match parsed(encode_utf8(text@)) {
                    Some(value) => r == Ok::<ExecuteMsg, ContractError>(
                        (ExecuteMsg::Add { amount: value }),
                    ),
                    None => r == Err::<ExecuteMsg, ContractError>(ContractError::Validation),
                },
                None => r == Err::<ExecuteMsg, ContractError>(ContractError::Validation),
            },
    {
        match amount {
            Some(text) => match parse_amount(text) {
                Ok(value) => Ok(ExecuteMsg::Add { amount: value }),
                Err(refused) => Err(refused),
            },
            None => Err(ContractError::Validation),
        }
    }
}

/// A request that only reads the ledger.
#[derive(Clone, Copy, Debug, PartialEq, Eq)]
pub enum QueryMsg {
    /// The pool total.
    Total {},
}

/// What the ledger knows of the caller: their identity, as it was handed in.
#[derive(Clone, Debug, PartialEq, Eq)]
pub struct MessageInfo {
    pub sender: String,
}

} // verus!
