//! The failures a ledger call can end in.

use cosmwasm_std::StdError;
use vstd::prelude::*;

verus! {

/// `cosmwasm_std::StdError`, the error of the storage helpers. The ledger
/// never looks inside one: it only carries it to the caller.
#[verifier::external_type_specification]
#[verifier::external_body]
pub struct ExStdError(StdError);

/// Which failure a [`ContractError`] is, without what it carries.
#[derive(Clone, Copy, Debug, PartialEq, Eq, Structural)]
pub enum ErrorKind {
    /// The submitted amount is missing or is no unsigned decimal number.
    Validation,
    /// A sum left the range of an amount.
    ArithmeticOverflow,
    /// The ledger was used before it was set up.
    NotInitialized,
    /// The ledger was set up a second time.
    Reinitialization,
    /// The store failed; the cause is carried as it came.
    Store,
}

/// The error of every ledger call.
#[derive(Debug)]
pub enum ContractError {
    /// The submitted amount is missing or is no unsigned decimal number.
    Validation,
    /// A sum left the range of an amount.
    ArithmeticOverflow,
    /// The ledger was used before it was set up.
    NotInitialized,
    /// The ledger was set up a second time.
    Reinitialization,
    /// The store failed; the cause is carried as it came.
    Store(StdError),
}

impl ContractError {
    /// The failure this error stands for.
    pub open spec fn kind_of(self) -> ErrorKind {
        match self {
            ContractError::Validation => ErrorKind::Validation,
            ContractError::ArithmeticOverflow => ErrorKind::ArithmeticOverflow,
            ContractError::NotInitialized => ErrorKind::NotInitialized,
            ContractError::Reinitialization => ErrorKind::Reinitialization,
            ContractError::Store(_) => ErrorKind::Store,
        }
    }

    /// The failure this error stands for.
    pub fn kind(&self) -> (k: ErrorKind)
        ensures
            k == self.kind_of(),
    {
        match self {
            ContractError::Validation => ErrorKind::Validation,
            ContractError::ArithmeticOverflow => ErrorKind::ArithmeticOverflow,
            ContractError::NotInitialized => ErrorKind::NotInitialized,
            ContractError::Reinitialization => ErrorKind::Reinitialization,
            ContractError::Store(_) => ErrorKind::Store,
        }
    }
}

impl From<StdError> for ContractError {
    fn from(cause: StdError) -> (e: ContractError) {
        ContractError::Store(cause)
    }
}

impl vstd::std_specs::convert::FromSpecImpl<StdError> for ContractError {
    open spec fn obeys_from_spec() -> bool {
        true
    }

    open spec fn from_spec(cause: StdError) -> ContractError {
        ContractError::Store(cause)
    }
}

} // verus!
