use vstd::prelude::*;

verus! {

/// The error taxonomy of the engine.
///
/// - `NotFound`: averaging was requested over an empty division sequence.
/// - `ChangeLimitError`: a temporal invariant was violated (e.g. a division
///   constructed with `updated_at < started_at`).
/// - `OverflowError`: a checked addition, subtraction or multiplication left
///   the representable range.
/// - `DivideByZeroError`: an average was requested over zero elapsed time.
#[derive(Debug)]
pub enum ContractError {
    NotFound { kind: String },
    ChangeLimitError { msg: String },
    OverflowError,
    DivideByZeroError,
}

impl ContractError {
    pub fn not_found(kind: &str) -> (r: ContractError)
        ensures
            r matches ContractError::NotFound { kind: k } && k@ == kind@,
    {
        ContractError::NotFound { kind: kind.to_owned() }
    }

    pub fn change_limit_error(msg: &str) -> (r: ContractError)
        ensures
            r matches ContractError::ChangeLimitError { msg: m } && m@ == msg@,
    {
        ContractError::ChangeLimitError { msg: msg.to_owned() }
    }
}

impl PartialEq for ContractError {
    fn eq(&self, other: &Self) -> bool {
        match (self, other) {
            (ContractError::NotFound { kind: a }, ContractError::NotFound { kind: b }) => *a == *b,
            (
                ContractError::ChangeLimitError { msg: a },
                ContractError::ChangeLimitError { msg: b },
            ) => *a == *b,
            (ContractError::OverflowError, ContractError::OverflowError) => true,
            (ContractError::DivideByZeroError, ContractError::DivideByZeroError) => true,
            _ => false,
        }
    }
}

impl vstd::std_specs::cmp::PartialEqSpecImpl for ContractError {
    open spec fn obeys_eq_spec() -> bool {
        true
    }

    open spec fn eq_spec(&self, other: &Self) -> bool {
        match (self, other) {
            (ContractError::NotFound { kind: a }, ContractError::NotFound { kind: b }) => a@ == b@,
            (
                ContractError::ChangeLimitError { msg: a },
                ContractError::ChangeLimitError { msg: b },
            ) => a@ == b@,
            (ContractError::OverflowError, ContractError::OverflowError) => true,
            (ContractError::DivideByZeroError, ContractError::DivideByZeroError) => true,
            _ => false,
        }
    }
}

} // verus!
