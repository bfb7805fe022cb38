//! What can go wrong while a transaction is executed.
use vstd::prelude::*;

verus! {

/// Why the circuit admits no proof of a transaction.
#[derive(Clone, Copy, Debug, PartialEq, Eq, Structural)]
pub enum CircuitRejection {
    /// No position of the transaction belongs to the account that a witness opens.
    UnmatchedWitness,
    /// A regular private account declares an authorization without a credential.
    AuthorizationMismatch,
    /// A credential does not derive the keys of the account it is shown for.
    CredentialMismatch,
    /// A program-derived private account declares an authorization of its own.
    RootPdaAuthorization,
    /// The validity windows of the programs have no time in common.
    EmptyValidityWindow,
}

#[derive(Debug)]
pub enum LeeError {
    /// A shard could not be fetched.
    AccountResolution(String),
    /// A program run failed.
    ProgramProveFailed(String),
    /// A program answered what it may not answer.
    InvalidProgramBehavior,
    /// The circuit rejects the transaction.
    CircuitProvingError(CircuitRejection),
}

} // verus!
