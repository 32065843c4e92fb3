//! Errors raised by the instructions.
use vstd::prelude::*;

verus! {

/// The program's own error kinds.
#[derive(Clone, Copy, Debug, PartialEq, Eq, Structural)]
pub enum ErrorCode {
    /// The recipient is not the program's registered upgrade authority.
    UpgradeAuthorityMismatch,
}

/// Every way an instruction can fail.
#[derive(Clone, Copy, Debug, PartialEq, Eq, Structural)]
pub enum ProgramError {
    /// An error kind of this program.
    Custom(ErrorCode),
    /// An account's address is not the one derived from its seeds.
    ConstraintSeeds,
    /// The account to create already holds data or belongs to another program.
    AccountAlreadyInUse,
    /// The payer cannot fund the new account.
    InsufficientFunds,
    /// The payer and the account to create are the same account.
    PayerIsNewAccount,
    /// A lamport sum does not fit in 64 bits.
    ArithmeticOverflow,
    /// The record's bytes are too short to hold a discriminator.
    AccountDiscriminatorNotFound,
    /// The record's discriminator is not the counter's.
    AccountDiscriminatorMismatch,
    /// The record's bytes are too short to hold a counter.
    AccountDidNotDeserialize,
}

} // verus!
