use vstd::prelude::*;

verus! {

/// Declared so that errors of the storage layer can be carried through.
#[verifier::external_type_specification]
#[verifier::external_body]
pub struct ExStdError(cosmwasm_std::StdError);

/// The errors of the voting-power ledger and of the generator controller.
#[derive(Debug)]
pub enum ContractError {
    Std(cosmwasm_std::StdError),
    Unauthorized {},
    BPSConverstionError(u128),
    BPSLimitError {},
    ZeroVotingPower {},
    MainPoolVoteProhibited(String),
    MainPoolMinAllocFailed {},
    CooldownError(u64),
    InvalidLPTokenAddress(String),
    DuplicatedPools {},
    TuneNoPools {},
    InvalidPoolNumber(u64),
    DuplicatedVoters {},
    KickVotersLimitExceeded {},
    MigrationError {},
    LockTimeLimitsError {},
    AddressBlacklisted(String),
    LockNotExpired {},
    ArithmeticOverflow {},
}

/// Relies on cosmwasm_std::StdError::generic_err: builds a generic error with a message.
#[verifier::external_body]
pub(crate) fn generic_err(msg: &str) -> (r: cosmwasm_std::StdError) {
    cosmwasm_std::StdError::generic_err(msg)
}

} // verus!
