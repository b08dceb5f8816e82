//! The ways in which a call can be refused.

use vstd::prelude::*;

verus! {

/// Why a call was refused. A refused call changes nothing.
#[derive(Clone, Copy, Debug, PartialEq, Eq, PartialOrd, Ord, Hash, Structural)]
pub enum ContractError {
    NotInitialized,
    AlreadyInitialized,
    Unauthorized,
    GroupNotFound,
    GroupFull,
    AlreadyMember,
    NotMember,
    GroupNotActive,
    AlreadyContributed,
    RoundNotActive,
    InvalidAmount,
    GroupNotForming,
    PayoutFailed,
    GroupPaused,
    DisputeActive,
    InsufficientMembers,
    RoundNotComplete,
    GroupCompleted,
    TemplateNotFound,
    TemplateLimitReached,
}

} // verus!
