//! The round ledger: who has contributed to a round, how much the round
//! holds, and when it is complete.

use vstd::prelude::*;
use crate::address::Address;
use crate::errors::ContractError;
use crate::roster;
use crate::types::{
    view_of, Event, GroupStatus, GroupView, RoundInfo, RoundView, SavingsGroup, Transfer,
};

verus! {

/// A round after one more contribution, the contribution that has to move
/// for it to stand, and the event that reports it.
#[derive(Debug)]
pub struct Contribution {
    pub round: RoundInfo,
    pub transfer: Transfer,
    pub event: Event,
}

/// Why `who` cannot contribute to `round`, the current round of `group` as
/// the store has it (`None` where it has none).
pub open spec fn contribute_refusal(
    group: GroupView,
    round: Option<RoundView>,
    who: Address,
) -> Option<ContractError> {
    if group.status != GroupStatus::Active {
        Some(ContractError::GroupNotActive)
    } else if !group.members.contains(who) {
        Some(ContractError::NotMember)
    } else {
        match round {
            None => Some(ContractError::RoundNotActive),
            Some(open) => if open.is_complete {
                Some(ContractError::RoundNotActive)
            } else if open.contributions.contains(who) {
                Some(ContractError::AlreadyContributed)
            } else {
                None
            },
        }
    }
}

/// `round` with the contribution of `who` added: one contribution amount
/// more in the total, and complete once as many have contributed as the
/// group has members.
pub open spec fn contributed(group: GroupView, round: RoundView, who: Address) -> RoundView {
    RoundView {
        contributions: round.contributions.push(who),
        total_contributed: (round.total_contributed + group.contribution_amount) as i128,
        is_complete: round.contributions.len() + 1 == group.members.len(),
        ..round
    }
}

/// Tells whether `member` can contribute to `round`, the current round of
/// `group` as the store has it.
pub fn permit_contribution(
    group: &SavingsGroup,
    round: Option<&RoundInfo>,
    member: Address,
) -> (ok: Result<(), ContractError>)
    ensures
        match ok {
            Ok(()) => contribute_refusal(group@, view_of(round), member) is None,
            Err(e) => contribute_refusal(group@, view_of(round), member) == Some(e),
        },
{
    if group.status != GroupStatus::Active {
        return Err(ContractError::GroupNotActive);
    }
    if !roster::contains(&group.members, &member) {
        return Err(ContractError::NotMember);
    }
    let open = match round {
        Some(r) => r,
        None => {
            return Err(ContractError::RoundNotActive);
        },
    };
    if open.is_complete {
        return Err(ContractError::RoundNotActive);
    }
    if roster::contains(&open.contributions, &member) {
        return Err(ContractError::AlreadyContributed);
    }
    Ok(())
}

/// Records the contribution of `member` to the current round of `group`.
///
/// Refused as `contribute_refusal` says; a second contribution in one round
/// is among the refusals. Otherwise the contribution amount is due from the
/// member, the member is marked, the total grows by the amount, and the
/// round is complete when every member is marked.
pub fn contribute(
    group: &SavingsGroup,
    round: Option<RoundInfo>,
    member: Address,
) -> (done: Result<Contribution, ContractError>)
    requires
        group.wf(),
        round matches Some(open) ==> open.wf(),
        contribute_refusal(group@, view_of(round), member) is None
            ==> round.unwrap().total_contributed + group.contribution_amount <= i128::MAX,
    ensures
        match done {
            Ok(c) => {
                &&& contribute_refusal(group@, view_of(round), member) is None
                &&& c.round@ == contributed(group@, round.unwrap()@, member)
                &&& c.transfer == Transfer::Collect {
                    member,
                    amount: group.contribution_amount,
                }
                &&& c.event == Event::Contributed {
                    group_id: group.id,
                    member,
                    amount: group.contribution_amount,
                }
                &&& c.round.wf()
                &&& round.unwrap()@.accumulated_in(group@) ==> c.round@.accumulated_in(group@)
            },
            Err(e) => contribute_refusal(group@, view_of(round), member) == Some(e),
        },
{
    match permit_contribution(group, round.as_ref(), member) {
        Ok(()) => {},
        Err(e) => {
            return Err(e);
        },
    }
    let mut open = round.unwrap();
    let ghost before = open@;
    open.contributions.push(member);
    open.total_contributed = open.total_contributed + group.contribution_amount;
    if open.contributions.len() == group.members.len() {
        open.is_complete = true;
    }
    proof {
        assert(open@ == contributed(group@, before, member));
        if before.accumulated_in(group@) {
            crate::laws::lemma_pot_holds_the_contributions(group@, before, member);
        }
    }
    Ok(
        Contribution {
            round: open,
            transfer: Transfer::Collect { member, amount: group.contribution_amount },
            event: Event::Contributed {
                group_id: group.id,
                member,
                amount: group.contribution_amount,
            },
        },
    )
}

/// What a lookup of a round means to the caller: a round that is not there
/// is reported as `RoundNotActive`.
pub fn get_round_status(found: Option<RoundInfo>) -> (got: Result<RoundInfo, ContractError>)
    ensures
        match found {
            Some(round) => got == Ok::<RoundInfo, ContractError>(round),
            None => got == Err::<RoundInfo, ContractError>(ContractError::RoundNotActive),
        },
{
    match found {
        Some(round) => Ok(round),
        None => Err(ContractError::RoundNotActive),
    }
}

/// Has `member` contributed to the round that the lookup found?
pub fn has_contributed(
    found: Option<&RoundInfo>,
    member: Address,
) -> (got: Result<bool, ContractError>)
    ensures
        match found {
            Some(round) => got == Ok::<bool, ContractError>(round@.has_contributed(member)),
            None => got == Err::<bool, ContractError>(ContractError::RoundNotActive),
        },
{
    match found {
        Some(round) => Ok(roster::contains(&round.contributions, &member)),
        None => Err(ContractError::RoundNotActive),
    }
}

} // verus!
