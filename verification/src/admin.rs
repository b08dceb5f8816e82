//! The governance layer: pausing and resuming a group, raising and
//! resolving a dispute, unwinding a group in an emergency, and handing the
//! administration of a group over.

use vstd::prelude::*;
use crate::address::Address;
use crate::errors::ContractError;
use crate::escrow::{held_total, DepositLedger};
use crate::roster;
use crate::types::{
    Dispute, DisputeView, Event, GroupStatus, GroupView, SavingsGroup, Transfer,
};

verus! {

/// A group after an act of governance, whether the act ends a dispute whose
/// record is then to be taken off the ledger, and the event that reports the
/// act.
#[derive(Debug)]
pub struct Governed {
    pub group: SavingsGroup,
    pub dispute_over: bool,
    pub event: Event,
}

/// A group frozen by a dispute, the record of the dispute, and the event that
/// reports it.
#[derive(Debug)]
pub struct Raised {
    pub group: SavingsGroup,
    pub dispute: Dispute,
    pub event: Event,
}

/// A group that was unwound, what is paid out of the pool to its members,
/// whether the unwinding ends a dispute whose record is then to be taken off
/// the ledger, and the event that reports the unwinding.
#[derive(Debug)]
pub struct Unwound {
    pub group: SavingsGroup,
    pub payouts: Vec<Transfer>,
    pub dispute_over: bool,
    pub event: Event,
}

/// May `caller` govern `group`? The administrator of the group may, and the
/// administrator of the protocol.
pub open spec fn may_govern(group: GroupView, caller: Address, protocol_admin: Address) -> bool {
    caller == group.admin || caller == protocol_admin
}

/// `group` in another status.
pub open spec fn with_status(group: GroupView, status: GroupStatus) -> GroupView {
    GroupView { status, ..group }
}

/// Why `caller` cannot pause `group`.
pub open spec fn pause_refusal(
    group: GroupView,
    caller: Address,
    protocol_admin: Address,
) -> Option<ContractError> {
    if !may_govern(group, caller, protocol_admin) {
        Some(ContractError::Unauthorized)
    } else if group.status == GroupStatus::Completed {
        Some(ContractError::GroupCompleted)
    } else {
        None
    }
}

/// Why `caller` cannot bring `group` out of the status `from` and back to
/// activity.
pub open spec fn reactivate_refusal(
    group: GroupView,
    caller: Address,
    protocol_admin: Address,
    from: GroupStatus,
) -> Option<ContractError> {
    if !may_govern(group, caller, protocol_admin) {
        Some(ContractError::Unauthorized)
    } else if group.status != from {
        Some(ContractError::GroupNotActive)
    } else {
        None
    }
}

/// Why `who` cannot raise a dispute in `group`.
pub open spec fn dispute_refusal(group: GroupView, who: Address) -> Option<ContractError> {
    if !group.members.contains(who) {
        Some(ContractError::NotMember)
    } else if group.status != GroupStatus::Active {
        Some(ContractError::GroupNotActive)
    } else {
        None
    }
}

/// Why `caller` cannot unwind `group`.
pub open spec fn emergency_refusal(
    group: GroupView,
    caller: Address,
    protocol_admin: Address,
) -> Option<ContractError> {
    if caller != protocol_admin {
        Some(ContractError::Unauthorized)
    } else if group.status == GroupStatus::Completed {
        Some(ContractError::GroupCompleted)
    } else {
        None
    }
}

/// What of `balance` may be handed out when `held` is in escrow: the rest
/// above the escrow, and nothing of a balance that is not positive.
pub open spec fn distributable(balance: i128, held: int) -> int {
    if balance > 0 && balance - held > 0 {
        balance - held
    } else {
        0
    }
}

/// The equal share of each member when `group` is unwound with `balance` in
/// the pool: what may be handed out, divided by the number of members and
/// rounded down. A group without members has nobody to share with.
pub open spec fn emergency_share(
    group: GroupView,
    ledger: Map<Address, i128>,
    balance: i128,
) -> int {
    if group.members.len() == 0 {
        0
    } else {
        distributable(balance, held_total(group.members, ledger)) / (group.members.len() as int)
    }
}

/// One payment of `share` to each of `members`, in their order; none where
/// the share is not positive.
pub open spec fn equal_payouts(members: Seq<Address>, share: int) -> Seq<Transfer> {
    if share > 0 {
        Seq::new(
            members.len(),
            |i: int| Transfer::Pay { member: members[i], amount: share as i128 },
        )
    } else {
        Seq::empty()
    }
}

/// What is paid out when `group` is unwound with `balance` in the pool.
pub open spec fn emergency_payouts(
    group: GroupView,
    ledger: Map<Address, i128>,
    balance: i128,
) -> Seq<Transfer> {
    if distributable(balance, held_total(group.members, ledger)) > 0 {
        equal_payouts(group.members, emergency_share(group, ledger, balance))
    } else {
        Seq::empty()
    }
}

/// Why `caller` cannot hand `group` over to another administrator. A
/// completed group keeps the administrator it has.
pub open spec fn handover_refusal(group: GroupView, caller: Address) -> Option<ContractError> {
    if caller != group.admin {
        Some(ContractError::Unauthorized)
    } else if group.status == GroupStatus::Completed {
        Some(ContractError::GroupCompleted)
    } else {
        None
    }
}

/// Pauses a group that is not completed, whatever its status. Pausing a
/// disputed group ends its dispute.
pub fn pause_group(
    group: SavingsGroup,
    caller: Address,
    protocol_admin: Address,
) -> (done: Result<Governed, ContractError>)
    ensures
        match done {
            Ok(paused) => {
                &&& pause_refusal(group@, caller, protocol_admin) is None
                &&& paused.group@ == with_status(group@, GroupStatus::Paused)
                &&& paused.dispute_over == (group.status == GroupStatus::Disputed)
                &&& paused.event == Event::GroupPaused { group_id: group.id }
            },
            Err(e) => pause_refusal(group@, caller, protocol_admin) == Some(e),
        },
{
    if caller != group.admin && caller != protocol_admin {
        return Err(ContractError::Unauthorized);
    }
    if group.status == GroupStatus::Completed {
        return Err(ContractError::GroupCompleted);
    }
    let dispute_over = group.status == GroupStatus::Disputed;
    let mut group = group;
    group.status = GroupStatus::Paused;
    let event = Event::GroupPaused { group_id: group.id };
    Ok(Governed { group, dispute_over, event })
}

/// Brings a paused group back to activity.
pub fn resume_group(
    group: SavingsGroup,
    caller: Address,
    protocol_admin: Address,
) -> (done: Result<Governed, ContractError>)
    ensures
        match done {
            Ok(resumed) => {
                &&& reactivate_refusal(group@, caller, protocol_admin, GroupStatus::Paused) is None
                &&& resumed.group@ == with_status(group@, GroupStatus::Active)
                &&& !resumed.dispute_over
                &&& resumed.event == Event::GroupResumed { group_id: group.id }
            },
            Err(e) => reactivate_refusal(group@, caller, protocol_admin, GroupStatus::Paused)
                == Some(e),
        },
{
    if caller != group.admin && caller != protocol_admin {
        return Err(ContractError::Unauthorized);
    }
    if group.status != GroupStatus::Paused {
        return Err(ContractError::GroupNotActive);
    }
    let mut group = group;
    group.status = GroupStatus::Active;
    let event = Event::GroupResumed { group_id: group.id };
    Ok(Governed { group, dispute_over: false, event })
}

/// Freezes an active group on the word of one of its members, at the time
/// `now`, and makes the record of the dispute.
pub fn raise_dispute(
    group: SavingsGroup,
    member: Address,
    reason: String,
    now: u64,
) -> (done: Result<Raised, ContractError>)
    ensures
        match done {
            Ok(raised) => {
                &&& dispute_refusal(group@, member) is None
                &&& raised.group@ == with_status(group@, GroupStatus::Disputed)
                &&& raised.dispute@ == DisputeView {
                    raised_by: member,
                    reason: reason@,
                    raised_at: now,
                }
                &&& raised.event == Event::DisputeRaised { group_id: group.id, member }
            },
            Err(e) => dispute_refusal(group@, member) == Some(e),
        },
{
    if !roster::contains(&group.members, &member) {
        return Err(ContractError::NotMember);
    }
    if group.status != GroupStatus::Active {
        return Err(ContractError::GroupNotActive);
    }
    let mut group = group;
    group.status = GroupStatus::Disputed;
    let event = Event::DisputeRaised { group_id: group.id, member };
    Ok(Raised { group, dispute: Dispute { raised_by: member, reason, raised_at: now }, event })
}

/// Brings a disputed group back to activity; its dispute is then over.
pub fn resolve_dispute(
    group: SavingsGroup,
    caller: Address,
    protocol_admin: Address,
) -> (done: Result<Governed, ContractError>)
    ensures
        match done {
            Ok(resolved) => {
                &&& reactivate_refusal(group@, caller, protocol_admin, GroupStatus::Disputed)
                    is None
                &&& resolved.group@ == with_status(group@, GroupStatus::Active)
                &&& resolved.dispute_over
                &&& resolved.event == Event::DisputeResolved { group_id: group.id }
            },
            Err(e) => reactivate_refusal(group@, caller, protocol_admin, GroupStatus::Disputed)
                == Some(e),
        },
{
    if caller != group.admin && caller != protocol_admin {
        return Err(ContractError::Unauthorized);
    }
    if group.status != GroupStatus::Disputed {
        return Err(ContractError::GroupNotActive);
    }
    let mut group = group;
    group.status = GroupStatus::Active;
    let event = Event::DisputeResolved { group_id: group.id };
    Ok(Governed { group, dispute_over: true, event })
}

/// Tells whether `caller` can unwind `group`.
pub fn permit_emergency(
    group: &SavingsGroup,
    caller: Address,
    protocol_admin: Address,
) -> (ok: Result<(), ContractError>)
    ensures
        match ok {
            Ok(()) => emergency_refusal(group@, caller, protocol_admin) is None,
            Err(e) => emergency_refusal(group@, caller, protocol_admin) == Some(e),
        },
{
    if caller != protocol_admin {
        return Err(ContractError::Unauthorized);
    }
    if group.status == GroupStatus::Completed {
        return Err(ContractError::GroupCompleted);
    }
    Ok(())
}

/// Unwinds a group that is not completed, on the word of the administrator
/// of the protocol, with `balance` as what the pool holds of the group's
/// token.
///
/// What the pool holds above the escrowed deposits of the members is split
/// into equal shares, rounded down, one for each member; the remainder and
/// the deposits stay in the pool. With nothing above the deposits, or with
/// no member to pay, nobody is paid. Either way the group is completed, and
/// a dispute it was in is over.
pub fn emergency_withdraw(
    group: SavingsGroup,
    deposits: &DepositLedger,
    caller: Address,
    protocol_admin: Address,
    balance: i128,
) -> (done: Result<Unwound, ContractError>)
    ensures
        match done {
            Ok(unwound) => {
                &&& emergency_refusal(group@, caller, protocol_admin) is None
                &&& unwound.group@ == with_status(group@, GroupStatus::Completed)
                &&& unwound.payouts@ == emergency_payouts(group@, deposits@, balance)
                &&& unwound.dispute_over == (group.status == GroupStatus::Disputed)
                &&& unwound.event == Event::EmergencyWithdrawn { group_id: group.id }
            },
            Err(e) => emergency_refusal(group@, caller, protocol_admin) == Some(e),
        },
{
    match permit_emergency(&group, caller, protocol_admin) {
        Ok(()) => {},
        Err(e) => {
            return Err(e);
        },
    }
    let mut payouts: Vec<Transfer> = Vec::new();
    let count = group.members.len();
    if balance > 0 && count > 0 {
        // an escrow beyond the machine's numbers is beyond any balance
        let rest = match deposits.checked_total_held(&group.members) {
            Some(held) => balance - held,
            None => 0,
        };
        if rest > 0 {
            let share = rest / (count as i128);
            if share > 0 {
                let mut i: usize = 0;
                while i < count
                    invariant
                        i <= count,
                        count == group.members.len(),
                        share > 0,
                        payouts@ == Seq::new(
                            i as nat,
                            |k: int| Transfer::Pay { member: group.members@[k], amount: share },
                        ),
                    decreases count - i,
                {
                    payouts.push(Transfer::Pay { member: group.members[i], amount: share });
                    proof {
                        assert(payouts@ =~= Seq::new(
                            (i + 1) as nat,
                            |k: int| Transfer::Pay { member: group.members@[k], amount: share },
                        ));
                    }
                    i += 1;
                }
                proof {
                    assert(payouts@ =~= equal_payouts(group@.members, share as int));
                }
            }
        }
    }
    let dispute_over = group.status == GroupStatus::Disputed;
    let mut group = group;
    group.status = GroupStatus::Completed;
    let event = Event::EmergencyWithdrawn { group_id: group.id };
    Ok(Unwound { group, payouts, dispute_over, event })
}

/// Hands the administration of a group that is not completed over to
/// `new_admin`.
pub fn set_group_admin(
    group: SavingsGroup,
    current_admin: Address,
    new_admin: Address,
) -> (done: Result<Governed, ContractError>)
    ensures
        match done {
            Ok(handed) => {
                &&& handover_refusal(group@, current_admin) is None
                &&& handed.group@ == (GroupView { admin: new_admin, ..group@ })
                &&& !handed.dispute_over
                &&& handed.event == Event::AdminChanged { group_id: group.id, new_admin }
            },
            Err(e) => handover_refusal(group@, current_admin) == Some(e),
        },
{
    if current_admin != group.admin {
        return Err(ContractError::Unauthorized);
    }
    if group.status == GroupStatus::Completed {
        return Err(ContractError::GroupCompleted);
    }
    let mut group = group;
    group.admin = new_admin;
    let event = Event::AdminChanged { group_id: group.id, new_admin };
    Ok(Governed { group, dispute_over: false, event })
}

} // verus!
