//! The payout engine: settling a complete round, and opening the next round
//! or completing the group.

use vstd::prelude::*;
use crate::address::Address;
use crate::errors::ContractError;
use crate::escrow::{refunds, DepositLedger};
use crate::group::round_opened;
use crate::types::{
    view_of, Event, GroupStatus, GroupView, RoundInfo, RoundView, SavingsGroup, Transfer,
};

verus! {

/// What settling a round comes to: the group and its escrow afterwards, the
/// pot that goes to the recipient, the deposits that go back when the group
/// completes, the round that opens when it does not, and the events that
/// report all this.
#[derive(Debug)]
pub struct Settlement {
    pub group: SavingsGroup,
    pub deposits: DepositLedger,
    pub payout: Transfer,
    pub refunds: Vec<Transfer>,
    pub next_round: Option<RoundInfo>,
    pub events: Vec<Event>,
}

/// Why `round`, the current round of `group` as the store has it, cannot be
/// settled.
pub open spec fn payout_refusal(
    group: GroupView,
    round: Option<RoundView>,
) -> Option<ContractError> {
    if group.status != GroupStatus::Active {
        Some(ContractError::GroupNotActive)
    } else {
        match round {
            None => Some(ContractError::RoundNotActive),
            Some(current) => if !current.is_complete {
                Some(ContractError::RoundNotComplete)
            } else {
                None
            },
        }
    }
}

/// Is the current round of `group` its last?
pub open spec fn in_last_round(group: GroupView) -> bool {
    group.current_round >= group.total_rounds
}

/// `group` after its current round was settled: completed after the last
/// round, one round further otherwise.
pub open spec fn settled(group: GroupView) -> GroupView {
    if in_last_round(group) {
        GroupView { status: GroupStatus::Completed, ..group }
    } else {
        GroupView { current_round: (group.current_round + 1) as u32, ..group }
    }
}

/// The deposits that go back when `group` settles its current round: those
/// of all members when the group completes and holds deposits at all.
pub open spec fn settled_refunds(group: GroupView, ledger: Map<Address, i128>) -> Seq<Transfer> {
    if in_last_round(group) && group.deposit_amount > 0 {
        refunds(group.members, ledger)
    } else {
        Seq::empty()
    }
}

/// The escrow after `group` settled its current round: what went back is
/// no longer held.
pub open spec fn settled_escrow(
    group: GroupView,
    ledger: Map<Address, i128>,
) -> Map<Address, i128> {
    if in_last_round(group) && group.deposit_amount > 0 {
        ledger.remove_keys(group.members.to_set())
    } else {
        ledger
    }
}

/// The events of the settlement of `round`, the current round of `group`:
/// the payout, and then the completion of the group or the new round.
pub open spec fn settled_events(group: GroupView, round: RoundView) -> Seq<Event> {
    seq![
        Event::PayoutDistributed {
            group_id: group.id,
            recipient: round.recipient,
            amount: round.total_contributed,
        },
        if in_last_round(group) {
            Event::GroupCompleted { group_id: group.id }
        } else {
            Event::RoundOpened { group_id: group.id, round: (group.current_round + 1) as u32 }
        },
    ]
}

/// The round that opens at `now` when `group` settles its current round.
pub open spec fn settled_next_round(group: GroupView, now: u64) -> Option<RoundView> {
    if in_last_round(group) {
        None
    } else {
        Some(round_opened(group, (group.current_round + 1) as u32, now))
    }
}

/// Tells whether `round`, the current round of `group` as the store has it,
/// can be settled.
pub fn permit_payout(
    group: &SavingsGroup,
    round: Option<&RoundInfo>,
) -> (ok: Result<(), ContractError>)
    ensures
        match ok {
            Ok(()) => payout_refusal(group@, view_of(round)) is None,
            Err(e) => payout_refusal(group@, view_of(round)) == Some(e),
        },
{
    if group.status != GroupStatus::Active {
        return Err(ContractError::GroupNotActive);
    }
    let current = match round {
        Some(r) => r,
        None => {
            return Err(ContractError::RoundNotActive);
        },
    };
    if !current.is_complete {
        return Err(ContractError::RoundNotComplete);
    }
    Ok(())
}

/// Settles the current round of `group` at the time `now`. Anyone may ask.
///
/// Refused as `payout_refusal` says: only a complete round of an active
/// group is settled. Otherwise the whole total of the round goes to its
/// recipient. After the last round the group is completed and every member
/// gets back what the escrow holds for them; after any other round the next
/// one opens, for the next member of the payout order and until
/// `now + cycle_length`.
pub fn distribute_payout(
    group: SavingsGroup,
    round: Option<&RoundInfo>,
    deposits: DepositLedger,
    now: u64,
) -> (done: Result<Settlement, ContractError>)
    requires
        group.wf(),
        payout_refusal(group@, view_of(round)) is None && !in_last_round(group@) ==> now
            + group.cycle_length <= u64::MAX,
    ensures
        match done {
            Ok(s) => {
                &&& payout_refusal(group@, view_of(round)) is None
                &&& s.payout == Transfer::Pay {
                    member: round.unwrap().recipient,
                    amount: round.unwrap().total_contributed,
                }
                &&& s.group@ == settled(group@)
                &&& s.refunds@ == settled_refunds(group@, deposits@)
                &&& s.deposits@ == settled_escrow(group@, deposits@)
                &&& view_of(s.next_round) == settled_next_round(group@, now)
                &&& s.events@ == settled_events(group@, round.unwrap()@)
                &&& s.group.wf()
                &&& s.next_round matches Some(next) ==> next.wf() && next@.accumulated_in(
                    s.group@,
                )
            },
            Err(e) => payout_refusal(group@, view_of(round)) == Some(e),
        },
{
    match permit_payout(&group, round) {
        Ok(()) => {},
        Err(e) => {
            return Err(e);
        },
    }
    let current = round.unwrap();
    let payout = Transfer::Pay { member: current.recipient, amount: current.total_contributed };
    let mut events: Vec<Event> = Vec::new();
    events.push(
        Event::PayoutDistributed {
            group_id: group.id,
            recipient: current.recipient,
            amount: current.total_contributed,
        },
    );
    let ghost before = group@;
    let mut group = group;
    let mut deposits = deposits;
    if group.current_round >= group.total_rounds {
        group.status = GroupStatus::Completed;
        let refunds = if group.deposit_amount > 0 {
            deposits.refund_all(&group.members)
        } else {
            Vec::new()
        };
        events.push(Event::GroupCompleted { group_id: group.id });
        proof {
            assert(group@ == settled(before));
            assert(events@ =~= settled_events(before, current@));
        }
        Ok(Settlement { group, deposits, payout, refunds, next_round: None, events })
    } else {
        group.current_round = group.current_round + 1;
        let next = RoundInfo {
            round_number: group.current_round,
            recipient: group.payout_order[(group.current_round - 1) as usize],
            contributions: Vec::new(),
            total_contributed: 0,
            is_complete: false,
            deadline: now + group.cycle_length,
        };
        events.push(Event::RoundOpened { group_id: group.id, round: group.current_round });
        proof {
            assert(group@ == settled(before));
            assert(next@.contributions =~= Seq::<Address>::empty());
            assert(events@ =~= settled_events(before, current@));
        }
        Ok(
            Settlement {
                group,
                deposits,
                payout,
                refunds: Vec::new(),
                next_round: Some(next),
                events,
            },
        )
    }
}

/// The payout order of the group that the lookup found.
pub fn get_payout_order(found: Option<&SavingsGroup>) -> (got: Result<Vec<Address>, ContractError>)
    ensures
        match found {
            Some(group) => got matches Ok(order) && order@ == group@.payout_order,
            None => got == Err::<Vec<Address>, ContractError>(ContractError::GroupNotFound),
        },
{
    match found {
        Some(group) => Ok(group.payout_order.clone()),
        None => Err(ContractError::GroupNotFound),
    }
}

/// Why nobody is the current recipient of the group and round that the
/// lookups found.
pub open spec fn recipient_refusal(
    group: Option<GroupView>,
    round: Option<RoundView>,
) -> Option<ContractError> {
    match group {
        None => Some(ContractError::GroupNotFound),
        Some(g) => if g.status != GroupStatus::Active {
            Some(ContractError::GroupNotActive)
        } else if round is None {
            Some(ContractError::RoundNotActive)
        } else {
            None
        },
    }
}

/// Who receives the pot of the current round of an active group.
pub fn get_current_recipient(
    found: Option<&SavingsGroup>,
    round: Option<&RoundInfo>,
) -> (got: Result<Address, ContractError>)
    ensures
        match got {
            Ok(who) => recipient_refusal(view_of(found), view_of(round)) is None
                && who == round.unwrap().recipient,
            Err(e) => recipient_refusal(view_of(found), view_of(round)) == Some(e),
        },
{
    let group = match found {
        Some(g) => g,
        None => {
            return Err(ContractError::GroupNotFound);
        },
    };
    if group.status != GroupStatus::Active {
        return Err(ContractError::GroupNotActive);
    }
    match round {
        Some(current) => Ok(current.recipient),
        None => Err(ContractError::RoundNotActive),
    }
}

} // verus!
