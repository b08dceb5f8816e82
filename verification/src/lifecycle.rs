//! The lifecycle of a group as a state machine: the moves that change a
//! group, when each is refused, what each leaves behind, and what holds of
//! a group whatever moves are made.

use vstd::prelude::*;
use crate::address::Address;
use crate::admin::{
    dispute_refusal, emergency_refusal, handover_refusal, pause_refusal, reactivate_refusal,
    with_status,
};
use crate::errors::ContractError;
use crate::group::{join_refusal, joined, leave_refusal, left, start_refusal, started};
use crate::payout::{payout_refusal, settled};
use crate::roster;
use crate::types::{GroupStatus, GroupView, RoundView};

verus! {

/// One call that changes a group, with the inputs that decide what it does
/// to the group.
pub enum Move {
    /// `join_group` by the member.
    Join { member: Address },
    /// `leave_group` by the member.
    Leave { member: Address },
    /// `start_group` by the caller.
    Start { caller: Address },
    /// `distribute_payout`, with the current round as the store has it.
    Settle { round: Option<RoundView> },
    /// `pause_group` by the caller.
    Pause { caller: Address, protocol_admin: Address },
    /// `resume_group` by the caller.
    Resume { caller: Address, protocol_admin: Address },
    /// `raise_dispute` by the member.
    Dispute { member: Address },
    /// `resolve_dispute` by the caller.
    Resolve { caller: Address, protocol_admin: Address },
    /// `emergency_withdraw` by the caller.
    Unwind { caller: Address, protocol_admin: Address },
    /// `set_group_admin` by the caller.
    Handover { caller: Address, new_admin: Address },
}

/// Why `group` refuses the move; `None` where it makes it.
pub open spec fn refusal(group: GroupView, mv: Move) -> Option<ContractError> {
    match mv {
        Move::Join { member } => join_refusal(group, member),
        Move::Leave { member } => leave_refusal(group, member),
        Move::Start { caller } => start_refusal(group, caller),
        Move::Settle { round } => payout_refusal(group, round),
        Move::Pause { caller, protocol_admin } => pause_refusal(group, caller, protocol_admin),
        Move::Resume { caller, protocol_admin } => reactivate_refusal(
            group,
            caller,
            protocol_admin,
            GroupStatus::Paused,
        ),
        Move::Dispute { member } => dispute_refusal(group, member),
        Move::Resolve { caller, protocol_admin } => reactivate_refusal(
            group,
            caller,
            protocol_admin,
            GroupStatus::Disputed,
        ),
        Move::Unwind { caller, protocol_admin } => emergency_refusal(group, caller, protocol_admin),
        Move::Handover { caller, .. } => handover_refusal(group, caller),
    }
}

/// `group` after the move; a refused move leaves it as it is.
pub open spec fn after(group: GroupView, mv: Move) -> GroupView {
    if refusal(group, mv) is Some {
        group
    } else {
        match mv {
            Move::Join { member } => joined(group, member),
            Move::Leave { member } => left(group, member),
            Move::Start { .. } => started(group),
            Move::Settle { .. } => settled(group),
            Move::Pause { .. } => with_status(group, GroupStatus::Paused),
            Move::Resume { .. } => with_status(group, GroupStatus::Active),
            Move::Dispute { .. } => with_status(group, GroupStatus::Disputed),
            Move::Resolve { .. } => with_status(group, GroupStatus::Active),
            Move::Unwind { .. } => with_status(group, GroupStatus::Completed),
            Move::Handover { new_admin, .. } => GroupView { admin: new_admin, ..group },
        }
    }
}

/// `group` after the moves, made one after the other.
pub open spec fn after_all(group: GroupView, moves: Seq<Move>) -> GroupView
    decreases moves.len(),
{
    if moves.len() == 0 {
        group
    } else {
        after(after_all(group, moves.drop_last()), moves.last())
    }
}

/// A well-formed group stays well-formed under every move. In particular it
/// never has more members than its capacity allows, and never one twice.
pub proof fn lemma_move_keeps_wf(group: GroupView, mv: Move)
    requires
        group.wf(),
    ensures
        after(group, mv).wf(),
        after(group, mv).members.len() <= after(group, mv).max_members,
{
    match mv {
        Move::Leave { member } => {
            roster::lemma_without_unique(group.members, member);
        },
        _ => {},
    }
}

/// Only `start_group` fixes the rounds, and only once: it is made from
/// `Forming` alone and with two members or more, it leaves as many rounds as
/// there are members and slots in the payout order, and a group that is no
/// longer forming refuses it.
pub proof fn lemma_start_fixes_rounds(group: GroupView, caller: Address)
    requires
        group.wf(),
    ensures
        refusal(group, Move::Start { caller }) is None ==> {
            &&& group.status == GroupStatus::Forming
            &&& group.members.len() >= 2
            &&& after(group, Move::Start { caller }).total_rounds == group.members.len()
            &&& after(group, Move::Start { caller }).payout_order.len() == group.members.len()
            &&& after(group, Move::Start { caller }).payout_order == group.members
            &&& after(group, Move::Start { caller }).status == GroupStatus::Active
            &&& after(group, Move::Start { caller }).current_round == 1
        },
        group.status != GroupStatus::Forming ==> refusal(group, Move::Start { caller }) is Some,
        refusal(after(group, Move::Start { caller }), Move::Start { caller }) is Some,
{
}

/// Once the rounds are fixed no move changes their number, the payout order
/// or the members.
pub proof fn lemma_rounds_stay_fixed(group: GroupView, mv: Move)
    requires
        group.wf(),
        group.is_started(),
    ensures
        after(group, mv).total_rounds == group.total_rounds,
        after(group, mv).payout_order == group.payout_order,
        after(group, mv).members == group.members,
        after(group, mv).is_started(),
{
}

/// The same of any number of moves.
pub proof fn lemma_rounds_stay_fixed_for_good(group: GroupView, moves: Seq<Move>)
    requires
        group.wf(),
        group.is_started(),
    ensures
        after_all(group, moves).wf(),
        after_all(group, moves).total_rounds == group.total_rounds,
        after_all(group, moves).payout_order == group.payout_order,
        after_all(group, moves).members == group.members,
    decreases moves.len(),
{
    if moves.len() > 0 {
        lemma_rounds_stay_fixed_for_good(group, moves.drop_last());
        lemma_move_keeps_wf(after_all(group, moves.drop_last()), moves.last());
        lemma_rounds_stay_fixed(after_all(group, moves.drop_last()), moves.last());
    }
}

/// No move takes the current round back, and none but a start or a
/// settlement takes it forward.
pub proof fn lemma_round_never_decreases(group: GroupView, mv: Move)
    requires
        group.wf(),
    ensures
        after(group, mv).current_round >= group.current_round,
        !(mv is Settle) && !(mv is Start) ==> after(group, mv).current_round == group.current_round,
{
}

/// No move takes a group back to `Forming`.
pub proof fn lemma_never_forming_again(group: GroupView, mv: Move)
    requires
        group.status != GroupStatus::Forming,
    ensures
        after(group, mv).status != GroupStatus::Forming,
{
}

/// A completed group is never changed again: it refuses every move and
/// stays as it is, field for field.
pub proof fn lemma_completed_is_final(group: GroupView, mv: Move)
    requires
        group.status == GroupStatus::Completed,
    ensures
        refusal(group, mv) is Some,
        after(group, mv) == group,
{
}

/// The same of any number of moves.
pub proof fn lemma_completed_is_final_for_good(group: GroupView, moves: Seq<Move>)
    requires
        group.status == GroupStatus::Completed,
    ensures
        after_all(group, moves) == group,
    decreases moves.len(),
{
    if moves.len() > 0 {
        lemma_completed_is_final_for_good(group, moves.drop_last());
        lemma_completed_is_final(group, moves.last());
    }
}

/// A settlement is made only of a complete round. It either takes the group
/// one round further and leaves it active, or, from the last round, completes
/// it and leaves the round number alone: no round is skipped or repeated.
pub proof fn lemma_settlement_advances_or_completes(group: GroupView, round: Option<RoundView>)
    requires
        group.wf(),
        refusal(group, Move::Settle { round }) is None,
    ensures
        round matches Some(current) && current.is_complete,
        group.status == GroupStatus::Active,
        ({
            let next = after(group, Move::Settle { round });
            if group.current_round == group.total_rounds {
                next.status == GroupStatus::Completed && next.current_round == group.current_round
            } else {
                next.status == GroupStatus::Active && next.current_round == group.current_round + 1
                    && next.current_round <= group.total_rounds
            }
        }),
{
}

/// Unwinding completes a group whatever its status was, unless it was
/// completed already: then, and only then, the administrator of the protocol
/// is refused, with `GroupCompleted`.
pub proof fn lemma_unwinding_completes(group: GroupView, protocol_admin: Address)
    ensures
        ({
            let mv = Move::Unwind { caller: protocol_admin, protocol_admin };
            if group.status == GroupStatus::Completed {
                refusal(group, mv) == Some(ContractError::GroupCompleted)
            } else {
                refusal(group, mv) is None && after(group, mv).status == GroupStatus::Completed
            }
        }),
{
}

} // verus!
