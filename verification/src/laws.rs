//! What holds of the money that the calls move: contributions are counted
//! once, deposits come back whole and once, and an unwinding never hands
//! out more than the pool holds above the deposits.

use vstd::prelude::*;
use crate::address::Address;
use crate::admin::{distributable, emergency_payouts, emergency_share, equal_payouts};
use crate::contribution::{contribute_refusal, contributed};
use crate::errors::ContractError;
use crate::escrow::{held_amount, held_total, refunds};
use crate::group::{
    deposit_back, deposit_due, escrow_with, join_refusal, joined, leave_refusal, left,
};
use crate::payout::{
    in_last_round, payout_refusal, settled, settled_escrow, settled_next_round, settled_refunds,
};
use crate::roster;
use crate::types::{total_gain, total_outflow, GroupView, RoundView, Transfer};

verus! {

/// The escrow holds entries for members only, each of the deposit that the
/// group asks for.
pub open spec fn escrow_within(group: GroupView, ledger: Map<Address, i128>) -> bool {
    forall|a: Address| #[trigger]
        ledger.contains_key(a) ==> {
            &&& group.members.contains(a)
            &&& group.deposit_amount > 0
            &&& ledger[a] == group.deposit_amount
        }
}

/// What a transfer that may be missing adds to the balance of `who`.
pub open spec fn gain_of(transfer: Option<Transfer>, who: Address) -> int {
    match transfer {
        Some(t) => t.gain_of(who),
        None => 0,
    }
}

/// A round is complete exactly when as many have contributed as the group
/// has members: after a contribution the round is marked complete if the
/// contributor was the last one missing, and stays open otherwise. The
/// contributor is marked once, after those who were marked before.
pub proof fn lemma_complete_when_all_contributed(group: GroupView, round: RoundView, who: Address)
    requires
        round.wf(),
        contribute_refusal(group, Some(round), who) is None,
    ensures
        contributed(group, round, who).wf(),
        contributed(group, round, who).contributions == round.contributions.push(who),
        contributed(group, round, who).is_complete == (contributed(
            group,
            round,
            who,
        ).contributions.len() == group.members.len()),
        !round.is_complete,
        group.members.contains(who),
{
}

/// A contribution to a round that holds contributions alone leaves such a
/// round, with one contribution amount more in it.
pub proof fn lemma_pot_holds_the_contributions(group: GroupView, round: RoundView, who: Address)
    requires
        round.accumulated_in(group),
        contribute_refusal(group, Some(round), who) is None,
        round.total_contributed + group.contribution_amount <= i128::MAX,
        round.total_contributed + group.contribution_amount >= i128::MIN,
    ensures
        contributed(group, round, who).accumulated_in(group),
        contributed(group, round, who).is_complete == (contributed(
            group,
            round,
            who,
        ).contributions.len() == group.members.len()),
        contributed(group, round, who).total_contributed == round.total_contributed
            + group.contribution_amount,
{
    let next = contributed(group, round, who);
    let amount = group.contribution_amount as int;
    let n = round.contributions.len() as int;
    assert(amount * (n + 1) == amount * n + amount) by (nonlinear_arith);
    assert forall|i: int| 0 <= i < next.contributions.len() implies group.members.contains(
        #[trigger] next.contributions[i],
    ) by {
        if i < n {
            assert(next.contributions[i] == round.contributions[i]);
        }
    }
}

/// Nobody contributes twice to one round: after a contribution the same
/// member is refused, with `AlreadyContributed` while the round is open and
/// with `RoundNotActive` once that contribution has completed it.
pub proof fn lemma_no_second_contribution(group: GroupView, round: RoundView, who: Address)
    requires
        contribute_refusal(group, Some(round), who) is None,
    ensures
        contribute_refusal(group, Some(contributed(group, round, who)), who) == Some(
            if contributed(group, round, who).is_complete {
                ContractError::RoundNotActive
            } else {
                ContractError::AlreadyContributed
            },
        ),
{
    let next = contributed(group, round, who);
    assert(next.contributions[round.contributions.len() as int] == who);
}

/// No round is settled twice: right after a settlement that opened the next
/// round, that round is not complete and a settlement is refused.
pub proof fn lemma_no_second_settlement(group: GroupView, round: Option<RoundView>, now: u64)
    requires
        payout_refusal(group, round) is None,
        !in_last_round(group),
    ensures
        payout_refusal(settled(group), settled_next_round(group, now)) == Some(
            ContractError::RoundNotComplete,
        ),
{
}

/// A member who joins a forming group and leaves it again is where they
/// were: the group and its escrow are as before, and the deposit that was
/// collected on joining is the deposit that goes back on leaving.
pub proof fn lemma_join_then_leave_is_free(
    group: GroupView,
    ledger: Map<Address, i128>,
    who: Address,
)
    requires
        group.wf(),
        escrow_within(group, ledger),
        join_refusal(group, who) is None,
        who != group.admin,
    ensures
        leave_refusal(joined(group, who), who) is None,
        left(joined(group, who), who) == group,
        escrow_with(group, ledger, who).remove(who) == ledger,
        escrow_within(joined(group, who), escrow_with(group, ledger, who)),
        gain_of(deposit_due(group, who), who) + gain_of(
            deposit_back(escrow_with(group, ledger, who), who),
            who,
        ) == 0,
{
    let inside = joined(group, who);
    assert(inside.members[group.members.len() as int] == who);
    roster::lemma_without_push(group.members, who, who);
    roster::lemma_without_absent(group.members, who);
    assert(left(inside, who).members == group.members);
    assert(!ledger.contains_key(who));
    assert(escrow_with(group, ledger, who).remove(who) =~= ledger);
    assert forall|a: Address| #[trigger]
        escrow_with(group, ledger, who).contains_key(a) implies inside.members.contains(a) by {
        if a != who {
            let i = choose|i: int| 0 <= i < group.members.len() && group.members[i] == a;
            assert(inside.members[i] == a);
        }
    }
}

/// What the refunds of a list of members add to the balance of one of them
/// is what the escrow holds for that one.
pub proof fn lemma_refunds_pay_each_once(
    members: Seq<Address>,
    ledger: Map<Address, i128>,
    who: Address,
)
    requires
        members.no_duplicates(),
    ensures
        total_gain(refunds(members, ledger), who) == if members.contains(who) {
            held_amount(ledger, who)
        } else {
            0
        },
        total_outflow(refunds(members, ledger)) == held_total(members, ledger),
    decreases members.len(),
{
    if members.len() > 0 {
        let front = members.drop_last();
        let last = members.last();
        lemma_refunds_pay_each_once(front, ledger, who);
        assert(!front.contains(last)) by {
            if front.contains(last) {
                let i = choose|i: int| 0 <= i < front.len() && front[i] == last;
                assert(members[i] == members[members.len() - 1]);
            }
        }
        assert(members.contains(who) <==> (front.contains(who) || last == who)) by {
            if members.contains(who) {
                let i = choose|i: int| 0 <= i < members.len() && members[i] == who;
                if i < members.len() - 1 {
                    assert(front[i] == who);
                }
            }
            if front.contains(who) {
                let i = choose|i: int| 0 <= i < front.len() && front[i] == who;
                assert(members[i] == who);
            }
            if last == who {
                assert(members[members.len() - 1] == who);
            }
        }
        if ledger.contains_key(last) {
            let paid = refunds(front, ledger).push(
                Transfer::Pay { member: last, amount: ledger[last] },
            );
            assert(paid.drop_last() =~= refunds(front, ledger));
        }
    }
}

/// A group that completes by settling its last round refunds every member
/// the deposit it holds for them, once: the refunds add to each member's
/// balance what the escrow held for that member, and afterwards the escrow
/// holds nothing for any member.
pub proof fn lemma_completion_refunds_deposits(
    group: GroupView,
    ledger: Map<Address, i128>,
    who: Address,
)
    requires
        group.wf(),
        in_last_round(group),
        group.deposit_amount > 0,
        group.members.contains(who),
    ensures
        total_gain(settled_refunds(group, ledger), who) == held_amount(ledger, who),
        !settled_escrow(group, ledger).contains_key(who),
        escrow_within(group, ledger) && ledger.contains_key(who) ==> total_gain(
            settled_refunds(group, ledger),
            who,
        ) == group.deposit_amount,
{
    lemma_refunds_pay_each_once(group.members, ledger, who);
}

/// Equal payments to a list of members take the share out of the pool once
/// for each member.
pub proof fn lemma_equal_payouts_total(members: Seq<Address>, share: int)
    requires
        0 <= share <= i128::MAX,
    ensures
        total_outflow(equal_payouts(members, share)) == share * members.len(),
    decreases members.len(),
{
    if share > 0 && members.len() > 0 {
        let front = members.drop_last();
        lemma_equal_payouts_total(front, share);
        assert(equal_payouts(members, share).drop_last() =~= equal_payouts(front, share));
        assert(share * members.len() == share * front.len() + share) by (nonlinear_arith)
            requires
                members.len() == front.len() + 1,
        ;
    } else {
        assert(share * members.len() == 0) by (nonlinear_arith)
            requires
                share == 0 || members.len() == 0,
        ;
    }
}

/// Unwinding a group creates no value and destroys none: all it asks for
/// is payments out of the pool to members, and those are covered. Where the
/// pool holds more than the escrowed deposits and the group has members,
/// every member is paid the same share, what is paid out is no more than
/// what the pool holds above the deposits, and what stays above them is less
/// than one token unit for each member. Otherwise nothing is paid out.
pub proof fn lemma_unwinding_conserves(group: GroupView, ledger: Map<Address, i128>, balance: i128)
    requires
        forall|a: Address| ledger.contains_key(a) ==> #[trigger] ledger[a] >= 0,
    ensures
        ({
            let payouts = emergency_payouts(group, ledger, balance);
            let paid = total_outflow(payouts);
            let held = held_total(group.members, ledger);
            let share = emergency_share(group, ledger, balance);
            &&& forall|i: int|
                0 <= i < payouts.len() ==> payouts[i] == Transfer::Pay {
                    member: group.members[i],
                    amount: share as i128,
                } && share > 0 && i < group.members.len()
            &&& if balance > 0 && balance > held && group.members.len() > 0 {
                &&& paid == share * group.members.len()
                &&& 0 <= paid <= balance - held
                &&& held <= balance - paid < held + group.members.len()
            } else {
                paid == 0
            }
        }),
{
    crate::escrow::lemma_held_total_nonnegative(group.members, ledger);
    let held = held_total(group.members, ledger);
    let rest = distributable(balance, held);
    let n = group.members.len() as int;
    if rest > 0 && n > 0 {
        let share = rest / n;
        assert(0 <= share * n <= rest && rest - share * n < n && share <= rest) by (nonlinear_arith)
            requires
                share == rest / n,
                n > 0,
                rest > 0,
        ;
        lemma_equal_payouts_total(group.members, share);
    } else {
        assert(emergency_payouts(group, ledger, balance) =~= Seq::<Transfer>::empty());
    }
}

} // verus!
