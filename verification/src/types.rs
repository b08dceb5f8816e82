//! The records of a savings group and the mathematical values they stand for.

use vstd::prelude::*;
use crate::address::Address;

verus! {

/// The value that a record stands for, where the record may be missing.
pub open spec fn view_of<T: View>(found: Option<T>) -> Option<T::V> {
    match found {
        Some(record) => Some(record@),
        None => None,
    }
}

/// Where a savings group stands in its lifecycle.
#[derive(Clone, Copy, Debug, PartialEq, Eq, Hash, Structural)]
pub enum GroupStatus {
    /// Accepting members, not yet started.
    Forming,
    /// Rounds in progress.
    Active,
    /// Finished; never changed again.
    Completed,
    /// Frozen by a dispute.
    Disputed,
    /// Paused by an administrator.
    Paused,
}

/// Configuration and lifecycle state of one savings group.
#[derive(Debug)]
pub struct SavingsGroup {
    pub id: u64,
    pub name: String,
    pub admin: Address,
    pub token: Address,
    pub contribution_amount: i128,
    pub deposit_amount: i128,
    pub cycle_length: u64,
    pub max_members: u32,
    pub members: Vec<Address>,
    pub payout_order: Vec<Address>,
    pub current_round: u32,
    pub total_rounds: u32,
    pub status: GroupStatus,
    pub created_at: u64,
}

/// A savings group as a mathematical value.
pub struct GroupView {
    pub id: u64,
    pub name: Seq<char>,
    pub admin: Address,
    pub token: Address,
    pub contribution_amount: i128,
    pub deposit_amount: i128,
    pub cycle_length: u64,
    pub max_members: u32,
    pub members: Seq<Address>,
    pub payout_order: Seq<Address>,
    pub current_round: u32,
    pub total_rounds: u32,
    pub status: GroupStatus,
    pub created_at: u64,
}

impl View for SavingsGroup {
    type V = GroupView;

    open spec fn view(&self) -> GroupView {
        GroupView {
            id: self.id,
            name: self.name@,
            admin: self.admin,
            token: self.token,
            contribution_amount: self.contribution_amount,
            deposit_amount: self.deposit_amount,
            cycle_length: self.cycle_length,
            max_members: self.max_members,
            members: self.members@,
            payout_order: self.payout_order@,
            current_round: self.current_round,
            total_rounds: self.total_rounds,
            status: self.status,
            created_at: self.created_at,
        }
    }
}

impl GroupView {
    /// What holds of every group from its creation on.
    ///
    /// The amounts and the capacity are as `create_group` admits them, the
    /// members are distinct and within the capacity, and the payout order has
    /// one slot per round. Before the start there are no rounds; from the
    /// start on the payout order is the member list and the current round
    /// lies in `1..=total_rounds`.
    pub open spec fn wf(self) -> bool {
        &&& self.contribution_amount > 0
        &&& self.deposit_amount >= 0
        &&& self.max_members >= 2
        &&& self.members.len() <= self.max_members
        &&& self.members.no_duplicates()
        &&& self.payout_order.len() == self.total_rounds
        &&& self.current_round <= self.total_rounds
        &&& self.status == GroupStatus::Forming ==> self.total_rounds == 0
        &&& self.total_rounds > 0 ==> {
            &&& self.total_rounds >= 2
            &&& self.current_round >= 1
            &&& self.payout_order == self.members
        }
    }

    /// Has `start_group` fixed the rounds of this group?
    pub open spec fn is_started(self) -> bool {
        self.total_rounds > 0
    }
}

impl SavingsGroup {
    pub open spec fn wf(&self) -> bool {
        self@.wf()
    }

    /// Tells whether a record that came from outside is well-formed.
    pub fn is_well_formed(&self) -> (ok: bool)
        ensures
            ok == self.wf(),
    {
        if self.contribution_amount <= 0 || self.deposit_amount < 0 || self.max_members < 2 {
            return false;
        }
        if self.members.len() > self.max_members as usize {
            return false;
        }
        if !crate::roster::is_unique(&self.members) {
            return false;
        }
        if self.payout_order.len() != self.total_rounds as usize {
            return false;
        }
        if self.current_round > self.total_rounds {
            return false;
        }
        if self.status == GroupStatus::Forming && self.total_rounds != 0 {
            return false;
        }
        if self.total_rounds > 0 {
            if self.total_rounds < 2 || self.current_round < 1 {
                return false;
            }
            if self.members.len() != self.payout_order.len() {
                return false;
            }
            let mut i: usize = 0;
            while i < self.members.len()
                invariant
                    i <= self.members.len(),
                    self.members.len() == self.payout_order.len(),
                    forall|j: int| 0 <= j < i ==> self.members@[j] == self.payout_order@[j],
                decreases self.members.len() - i,
            {
                if self.members[i] != self.payout_order[i] {
                    return false;
                }
                i += 1;
            }
            assert(self.payout_order@ =~= self.members@);
        }
        true
    }
}

impl Clone for SavingsGroup {
    fn clone(&self) -> (copy: SavingsGroup)
        ensures
            copy@ == self@,
    {
        SavingsGroup {
            id: self.id,
            name: self.name.clone(),
            admin: self.admin,
            token: self.token,
            contribution_amount: self.contribution_amount,
            deposit_amount: self.deposit_amount,
            cycle_length: self.cycle_length,
            max_members: self.max_members,
            members: self.members.clone(),
            payout_order: self.payout_order.clone(),
            current_round: self.current_round,
            total_rounds: self.total_rounds,
            status: self.status,
            created_at: self.created_at,
        }
    }
}

/// The contribution ledger of one round of one group.
#[derive(Debug)]
pub struct RoundInfo {
    pub round_number: u32,
    pub recipient: Address,
    /// Who has contributed, each member once.
    pub contributions: Vec<Address>,
    pub total_contributed: i128,
    pub is_complete: bool,
    pub deadline: u64,
}

/// A round as a mathematical value.
pub struct RoundView {
    pub round_number: u32,
    pub recipient: Address,
    pub contributions: Seq<Address>,
    pub total_contributed: i128,
    pub is_complete: bool,
    pub deadline: u64,
}

impl View for RoundInfo {
    type V = RoundView;

    open spec fn view(&self) -> RoundView {
        RoundView {
            round_number: self.round_number,
            recipient: self.recipient,
            contributions: self.contributions@,
            total_contributed: self.total_contributed,
            is_complete: self.is_complete,
            deadline: self.deadline,
        }
    }
}

impl RoundView {
    /// The round as it is opened: nobody has contributed yet.
    pub open spec fn opened(round_number: u32, recipient: Address, deadline: u64) -> RoundView {
        RoundView {
            round_number,
            recipient,
            contributions: Seq::empty(),
            total_contributed: 0,
            is_complete: false,
            deadline,
        }
    }

    /// What holds of every round: nobody is marked as a contributor twice.
    pub open spec fn wf(self) -> bool {
        self.contributions.no_duplicates()
    }

    pub open spec fn has_contributed(self, who: Address) -> bool {
        self.contributions.contains(who)
    }

    /// The round holds what contributions alone have put into it: each
    /// contributor is a member and occurs once, the total is one contribution
    /// amount for each of them, and the round is complete exactly when every
    /// member has contributed.
    pub open spec fn accumulated_in(self, group: GroupView) -> bool {
        &&& self.wf()
        &&& forall|i: int|
            0 <= i < self.contributions.len() ==> group.members.contains(
                #[trigger] self.contributions[i],
            )
        &&& self.total_contributed == group.contribution_amount * self.contributions.len()
        &&& self.is_complete == (self.contributions.len() == group.members.len())
    }
}

impl RoundInfo {
    pub open spec fn wf(&self) -> bool {
        self@.wf()
    }

    /// Tells whether a record that came from outside is well-formed.
    pub fn is_well_formed(&self) -> (ok: bool)
        ensures
            ok == self.wf(),
    {
        crate::roster::is_unique(&self.contributions)
    }
}

impl Clone for RoundInfo {
    fn clone(&self) -> (copy: RoundInfo)
        ensures
            copy@ == self@,
    {
        RoundInfo {
            round_number: self.round_number,
            recipient: self.recipient,
            contributions: self.contributions.clone(),
            total_contributed: self.total_contributed,
            is_complete: self.is_complete,
            deadline: self.deadline,
        }
    }
}

/// The one live dispute of a group.
#[derive(Debug)]
pub struct Dispute {
    pub raised_by: Address,
    pub reason: String,
    pub raised_at: u64,
}

/// A dispute as a mathematical value.
pub struct DisputeView {
    pub raised_by: Address,
    pub reason: Seq<char>,
    pub raised_at: u64,
}

impl View for Dispute {
    type V = DisputeView;

    open spec fn view(&self) -> DisputeView {
        DisputeView { raised_by: self.raised_by, reason: self.reason@, raised_at: self.raised_at }
    }
}

impl Clone for Dispute {
    fn clone(&self) -> (copy: Dispute)
        ensures
            copy@ == self@,
    {
        Dispute {
            raised_by: self.raised_by,
            reason: self.reason.clone(),
            raised_at: self.raised_at,
        }
    }
}

/// Terms of a group, saved by its owner to make groups from.
#[derive(Debug)]
pub struct GroupTemplate {
    pub id: u32,
    pub name: String,
    pub token: Address,
    pub contribution_amount: i128,
    pub cycle_length: u64,
    pub max_members: u32,
}

/// A template as a mathematical value.
pub struct TemplateView {
    pub id: u32,
    pub name: Seq<char>,
    pub token: Address,
    pub contribution_amount: i128,
    pub cycle_length: u64,
    pub max_members: u32,
}

impl View for GroupTemplate {
    type V = TemplateView;

    open spec fn view(&self) -> TemplateView {
        TemplateView {
            id: self.id,
            name: self.name@,
            token: self.token,
            contribution_amount: self.contribution_amount,
            cycle_length: self.cycle_length,
            max_members: self.max_members,
        }
    }
}

impl Clone for GroupTemplate {
    fn clone(&self) -> (copy: GroupTemplate)
        ensures
            copy@ == self@,
    {
        GroupTemplate {
            id: self.id,
            name: self.name.clone(),
            token: self.token,
            contribution_amount: self.contribution_amount,
            cycle_length: self.cycle_length,
            max_members: self.max_members,
        }
    }
}

/// A movement of tokens that a call asks for. The pool is the balance that
/// the groups hold in common; who performs the movement is not this
/// library's concern, only that the call stands or falls with it.
#[derive(Clone, Copy, Debug, PartialEq, Eq)]
pub enum Transfer {
    /// From the member into the pool.
    Collect { member: Address, amount: i128 },
    /// From the pool to the member.
    Pay { member: Address, amount: i128 },
}

impl Transfer {
    /// What the transfer adds to the balance of `who`: a payment counts up,
    /// a collection down, a transfer of somebody else not at all.
    pub open spec fn gain_of(self, who: Address) -> int {
        match self {
            Transfer::Collect { member, amount } => if member == who { -amount } else { 0 },
            Transfer::Pay { member, amount } => if member == who { amount as int } else { 0 },
        }
    }

    /// What the transfer takes out of the pool.
    pub open spec fn outflow(self) -> int {
        match self {
            Transfer::Collect { amount, .. } => -amount,
            Transfer::Pay { amount, .. } => amount as int,
        }
    }
}

/// What a call that succeeded reports to those who watch the ledger. Events
/// are written and never read back.
#[derive(Clone, Copy, Debug, PartialEq, Eq)]
pub enum Event {
    GroupCreated { group_id: u64 },
    GroupJoined { group_id: u64, member: Address },
    GroupLeft { group_id: u64, member: Address },
    GroupStarted { group_id: u64 },
    Contributed { group_id: u64, member: Address, amount: i128 },
    PayoutDistributed { group_id: u64, recipient: Address, amount: i128 },
    GroupCompleted { group_id: u64 },
    RoundOpened { group_id: u64, round: u32 },
    GroupPaused { group_id: u64 },
    GroupResumed { group_id: u64 },
    DisputeRaised { group_id: u64, member: Address },
    DisputeResolved { group_id: u64 },
    EmergencyWithdrawn { group_id: u64 },
    AdminChanged { group_id: u64, new_admin: Address },
    TemplateSaved { owner: Address, template_id: u32 },
}

/// What a list of transfers adds to the balance of `who`, all in all.
pub open spec fn total_gain(transfers: Seq<Transfer>, who: Address) -> int
    decreases transfers.len(),
{
    if transfers.len() == 0 {
        0
    } else {
        total_gain(transfers.drop_last(), who) + transfers.last().gain_of(who)
    }
}

/// What a list of transfers takes out of the pool, all in all.
pub open spec fn total_outflow(transfers: Seq<Transfer>) -> int
    decreases transfers.len(),
{
    if transfers.len() == 0 {
        0
    } else {
        total_outflow(transfers.drop_last()) + transfers.last().outflow()
    }
}

} // verus!
