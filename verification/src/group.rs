//! The group registry: creating a group, joining and leaving it while it
//! forms, and starting its rounds.

use vstd::prelude::*;
use crate::address::Address;
use crate::errors::ContractError;
use crate::escrow::DepositLedger;
use crate::roster;
use crate::types::{
    Event, GroupStatus, GroupTemplate, GroupView, RoundInfo, RoundView, SavingsGroup,
    TemplateView, Transfer,
};

verus! {

/// A group after its membership changed, the escrow that goes with it, the
/// deposit that has to move for the change to stand, and the event that
/// reports it.
#[derive(Debug)]
pub struct MembershipChange {
    pub group: SavingsGroup,
    pub deposits: DepositLedger,
    pub transfer: Option<Transfer>,
    pub event: Event,
}

/// A group that has just started, its first round, and the event that
/// reports the start.
#[derive(Debug)]
pub struct Started {
    pub group: SavingsGroup,
    pub round: RoundInfo,
    pub event: Event,
}

/// A template that was just made, and the event that reports it.
#[derive(Debug)]
pub struct Saved {
    pub template: GroupTemplate,
    pub event: Event,
}

/// Why terms like these cannot make a group.
pub open spec fn terms_refusal(
    contribution_amount: i128,
    deposit_amount: i128,
    max_members: u32,
) -> Option<ContractError> {
    if contribution_amount <= 0 || deposit_amount < 0 {
        Some(ContractError::InvalidAmount)
    } else if max_members < 2 {
        Some(ContractError::InsufficientMembers)
    } else {
        None
    }
}

/// The group that `create_group` makes when `group_counter` groups exist.
pub open spec fn created(
    group_counter: u64,
    admin: Address,
    name: Seq<char>,
    token: Address,
    contribution_amount: i128,
    deposit_amount: i128,
    cycle_length: u64,
    max_members: u32,
    now: u64,
) -> GroupView {
    GroupView {
        id: (group_counter + 1) as u64,
        name,
        admin,
        token,
        contribution_amount,
        deposit_amount,
        cycle_length,
        max_members,
        members: seq![admin],
        payout_order: Seq::empty(),
        current_round: 0,
        total_rounds: 0,
        status: GroupStatus::Forming,
        created_at: now,
    }
}

/// The deposit that `who` owes on entering `group`, if the group asks for one.
pub open spec fn deposit_due(group: GroupView, who: Address) -> Option<Transfer> {
    if group.deposit_amount > 0 {
        Some(Transfer::Collect { member: who, amount: group.deposit_amount })
    } else {
        None
    }
}

/// The escrow of `group` once `who` has paid the deposit that is due.
pub open spec fn escrow_with(
    group: GroupView,
    ledger: Map<Address, i128>,
    who: Address,
) -> Map<Address, i128> {
    if group.deposit_amount > 0 {
        ledger.insert(who, group.deposit_amount)
    } else {
        ledger
    }
}

/// The deposit that goes back to `who`, if the escrow holds one.
pub open spec fn deposit_back(ledger: Map<Address, i128>, who: Address) -> Option<Transfer> {
    if ledger.contains_key(who) {
        Some(Transfer::Pay { member: who, amount: ledger[who] })
    } else {
        None
    }
}

/// Why `who` cannot join `group`.
pub open spec fn join_refusal(group: GroupView, who: Address) -> Option<ContractError> {
    if group.status != GroupStatus::Forming {
        Some(ContractError::GroupNotForming)
    } else if group.members.len() >= group.max_members {
        Some(ContractError::GroupFull)
    } else if group.members.contains(who) {
        Some(ContractError::AlreadyMember)
    } else {
        None
    }
}

/// `group` with `who` as its newest member.
pub open spec fn joined(group: GroupView, who: Address) -> GroupView {
    GroupView { members: group.members.push(who), ..group }
}

/// Why `who` cannot leave `group`.
pub open spec fn leave_refusal(group: GroupView, who: Address) -> Option<ContractError> {
    if group.status != GroupStatus::Forming {
        Some(ContractError::GroupNotForming)
    } else if who == group.admin {
        Some(ContractError::Unauthorized)
    } else if !group.members.contains(who) {
        Some(ContractError::NotMember)
    } else {
        None
    }
}

/// `group` without `who`; the other members keep their order.
pub open spec fn left(group: GroupView, who: Address) -> GroupView {
    GroupView { members: roster::without(group.members, who), ..group }
}

/// Why `caller` cannot start `group`.
pub open spec fn start_refusal(group: GroupView, caller: Address) -> Option<ContractError> {
    if caller != group.admin {
        Some(ContractError::Unauthorized)
    } else if group.status != GroupStatus::Forming {
        Some(ContractError::GroupNotForming)
    } else if group.members.len() < 2 {
        Some(ContractError::InsufficientMembers)
    } else {
        None
    }
}

/// `group` as it starts: the members in the order they joined are the payout
/// order, there is one round for each of them, and the first is open.
pub open spec fn started(group: GroupView) -> GroupView {
    GroupView {
        payout_order: group.members,
        total_rounds: group.members.len() as u32,
        current_round: 1,
        status: GroupStatus::Active,
        ..group
    }
}

/// The round that opens at `now` for the slot `round_number` of the payout
/// order of `group`.
pub open spec fn round_opened(group: GroupView, round_number: u32, now: u64) -> RoundView {
    RoundView::opened(
        round_number,
        group.payout_order[round_number - 1],
        (now + group.cycle_length) as u64,
    )
}

/// Tells whether terms like these can make a group.
pub fn permit_terms(
    contribution_amount: i128,
    deposit_amount: i128,
    max_members: u32,
) -> (ok: Result<(), ContractError>)
    ensures
        match ok {
            Ok(()) => terms_refusal(contribution_amount, deposit_amount, max_members) is None,
            Err(e) => terms_refusal(contribution_amount, deposit_amount, max_members) == Some(e),
        },
{
    if contribution_amount <= 0 || deposit_amount < 0 {
        return Err(ContractError::InvalidAmount);
    }
    if max_members < 2 {
        return Err(ContractError::InsufficientMembers);
    }
    Ok(())
}

/// Makes the record of a new group, whose administrator is its first member.
///
/// The group gets the number after `group_counter`. Terms that
/// `terms_refusal` names are refused; otherwise the deposit, if the group
/// asks for one, is due from the administrator and entered in the escrow.
pub fn create_group(
    group_counter: u64,
    admin: Address,
    name: String,
    token: Address,
    contribution_amount: i128,
    deposit_amount: i128,
    cycle_length: u64,
    max_members: u32,
    now: u64,
) -> (made: Result<MembershipChange, ContractError>)
    requires
        terms_refusal(contribution_amount, deposit_amount, max_members) is None ==> group_counter
            < u64::MAX,
    ensures
        match made {
            Ok(change) => {
                let group = created(
                    group_counter,
                    admin,
                    name@,
                    token,
                    contribution_amount,
                    deposit_amount,
                    cycle_length,
                    max_members,
                    now,
                );
                &&& terms_refusal(contribution_amount, deposit_amount, max_members) is None
                &&& change.group@ == group
                &&& change.deposits@ == escrow_with(group, Map::empty(), admin)
                &&& change.transfer == deposit_due(group, admin)
                &&& change.event == Event::GroupCreated { group_id: group.id }
                &&& change.group.wf()
            },
            Err(e) => terms_refusal(contribution_amount, deposit_amount, max_members) == Some(e),
        },
{
    match permit_terms(contribution_amount, deposit_amount, max_members) {
        Ok(()) => {},
        Err(e) => {
            return Err(e);
        },
    }
    let mut members: Vec<Address> = Vec::new();
    members.push(admin);
    let group = SavingsGroup {
        id: group_counter + 1,
        name,
        admin,
        token,
        contribution_amount,
        deposit_amount,
        cycle_length,
        max_members,
        members,
        payout_order: Vec::new(),
        current_round: 0,
        total_rounds: 0,
        status: GroupStatus::Forming,
        created_at: now,
    };
    let mut deposits = DepositLedger::new();
    let mut transfer: Option<Transfer> = None;
    if deposit_amount > 0 {
        deposits.deposit(admin, deposit_amount);
        transfer = Some(Transfer::Collect { member: admin, amount: deposit_amount });
    }
    proof {
        assert(group@.members =~= seq![admin]);
        assert(group@.payout_order =~= Seq::<Address>::empty());
    }
    let event = Event::GroupCreated { group_id: group.id };
    Ok(MembershipChange { group, deposits, transfer, event })
}

/// Takes `member` into a group that is still forming.
///
/// Refused as `join_refusal` says. Otherwise the member is appended to the
/// member list, and the deposit, if the group asks for one, is due from the
/// member and entered in the escrow.
pub fn join_group(
    group: SavingsGroup,
    deposits: DepositLedger,
    member: Address,
) -> (done: Result<MembershipChange, ContractError>)
    requires
        group.wf(),
    ensures
        match done {
            Ok(change) => {
                &&& join_refusal(group@, member) is None
                &&& change.group@ == joined(group@, member)
                &&& change.deposits@ == escrow_with(group@, deposits@, member)
                &&& change.transfer == deposit_due(group@, member)
                &&& change.event == Event::GroupJoined { group_id: group.id, member }
                &&& change.group.wf()
                &&& change.group@.members.len() <= group@.max_members
            },
            Err(e) => join_refusal(group@, member) == Some(e),
        },
{
    if group.status != GroupStatus::Forming {
        return Err(ContractError::GroupNotForming);
    }
    if group.members.len() >= group.max_members as usize {
        return Err(ContractError::GroupFull);
    }
    if roster::contains(&group.members, &member) {
        return Err(ContractError::AlreadyMember);
    }
    let ghost before = group@;
    let mut group = group;
    let mut deposits = deposits;
    group.members.push(member);
    let mut transfer: Option<Transfer> = None;
    if group.deposit_amount > 0 {
        deposits.deposit(member, group.deposit_amount);
        transfer = Some(Transfer::Collect { member, amount: group.deposit_amount });
    }
    proof {
        assert(group@ == joined(before, member));
    }
    let event = Event::GroupJoined { group_id: group.id, member };
    Ok(MembershipChange { group, deposits, transfer, event })
}

/// Lets `member` out of a group that is still forming.
///
/// Refused as `leave_refusal` says: the administrator never leaves. Otherwise
/// the member is taken off the member list, the others keeping their order,
/// and what the escrow holds for the member goes back and leaves the escrow.
pub fn leave_group(
    group: SavingsGroup,
    deposits: DepositLedger,
    member: Address,
) -> (done: Result<MembershipChange, ContractError>)
    requires
        group.wf(),
    ensures
        match done {
            Ok(change) => {
                &&& leave_refusal(group@, member) is None
                &&& change.group@ == left(group@, member)
                &&& change.deposits@ == deposits@.remove(member)
                &&& change.transfer == deposit_back(deposits@, member)
                &&& change.event == Event::GroupLeft { group_id: group.id, member }
                &&& change.group.wf()
            },
            Err(e) => leave_refusal(group@, member) == Some(e),
        },
{
    if group.status != GroupStatus::Forming {
        return Err(ContractError::GroupNotForming);
    }
    if member == group.admin {
        return Err(ContractError::Unauthorized);
    }
    if !roster::contains(&group.members, &member) {
        return Err(ContractError::NotMember);
    }
    let ghost before = group@;
    let mut group = group;
    let mut deposits = deposits;
    group.members = roster::remove(&group.members, &member);
    let transfer = match deposits.release(&member) {
        Some(amount) => Some(Transfer::Pay { member, amount }),
        None => None,
    };
    proof {
        roster::lemma_without_unique(before.members, member);
        assert(group@ == left(before, member));
    }
    let event = Event::GroupLeft { group_id: group.id, member };
    Ok(MembershipChange { group, deposits, transfer, event })
}

/// Tells whether `caller` can start `group`.
pub fn permit_start(group: &SavingsGroup, caller: Address) -> (ok: Result<(), ContractError>)
    ensures
        match ok {
            Ok(()) => start_refusal(group@, caller) is None,
            Err(e) => start_refusal(group@, caller) == Some(e),
        },
{
    if caller != group.admin {
        return Err(ContractError::Unauthorized);
    }
    if group.status != GroupStatus::Forming {
        return Err(ContractError::GroupNotForming);
    }
    if group.members.len() < 2 {
        return Err(ContractError::InsufficientMembers);
    }
    Ok(())
}

/// Starts the rounds of a group at the time `now`.
///
/// Refused as `start_refusal` says: only the administrator starts, only a
/// forming group, only with two members or more. Otherwise the payout order
/// and the number of rounds are fixed and the first round opens, for the
/// first member of the payout order and until `now + cycle_length`.
pub fn start_group(
    group: SavingsGroup,
    caller: Address,
    now: u64,
) -> (done: Result<Started, ContractError>)
    requires
        group.wf(),
        start_refusal(group@, caller) is None ==> now + group.cycle_length <= u64::MAX,
    ensures
        match done {
            Ok(go) => {
                &&& start_refusal(group@, caller) is None
                &&& go.group@ == started(group@)
                &&& go.round@ == round_opened(started(group@), 1, now)
                &&& go.event == Event::GroupStarted { group_id: group.id }
                &&& go.group.wf()
                &&& go.round.wf()
                &&& go.round@.accumulated_in(go.group@)
            },
            Err(e) => start_refusal(group@, caller) == Some(e),
        },
{
    match permit_start(&group, caller) {
        Ok(()) => {},
        Err(e) => {
            return Err(e);
        },
    }
    let ghost before = group@;
    let mut group = group;
    group.payout_order = group.members.clone();
    group.total_rounds = group.members.len() as u32;
    group.current_round = 1;
    group.status = GroupStatus::Active;
    let round = RoundInfo {
        round_number: 1,
        recipient: group.payout_order[0],
        contributions: Vec::new(),
        total_contributed: 0,
        is_complete: false,
        deadline: now + group.cycle_length,
    };
    proof {
        assert(group@ == started(before));
        assert(round@.contributions =~= Seq::<Address>::empty());
    }
    let event = Event::GroupStarted { group_id: group.id };
    Ok(Started { group, round, event })
}

/// What a lookup of a group means to the caller: a group that is not there
/// is reported as `GroupNotFound`.
pub fn get_group(found: Option<SavingsGroup>) -> (got: Result<SavingsGroup, ContractError>)
    ensures
        match found {
            Some(group) => got == Ok::<SavingsGroup, ContractError>(group),
            None => got == Err::<SavingsGroup, ContractError>(ContractError::GroupNotFound),
        },
{
    match found {
        Some(group) => Ok(group),
        None => Err(ContractError::GroupNotFound),
    }
}

/// The groups of a member: none where the index has no entry for the member.
pub fn get_member_groups(found: Option<Vec<u64>>) -> (groups: Vec<u64>)
    ensures
        groups@ == match found {
            Some(listed) => listed@,
            None => Seq::<u64>::empty(),
        },
{
    match found {
        Some(listed) => listed,
        None => Vec::new(),
    }
}

// --- Templates ---

/// How many templates one owner may save.
pub const MAX_TEMPLATES_PER_ADMIN: u32 = 10;

/// Why an owner with `current_count` templates cannot save one with terms
/// like these.
pub open spec fn template_refusal(
    current_count: u32,
    contribution_amount: i128,
    max_members: u32,
) -> Option<ContractError> {
    if contribution_amount <= 0 {
        Some(ContractError::InvalidAmount)
    } else if max_members < 2 {
        Some(ContractError::InsufficientMembers)
    } else if current_count >= MAX_TEMPLATES_PER_ADMIN {
        Some(ContractError::TemplateLimitReached)
    } else {
        None
    }
}

/// Makes the next template of `owner`, who has `current_count` of them; it
/// gets the number after `current_count`.
pub fn save_template(
    owner: Address,
    current_count: u32,
    name: String,
    token: Address,
    contribution_amount: i128,
    cycle_length: u64,
    max_members: u32,
) -> (made: Result<Saved, ContractError>)
    ensures
        match made {
            Ok(saved) => {
                &&& template_refusal(current_count, contribution_amount, max_members) is None
                &&& saved.template@ == TemplateView {
                    id: (current_count + 1) as u32,
                    name: name@,
                    token,
                    contribution_amount,
                    cycle_length,
                    max_members,
                }
                &&& saved.event == Event::TemplateSaved {
                    owner,
                    template_id: (current_count + 1) as u32,
                }
            },
            Err(e) => template_refusal(current_count, contribution_amount, max_members) == Some(e),
        },
{
    if contribution_amount <= 0 {
        return Err(ContractError::InvalidAmount);
    }
    if max_members < 2 {
        return Err(ContractError::InsufficientMembers);
    }
    if current_count >= MAX_TEMPLATES_PER_ADMIN {
        return Err(ContractError::TemplateLimitReached);
    }
    let template = GroupTemplate {
        id: current_count + 1,
        name,
        token,
        contribution_amount,
        cycle_length,
        max_members,
    };
    Ok(Saved { template, event: Event::TemplateSaved { owner, template_id: current_count + 1 } })
}

/// What a lookup of a template means to the caller: a template that is not
/// there is reported as `TemplateNotFound`.
pub fn get_template(found: Option<GroupTemplate>) -> (got: Result<GroupTemplate, ContractError>)
    ensures
        match found {
            Some(template) => got == Ok::<GroupTemplate, ContractError>(template),
            None => got == Err::<GroupTemplate, ContractError>(ContractError::TemplateNotFound),
        },
{
    match found {
        Some(template) => Ok(template),
        None => Err(ContractError::TemplateNotFound),
    }
}

/// Makes a group with the terms of the template that the lookup found, under
/// a name of its own and without a deposit.
pub fn create_from_template(
    group_counter: u64,
    admin: Address,
    found: Option<&GroupTemplate>,
    name: String,
    now: u64,
) -> (made: Result<MembershipChange, ContractError>)
    requires
        found matches Some(template) && terms_refusal(
            template.contribution_amount,
            0,
            template.max_members,
        ) is None ==> group_counter < u64::MAX,
    ensures
        match found {
            None => made matches Err(e) && e == ContractError::TemplateNotFound,
            Some(template) => match made {
                Ok(change) => {
                    let group = created(
                        group_counter,
                        admin,
                        name@,
                        template.token,
                        template.contribution_amount,
                        0,
                        template.cycle_length,
                        template.max_members,
                        now,
                    );
                    &&& terms_refusal(template.contribution_amount, 0, template.max_members)
                        is None
                    &&& change.group@ == group
                    &&& change.deposits@ == Map::<Address, i128>::empty()
                    &&& change.transfer is None
                    &&& change.event == Event::GroupCreated { group_id: group.id }
                    &&& change.group.wf()
                },
                Err(e) => terms_refusal(template.contribution_amount, 0, template.max_members)
                    == Some(e),
            },
        },
{
    match found {
        None => Err(ContractError::TemplateNotFound),
        Some(template) => create_group(
            group_counter,
            admin,
            name,
            template.token,
            template.contribution_amount,
            0,
            template.cycle_length,
            template.max_members,
            now,
        ),
    }
}

} // verus!
