//! The contract as a whole: the ledger store, the clock, and the transfers
//! and events that the calls have asked for, with one entry point for each
//! call. A call that is refused leaves the contract as it was.

use vstd::prelude::*;
use crate::address::Address;
use crate::admin::{
    dispute_refusal, emergency_payouts, emergency_refusal, handover_refusal, pause_refusal,
    reactivate_refusal, with_status,
};
use crate::contribution::{contribute_refusal, contributed};
use crate::errors::ContractError;
use crate::group::{
    created, deposit_back, deposit_due, escrow_with, join_refusal, joined, leave_refusal, left,
    round_opened, start_refusal, started, template_refusal, terms_refusal,
};
use crate::laws::escrow_within;
use crate::payout::{
    in_last_round, payout_refusal, recipient_refusal, settled, settled_escrow, settled_events,
    settled_next_round, settled_refunds,
};
use crate::roster;
use crate::storage;
use crate::storage::{groups_without, RoundKey, Storage, StorageView, TemplateKey};
use crate::types::{
    DisputeView, Event, GroupStatus, GroupTemplate, GroupView, RoundInfo, RoundView,
    SavingsGroup, TemplateView, Transfer,
};

verus! {

/// One instance of the contract.
pub struct SoroSaveContract {
    storage: Storage,
    timestamp: u64,
    transfers: Vec<Transfer>,
    events: Vec<Event>,
}

/// An instance of the contract as a mathematical value.
pub struct ContractView {
    /// What the store holds.
    pub store: StorageView,
    /// The time of the ledger.
    pub timestamp: u64,
    /// The transfers that the calls have asked for, oldest first.
    pub transfers: Seq<Transfer>,
    /// The events that the calls have reported, oldest first.
    pub events: Seq<Event>,
}

impl ContractView {
    /// The contract after a call that changed the store, asked for
    /// transfers and reported events.
    pub open spec fn after(
        self,
        store: StorageView,
        transfers: Seq<Transfer>,
        events: Seq<Event>,
    ) -> ContractView {
        ContractView {
            store,
            timestamp: self.timestamp,
            transfers: self.transfers + transfers,
            events: self.events + events,
        }
    }
}

/// A transfer that may be missing, as a list.
pub open spec fn optional(transfer: Option<Transfer>) -> Seq<Transfer> {
    match transfer {
        Some(t) => seq![t],
        None => Seq::empty(),
    }
}

impl StorageView {
    /// Every group is well-formed and stands under its own number, and the
    /// numbers in use are those from one to the counter.
    pub open spec fn groups_wf(self) -> bool {
        &&& forall|id: u64| #[trigger]
            self.groups.contains_key(id) ==> {
                &&& self.groups[id].wf()
                &&& self.groups[id].id == id
                &&& 1 <= id <= self.group_counter
            }
        &&& forall|id: u64|
            1 <= id <= self.group_counter ==> #[trigger] self.groups.contains_key(id)
    }

    /// The current round of every started group is in the store, under its
    /// number, for the member whose turn it is, and holds what contributions
    /// alone have put into it; and the store holds no round that no group
    /// has opened.
    pub open spec fn rounds_wf(self) -> bool {
        &&& forall|id: u64| #[trigger]
            self.groups.contains_key(id) && self.groups[id].is_started() ==> {
                let group = self.groups[id];
                &&& self.round(id, group.current_round) matches Some(current)
                &&& current.round_number == group.current_round
                &&& current.recipient == group.payout_order[group.current_round - 1]
                &&& current.accumulated_in(group)
            }
        &&& forall|key: RoundKey| #[trigger]
            self.rounds.contains_key(key) ==> self.round_in_place(key)
    }

    /// The round under `key` belongs to a group of the store, is one of the
    /// rounds that the group has opened, knows its own number, and marks no
    /// contributor twice.
    pub open spec fn round_in_place(self, key: RoundKey) -> bool {
        &&& self.groups.contains_key(key.group_id)
        &&& 1 <= key.round <= self.groups[key.group_id].current_round
        &&& self.rounds[key].round_number == key.round
        &&& self.rounds[key].wf()
    }

    /// The escrow of every group holds entries for its members only, each of
    /// the deposit that the group asks for.
    pub open spec fn escrows_wf(self) -> bool {
        forall|id: u64| #[trigger]
            self.groups.contains_key(id) ==> escrow_within(self.groups[id], self.escrow(id))
    }

    /// A dispute is on record for exactly the groups that are disputed.
    pub open spec fn disputes_wf(self) -> bool {
        &&& forall|id: u64| #[trigger]
            self.groups.contains_key(id) && self.groups[id].status == GroupStatus::Disputed
                ==> self.disputes.contains_key(id)
        &&& forall|id: u64| #[trigger]
            self.disputes.contains_key(id) ==> self.groups.contains_key(id)
                && self.groups[id].status == GroupStatus::Disputed
    }

    /// The index from members to groups says what the member lists say.
    pub open spec fn index_wf(self) -> bool {
        forall|member: Address, id: u64| #[trigger]
            self.groups_of(member).contains(id) <==> (self.groups.contains_key(id)
                && self.groups[id].members.contains(member))
    }

    pub open spec fn wf(self) -> bool {
        &&& self.admin is Some
        &&& self.groups_wf()
        &&& self.rounds_wf()
        &&& self.escrows_wf()
        &&& self.disputes_wf()
        &&& self.index_wf()
    }

    // --- create_group ---

    pub open spec fn after_create(
        self,
        admin: Address,
        name: Seq<char>,
        token: Address,
        contribution_amount: i128,
        deposit_amount: i128,
        cycle_length: u64,
        max_members: u32,
        now: u64,
    ) -> StorageView {
        let group = created(
            self.group_counter,
            admin,
            name,
            token,
            contribution_amount,
            deposit_amount,
            cycle_length,
            max_members,
            now,
        );
        StorageView {
            group_counter: group.id,
            groups: self.groups.insert(group.id, group),
            deposits: self.deposits.insert(group.id, escrow_with(group, Map::empty(), admin)),
            member_groups: self.member_groups.insert(admin, self.groups_of(admin).push(group.id)),
            ..self
        }
    }

    // --- join_group ---

    pub open spec fn join_error(self, member: Address, group_id: u64) -> Option<ContractError> {
        match self.group(group_id) {
            None => Some(ContractError::GroupNotFound),
            Some(group) => join_refusal(group, member),
        }
    }

    pub open spec fn after_join(self, member: Address, group_id: u64) -> StorageView {
        let group = self.groups[group_id];
        StorageView {
            groups: self.groups.insert(group_id, joined(group, member)),
            deposits: self.deposits.insert(
                group_id,
                escrow_with(group, self.escrow(group_id), member),
            ),
            member_groups: self.member_groups.insert(
                member,
                self.groups_of(member).push(group_id),
            ),
            ..self
        }
    }

    // --- leave_group ---

    pub open spec fn leave_error(self, member: Address, group_id: u64) -> Option<ContractError> {
        match self.group(group_id) {
            None => Some(ContractError::GroupNotFound),
            Some(group) => leave_refusal(group, member),
        }
    }

    pub open spec fn after_leave(self, member: Address, group_id: u64) -> StorageView {
        let group = self.groups[group_id];
        StorageView {
            groups: self.groups.insert(group_id, left(group, member)),
            deposits: self.deposits.insert(group_id, self.escrow(group_id).remove(member)),
            member_groups: self.member_groups.insert(
                member,
                groups_without(self.groups_of(member), group_id),
            ),
            ..self
        }
    }

    // --- start_group ---

    pub open spec fn start_error(self, caller: Address, group_id: u64) -> Option<ContractError> {
        match self.group(group_id) {
            None => Some(ContractError::GroupNotFound),
            Some(group) => start_refusal(group, caller),
        }
    }

    pub open spec fn after_start(self, group_id: u64, now: u64) -> StorageView {
        let group = started(self.groups[group_id]);
        StorageView {
            groups: self.groups.insert(group_id, group),
            rounds: self.rounds.insert(
                RoundKey { group_id, round: 1 },
                round_opened(group, 1, now),
            ),
            ..self
        }
    }

    /// The current round of a group, as the store has it.
    pub open spec fn current_round(self, group_id: u64) -> Option<RoundView> {
        self.round(group_id, self.groups[group_id].current_round)
    }

    // --- contribute ---

    pub open spec fn contribute_error(
        self,
        member: Address,
        group_id: u64,
    ) -> Option<ContractError> {
        match self.group(group_id) {
            None => Some(ContractError::GroupNotFound),
            Some(group) => contribute_refusal(group, self.current_round(group_id), member),
        }
    }

    /// Has the current round of the group room for one contribution more?
    pub open spec fn pot_has_room(self, group_id: u64) -> bool {
        self.current_round(group_id).unwrap().total_contributed
            + self.groups[group_id].contribution_amount <= i128::MAX
    }

    pub open spec fn after_contribute(self, member: Address, group_id: u64) -> StorageView {
        let group = self.groups[group_id];
        let current = self.current_round(group_id).unwrap();
        StorageView {
            rounds: self.rounds.insert(
                RoundKey { group_id, round: current.round_number },
                contributed(group, current, member),
            ),
            ..self
        }
    }

    // --- distribute_payout ---

    pub open spec fn payout_error(self, group_id: u64) -> Option<ContractError> {
        match self.group(group_id) {
            None => Some(ContractError::GroupNotFound),
            Some(group) => payout_refusal(group, self.current_round(group_id)),
        }
    }

    pub open spec fn after_payout(self, group_id: u64, now: u64) -> StorageView {
        let group = self.groups[group_id];
        StorageView {
            groups: self.groups.insert(group_id, settled(group)),
            deposits: self.deposits.insert(
                group_id,
                settled_escrow(group, self.escrow(group_id)),
            ),
            rounds: match settled_next_round(group, now) {
                Some(next) => self.rounds.insert(
                    RoundKey { group_id, round: next.round_number },
                    next,
                ),
                None => self.rounds,
            },
            ..self
        }
    }

    /// The transfers of a settlement: the pot to the recipient, then the
    /// deposits back where the group completes.
    pub open spec fn payout_transfers(self, group_id: u64) -> Seq<Transfer> {
        let current = self.current_round(group_id).unwrap();
        seq![Transfer::Pay { member: current.recipient, amount: current.total_contributed }]
            + settled_refunds(self.groups[group_id], self.escrow(group_id))
    }

    // --- governance ---

    /// The store with another record of one group.
    pub open spec fn with_group(self, group_id: u64, group: GroupView) -> StorageView {
        StorageView { groups: self.groups.insert(group_id, group), ..self }
    }

    pub open spec fn pause_error(self, caller: Address, group_id: u64) -> Option<ContractError> {
        match self.group(group_id) {
            None => Some(ContractError::GroupNotFound),
            Some(group) => pause_refusal(group, caller, self.admin.unwrap()),
        }
    }

    pub open spec fn after_pause(self, group_id: u64) -> StorageView {
        StorageView {
            groups: self.groups.insert(
                group_id,
                with_status(self.groups[group_id], GroupStatus::Paused),
            ),
            disputes: self.disputes.remove(group_id),
            ..self
        }
    }

    pub open spec fn resume_error(self, caller: Address, group_id: u64) -> Option<ContractError> {
        match self.group(group_id) {
            None => Some(ContractError::GroupNotFound),
            Some(group) => reactivate_refusal(
                group,
                caller,
                self.admin.unwrap(),
                GroupStatus::Paused,
            ),
        }
    }

    pub open spec fn after_resume(self, group_id: u64) -> StorageView {
        self.with_group(group_id, with_status(self.groups[group_id], GroupStatus::Active))
    }

    pub open spec fn dispute_error(self, member: Address, group_id: u64) -> Option<ContractError> {
        match self.group(group_id) {
            None => Some(ContractError::GroupNotFound),
            Some(group) => dispute_refusal(group, member),
        }
    }

    pub open spec fn after_dispute(
        self,
        member: Address,
        group_id: u64,
        reason: Seq<char>,
        now: u64,
    ) -> StorageView {
        StorageView {
            groups: self.groups.insert(
                group_id,
                with_status(self.groups[group_id], GroupStatus::Disputed),
            ),
            disputes: self.disputes.insert(
                group_id,
                DisputeView { raised_by: member, reason, raised_at: now },
            ),
            ..self
        }
    }

    pub open spec fn resolve_error(self, caller: Address, group_id: u64) -> Option<ContractError> {
        match self.group(group_id) {
            None => Some(ContractError::GroupNotFound),
            Some(group) => reactivate_refusal(
                group,
                caller,
                self.admin.unwrap(),
                GroupStatus::Disputed,
            ),
        }
    }

    pub open spec fn after_resolve(self, group_id: u64) -> StorageView {
        StorageView {
            groups: self.groups.insert(
                group_id,
                with_status(self.groups[group_id], GroupStatus::Active),
            ),
            disputes: self.disputes.remove(group_id),
            ..self
        }
    }

    pub open spec fn emergency_error(
        self,
        caller: Address,
        group_id: u64,
    ) -> Option<ContractError> {
        match self.group(group_id) {
            None => Some(ContractError::GroupNotFound),
            Some(group) => emergency_refusal(group, caller, self.admin.unwrap()),
        }
    }

    pub open spec fn after_emergency(self, group_id: u64) -> StorageView {
        StorageView {
            groups: self.groups.insert(
                group_id,
                with_status(self.groups[group_id], GroupStatus::Completed),
            ),
            disputes: self.disputes.remove(group_id),
            ..self
        }
    }

    pub open spec fn handover_error(self, caller: Address, group_id: u64) -> Option<ContractError> {
        match self.group(group_id) {
            None => Some(ContractError::GroupNotFound),
            Some(group) => handover_refusal(group, caller),
        }
    }

    pub open spec fn after_handover(self, group_id: u64, new_admin: Address) -> StorageView {
        self.with_group(group_id, GroupView { admin: new_admin, ..self.groups[group_id] })
    }

    // --- templates ---

    pub open spec fn after_save_template(
        self,
        owner: Address,
        name: Seq<char>,
        token: Address,
        contribution_amount: i128,
        cycle_length: u64,
        max_members: u32,
    ) -> StorageView {
        let id = (self.template_count(owner) + 1) as u32;
        StorageView {
            templates: self.templates.insert(
                TemplateKey { owner, id },
                TemplateView { id, name, token, contribution_amount, cycle_length, max_members },
            ),
            template_counters: self.template_counters.insert(owner, id),
            ..self
        }
    }

    pub open spec fn from_template_error(
        self,
        owner: Address,
        template_id: u32,
    ) -> Option<ContractError> {
        match self.template(owner, template_id) {
            None => Some(ContractError::TemplateNotFound),
            Some(template) => terms_refusal(
                template.contribution_amount,
                0,
                template.max_members,
            ),
        }
    }
}

/// A new group keeps the store well-formed.
pub proof fn lemma_create_keeps_wf(
    store: StorageView,
    admin: Address,
    name: Seq<char>,
    token: Address,
    contribution_amount: i128,
    deposit_amount: i128,
    cycle_length: u64,
    max_members: u32,
    now: u64,
)
    requires
        store.wf(),
        store.group_counter < u64::MAX,
        terms_refusal(contribution_amount, deposit_amount, max_members) is None,
    ensures
        store.after_create(
            admin,
            name,
            token,
            contribution_amount,
            deposit_amount,
            cycle_length,
            max_members,
            now,
        ).wf(),
{
    let next = store.after_create(
        admin,
        name,
        token,
        contribution_amount,
        deposit_amount,
        cycle_length,
        max_members,
        now,
    );
    let group = created(
        store.group_counter,
        admin,
        name,
        token,
        contribution_amount,
        deposit_amount,
        cycle_length,
        max_members,
        now,
    );
    let id = group.id;
    assert(!store.groups.contains_key(id));
    assert(group.members[0] == admin);
    assert(next.groups_wf());
    assert(next.rounds_wf()) by {
        assert forall|other: u64| #[trigger]
            next.groups.contains_key(other) && next.groups[other].is_started() implies {
            let g = next.groups[other];
            &&& next.round(other, g.current_round) matches Some(current)
            &&& current.round_number == g.current_round
            &&& current.recipient == g.payout_order[g.current_round - 1]
            &&& current.accumulated_in(g)
        } by {
            assert(store.groups.contains_key(other));
        }
        assert forall|key: RoundKey| #[trigger] next.rounds.contains_key(key) implies
            next.round_in_place(key) by {
            assert(store.round_in_place(key));
        }
    }
    assert(next.escrows_wf()) by {
        assert forall|other: u64| #[trigger] next.groups.contains_key(other) implies escrow_within(
            next.groups[other],
            next.escrow(other),
        ) by {
            if other != id {
                assert(store.groups.contains_key(other));
            }
        }
    }
    assert(next.disputes_wf()) by {
        assert forall|other: u64| #[trigger]
            next.groups.contains_key(other) && next.groups[other].status
                == GroupStatus::Disputed implies next.disputes.contains_key(other) by {
            assert(store.groups.contains_key(other));
        }
        assert forall|other: u64| #[trigger] next.disputes.contains_key(other) implies
            next.groups.contains_key(other) && next.groups[other].status
            == GroupStatus::Disputed by {
            assert(store.disputes.contains_key(other));
        }
    }
    assert(next.index_wf()) by {
        assert forall|member: Address, other: u64| #[trigger]
            next.groups_of(member).contains(other) <==> (next.groups.contains_key(other)
                && next.groups[other].members.contains(member)) by {
            lemma_index_after_entering(store, next, admin, id, group, member, other);
        }
    }
}

/// What the index says once `who` has entered the group `id`, if it said
/// the truth before.
proof fn lemma_index_after_entering(
    store: StorageView,
    next: StorageView,
    who: Address,
    id: u64,
    group: GroupView,
    member: Address,
    other: u64,
)
    requires
        store.index_wf(),
        next.groups == store.groups.insert(id, group),
        next.member_groups == store.member_groups.insert(who, store.groups_of(who).push(id)),
        forall|a: Address|
            group.members.contains(a) <==> (a == who || (store.groups.contains_key(id)
                && store.groups[id].members.contains(a))),
    ensures
        next.groups_of(member).contains(other) <==> (next.groups.contains_key(other)
            && next.groups[other].members.contains(member)),
{
    let before = store.groups_of(member);
    assert(before.contains(other) <==> (store.groups.contains_key(other)
        && store.groups[other].members.contains(member)));
    if member == who {
        let now = before.push(id);
        assert(next.groups_of(member) == now);
        assert(now.contains(other) <==> (before.contains(other) || other == id)) by {
            if now.contains(other) {
                let i = choose|i: int| 0 <= i < now.len() && now[i] == other;
                if i < before.len() {
                    assert(before[i] == other);
                }
            }
            if before.contains(other) {
                let i = choose|i: int| 0 <= i < before.len() && before[i] == other;
                assert(now[i] == other);
            }
            if other == id {
                assert(now[before.len() as int] == other);
            }
        }
    } else {
        assert(next.groups_of(member) == before);
    }
}

/// What the other groups hold is untouched when one group changes: their
/// records, rounds and escrows are what they were.
proof fn lemma_others_keep_wf(store: StorageView, next: StorageView, id: u64)
    requires
        store.wf(),
        store.groups.contains_key(id),
        next.admin == store.admin,
        next.group_counter == store.group_counter,
        forall|other: u64| next.groups.contains_key(other) <==> store.groups.contains_key(other),
        forall|other: u64| other != id && store.groups.contains_key(other) ==> {
            &&& next.groups[other] == store.groups[other]
            &&& next.escrow(other) == store.escrow(other)
        },
        forall|other: u64|
            other != id ==> (#[trigger] next.disputes.contains_key(other)
                <==> store.disputes.contains_key(other)),
        forall|key: RoundKey|
            key.group_id != id && #[trigger] next.rounds.contains_key(key) ==> {
                &&& store.rounds.contains_key(key)
                &&& next.rounds[key] == store.rounds[key]
            },
        forall|key: RoundKey|
            key.group_id != id && #[trigger] store.rounds.contains_key(key) ==> {
                &&& next.rounds.contains_key(key)
                &&& next.rounds[key] == store.rounds[key]
            },
        forall|key: RoundKey|
            key.group_id == id && #[trigger] next.rounds.contains_key(key) ==> {
                &&& 1 <= key.round <= next.groups[id].current_round
                &&& next.rounds[key].round_number == key.round
                &&& next.rounds[key].wf()
            },
        next.groups[id].wf(),
        next.groups[id].id == id,
        next.groups[id].is_started() ==> {
            let group = next.groups[id];
            &&& next.round(id, group.current_round) matches Some(current)
            &&& current.round_number == group.current_round
            &&& current.recipient == group.payout_order[group.current_round - 1]
            &&& current.accumulated_in(group)
        },
        escrow_within(next.groups[id], next.escrow(id)),
        next.groups[id].status == GroupStatus::Disputed <==> next.disputes.contains_key(id),
        forall|member: Address, other: u64| #[trigger]
            next.groups_of(member).contains(other) <==> (next.groups.contains_key(other)
                && next.groups[other].members.contains(member)),
    ensures
        next.wf(),
{
    assert(next.groups_wf()) by {
        assert forall|other: u64| #[trigger] next.groups.contains_key(other) implies {
            &&& next.groups[other].wf()
            &&& next.groups[other].id == other
            &&& 1 <= other <= next.group_counter
        } by {
            assert(store.groups.contains_key(other));
        }
        assert forall|other: u64| 1 <= other <= next.group_counter implies #[trigger]
            next.groups.contains_key(other) by {
            assert(store.groups.contains_key(other));
        }
    }
    assert(next.rounds_wf()) by {
        assert forall|other: u64| #[trigger]
            next.groups.contains_key(other) && next.groups[other].is_started() implies {
            let g = next.groups[other];
            &&& next.round(other, g.current_round) matches Some(current)
            &&& current.round_number == g.current_round
            &&& current.recipient == g.payout_order[g.current_round - 1]
            &&& current.accumulated_in(g)
        } by {
            assert(store.groups.contains_key(other));
            if other != id {
                let key = RoundKey { group_id: other, round: store.groups[other].current_round };
                assert(store.rounds.contains_key(key));
                assert(next.rounds.contains_key(key));
            }
        }
        assert forall|key: RoundKey| #[trigger] next.rounds.contains_key(key) implies
            next.round_in_place(key) by {
            if key.group_id != id {
                assert(store.rounds.contains_key(key));
                assert(store.round_in_place(key));
            }
        }
    }
    assert(next.escrows_wf()) by {
        assert forall|other: u64| #[trigger] next.groups.contains_key(other) implies escrow_within(
            next.groups[other],
            next.escrow(other),
        ) by {
            assert(store.groups.contains_key(other));
            if other != id {
                assert(escrow_within(store.groups[other], store.escrow(other)));
            }
        }
    }
    assert(next.disputes_wf()) by {
        assert forall|other: u64| #[trigger]
            next.groups.contains_key(other) && next.groups[other].status
                == GroupStatus::Disputed implies next.disputes.contains_key(other) by {
            assert(store.groups.contains_key(other));
            if other != id {
                assert(store.disputes.contains_key(other));
            }
        }
        assert forall|other: u64| #[trigger] next.disputes.contains_key(other) implies
            next.groups.contains_key(other) && next.groups[other].status
            == GroupStatus::Disputed by {
            if other != id {
                assert(store.disputes.contains_key(other));
            }
        }
    }
}

/// The index says the truth of a store in which the member lists and the
/// index are what they were in a store of which it said the truth.
proof fn lemma_index_unchanged(store: StorageView, next: StorageView, id: u64)
    requires
        store.index_wf(),
        store.groups.contains_key(id),
        next.groups == store.groups.insert(id, next.groups[id]),
        next.groups[id].members == store.groups[id].members,
        next.member_groups == store.member_groups,
    ensures
        next.index_wf(),
{
    assert forall|member: Address, other: u64| #[trigger]
        next.groups_of(member).contains(other) <==> (next.groups.contains_key(other)
            && next.groups[other].members.contains(member)) by {
        assert(store.groups_of(member).contains(other) <==> (store.groups.contains_key(other)
            && store.groups[other].members.contains(member)));
    }
}

/// A member more keeps the store well-formed.
pub proof fn lemma_join_keeps_wf(store: StorageView, member: Address, group_id: u64)
    requires
        store.wf(),
        store.join_error(member, group_id) is None,
    ensures
        store.after_join(member, group_id).wf(),
{
    let next = store.after_join(member, group_id);
    let group = store.groups[group_id];
    let inside = joined(group, member);
    crate::lifecycle::lemma_move_keeps_wf(group, crate::lifecycle::Move::Join { member });
    assert forall|a: Address|
        inside.members.contains(a) <==> (a == member || group.members.contains(a)) by {
        if inside.members.contains(a) {
            let i = choose|i: int| 0 <= i < inside.members.len() && inside.members[i] == a;
            if i < group.members.len() {
                assert(group.members[i] == a);
            }
        }
        if group.members.contains(a) {
            let i = choose|i: int| 0 <= i < group.members.len() && group.members[i] == a;
            assert(inside.members[i] == a);
        }
        if a == member {
            assert(inside.members[group.members.len() as int] == a);
        }
    }
    assert(escrow_within(inside, next.escrow(group_id))) by {
        assert(escrow_within(group, store.escrow(group_id)));
    }
    assert forall|key: RoundKey|
        key.group_id == group_id && #[trigger] next.rounds.contains_key(key) implies {
        &&& 1 <= key.round <= next.groups[group_id].current_round
        &&& next.rounds[key].round_number == key.round
        &&& next.rounds[key].wf()
    } by {
        assert(store.round_in_place(key));
    }
    assert forall|m: Address, other: u64| #[trigger]
        next.groups_of(m).contains(other) <==> (next.groups.contains_key(other)
            && next.groups[other].members.contains(m)) by {
        lemma_index_after_entering(store, next, member, group_id, inside, m, other);
    }
    lemma_others_keep_wf(store, next, group_id);
}

/// A member less keeps the store well-formed.
pub proof fn lemma_leave_keeps_wf(store: StorageView, member: Address, group_id: u64)
    requires
        store.wf(),
        store.leave_error(member, group_id) is None,
    ensures
        store.after_leave(member, group_id).wf(),
{
    let next = store.after_leave(member, group_id);
    let group = store.groups[group_id];
    let outside = left(group, member);
    crate::lifecycle::lemma_move_keeps_wf(group, crate::lifecycle::Move::Leave { member });
    assert forall|a: Address|
        outside.members.contains(a) <==> (group.members.contains(a) && a != member) by {
        roster::lemma_without_contains(group.members, member, a);
    }
    assert(escrow_within(outside, next.escrow(group_id))) by {
        assert(escrow_within(group, store.escrow(group_id)));
    }
    assert forall|m: Address, other: u64| #[trigger]
        next.groups_of(m).contains(other) <==> (next.groups.contains_key(other)
            && next.groups[other].members.contains(m)) by {
        let before = store.groups_of(m);
        assert(before.contains(other) <==> (store.groups.contains_key(other)
            && store.groups[other].members.contains(m)));
        if m == member {
            storage::lemma_groups_without_contains(before, group_id, other);
        }
    }
    lemma_others_keep_wf(store, next, group_id);
}

/// A start keeps the store well-formed.
pub proof fn lemma_start_keeps_wf(store: StorageView, caller: Address, group_id: u64, now: u64)
    requires
        store.wf(),
        store.start_error(caller, group_id) is None,
    ensures
        store.after_start(group_id, now).wf(),
{
    let next = store.after_start(group_id, now);
    let group = store.groups[group_id];
    crate::lifecycle::lemma_move_keeps_wf(group, crate::lifecycle::Move::Start { caller });
    assert(escrow_within(started(group), next.escrow(group_id))) by {
        assert(escrow_within(group, store.escrow(group_id)));
    }
    lemma_index_unchanged(store, next, group_id);
    assert(next.round(group_id, 1) == Some(round_opened(started(group), 1, now)));
    lemma_others_keep_wf(store, next, group_id);
}

/// A contribution keeps the store well-formed.
pub proof fn lemma_contribute_keeps_wf(store: StorageView, member: Address, group_id: u64)
    requires
        store.wf(),
        store.contribute_error(member, group_id) is None,
        store.pot_has_room(group_id),
    ensures
        store.after_contribute(member, group_id).wf(),
        store.groups[group_id].is_started(),
        store.current_round(group_id).unwrap().round_number
            == store.groups[group_id].current_round,
{
    let next = store.after_contribute(member, group_id);
    let group = store.groups[group_id];
    let current = store.current_round(group_id).unwrap();
    assert(group.is_started()) by {
        let key = RoundKey { group_id, round: group.current_round };
        assert(store.rounds.contains_key(key));
        assert(store.round_in_place(key));
    }
    crate::laws::lemma_pot_holds_the_contributions(group, current, member);
    assert(next.groups == store.groups.insert(group_id, group)) by {
        assert(next.groups =~= store.groups.insert(group_id, group));
    }
    lemma_index_unchanged(store, next, group_id);
    assert(escrow_within(group, store.escrow(group_id)));
    lemma_others_keep_wf(store, next, group_id);
}

/// A settlement keeps the store well-formed.
pub proof fn lemma_payout_keeps_wf(store: StorageView, group_id: u64, now: u64)
    requires
        store.wf(),
        store.payout_error(group_id) is None,
    ensures
        store.after_payout(group_id, now).wf(),
{
    let next = store.after_payout(group_id, now);
    let group = store.groups[group_id];
    let current = store.current_round(group_id);
    crate::lifecycle::lemma_move_keeps_wf(group, crate::lifecycle::Move::Settle { round: current });
    assert(escrow_within(settled(group), next.escrow(group_id))) by {
        assert(escrow_within(group, store.escrow(group_id)));
    }
    lemma_index_unchanged(store, next, group_id);
    if group.is_started() {
        if in_last_round(group) {
            assert(next.round(group_id, group.current_round) == store.round(
                group_id,
                group.current_round,
            ));
        } else {
            let opened = settled_next_round(group, now).unwrap();
            assert(next.round(group_id, opened.round_number) == Some(opened));
        }
    }
    lemma_others_keep_wf(store, next, group_id);
}

/// What a start does on the ledger. It is made by the administrator alone,
/// of a forming group with two members or more. It makes the member list the
/// payout order, with one round for each member, opens the first round for
/// the first of them, and changes nothing else of the group. It is not made
/// twice.
pub proof fn lemma_start_on_the_ledger(store: StorageView, caller: Address, group_id: u64, now: u64)
    requires
        store.wf(),
        store.start_error(caller, group_id) is None,
    ensures
        ({
            let group = store.groups[group_id];
            let next = store.after_start(group_id, now);
            let after = next.groups[group_id];
            &&& caller == group.admin
            &&& group.status == GroupStatus::Forming
            &&& group.members.len() >= 2
            &&& after == (GroupView {
                payout_order: group.members,
                total_rounds: after.total_rounds,
                current_round: 1,
                status: GroupStatus::Active,
                ..group
            })
            &&& after.total_rounds == group.members.len()
            &&& after.payout_order.len() == group.members.len()
            &&& next.round(group_id, 1) matches Some(first)
            &&& first.recipient == group.members[0]
            &&& first.contributions.len() == 0
            &&& !first.is_complete
            &&& next.start_error(caller, group_id) == Some(ContractError::GroupNotForming)
        }),
{
}

/// When the administrator cannot start a group: a group that is no longer
/// forming, and a forming group of fewer than two.
pub proof fn lemma_start_refusals(store: StorageView, group_id: u64)
    requires
        store.groups.contains_key(group_id),
    ensures
        ({
            let group = store.groups[group_id];
            &&& group.status != GroupStatus::Forming ==> store.start_error(group.admin, group_id)
                == Some(ContractError::GroupNotForming)
            &&& group.status == GroupStatus::Forming && group.members.len() < 2
                ==> store.start_error(group.admin, group_id) == Some(
                ContractError::InsufficientMembers,
            )
        }),
{
}

/// What a contribution does on the ledger. It marks the contributor in the
/// current round, after those marked before, and the round is complete
/// afterwards exactly when as many are marked as the group has members. The
/// group is as it was, and the same member is refused a second time.
pub proof fn lemma_contribution_on_the_ledger(store: StorageView, member: Address, group_id: u64)
    requires
        store.wf(),
        store.contribute_error(member, group_id) is None,
    ensures
        ({
            let group = store.groups[group_id];
            let before = store.current_round(group_id).unwrap();
            let next = store.after_contribute(member, group_id);
            &&& group.status == GroupStatus::Active
            &&& !before.is_complete
            &&& next.groups == store.groups
            &&& next.current_round(group_id) matches Some(now)
            &&& now.contributions == before.contributions.push(member)
            &&& now.is_complete == (now.contributions.len() == group.members.len())
            &&& next.contribute_error(member, group_id) == Some(
                if now.is_complete {
                    ContractError::RoundNotActive
                } else {
                    ContractError::AlreadyContributed
                },
            )
        }),
{
    let group = store.groups[group_id];
    let before = store.current_round(group_id).unwrap();
    let key = RoundKey { group_id, round: group.current_round };
    assert(store.rounds.contains_key(key));
    assert(store.round_in_place(key));
    crate::laws::lemma_no_second_contribution(group, before, member);
}

/// What a settlement does on the ledger. It is made only of an active group
/// whose current round is stored and complete. It takes the group one round
/// further and leaves it active, or, from the last round, completes it and
/// leaves the round number alone; nothing else of the group changes, and the
/// record of the settled round stays as it is. Right after a settlement that
/// opened a round, another settlement is refused.
pub proof fn lemma_settlement_on_the_ledger(store: StorageView, group_id: u64, now: u64)
    requires
        store.wf(),
        store.payout_error(group_id) is None,
    ensures
        ({
            let group = store.groups[group_id];
            let next = store.after_payout(group_id, now);
            let after = next.groups[group_id];
            &&& group.status == GroupStatus::Active
            &&& store.current_round(group_id) matches Some(current)
            &&& current.is_complete
            &&& 1 <= group.current_round <= group.total_rounds
            &&& after == (GroupView {
                status: after.status,
                current_round: after.current_round,
                ..group
            })
            &&& if group.current_round == group.total_rounds {
                after.status == GroupStatus::Completed && after.current_round
                    == group.current_round
            } else {
                &&& after.status == GroupStatus::Active
                &&& after.current_round == group.current_round + 1
                &&& next.payout_error(group_id) == Some(ContractError::RoundNotComplete)
            }
            &&& next.round(group_id, group.current_round) == store.round(
                group_id,
                group.current_round,
            )
        }),
{
    let group = store.groups[group_id];
    let key = RoundKey { group_id, round: group.current_round };
    assert(store.rounds.contains_key(key));
    assert(store.round_in_place(key));
}

/// Another record of one group keeps the store well-formed where it is
/// well-formed itself, has the members, the rounds and the amounts of the
/// record before, and is disputed exactly with a dispute on record.
pub proof fn lemma_regroup_keeps_wf(
    store: StorageView,
    group_id: u64,
    group: GroupView,
    disputes: Map<u64, DisputeView>,
)
    requires
        store.wf(),
        store.groups.contains_key(group_id),
        group.wf(),
        group.id == group_id,
        group.members == store.groups[group_id].members,
        group.payout_order == store.groups[group_id].payout_order,
        group.current_round == store.groups[group_id].current_round,
        group.total_rounds == store.groups[group_id].total_rounds,
        group.contribution_amount == store.groups[group_id].contribution_amount,
        group.deposit_amount == store.groups[group_id].deposit_amount,
        group.status == GroupStatus::Disputed <==> disputes.contains_key(group_id),
        forall|other: u64|
            other != group_id ==> (#[trigger] disputes.contains_key(other)
                <==> store.disputes.contains_key(other)),
    ensures
        (StorageView { groups: store.groups.insert(group_id, group), disputes, ..store }).wf(),
{
    let next = StorageView { groups: store.groups.insert(group_id, group), disputes, ..store };
    lemma_index_unchanged(store, next, group_id);
    assert(escrow_within(group, next.escrow(group_id))) by {
        assert(escrow_within(store.groups[group_id], store.escrow(group_id)));
    }
    assert forall|key: RoundKey|
        key.group_id == group_id && #[trigger] next.rounds.contains_key(key) implies {
        &&& 1 <= key.round <= next.groups[group_id].current_round
        &&& next.rounds[key].round_number == key.round
        &&& next.rounds[key].wf()
    } by {
        assert(store.round_in_place(key));
    }
    lemma_others_keep_wf(store, next, group_id);
}

/// What an unwinding does on the ledger. The administrator of the protocol
/// is refused it of a completed group alone. It completes the group whatever
/// its status was and whatever the pool holds, ends its dispute, and changes
/// nothing else: not the members, the rounds or the administrator of the
/// group, no round and no escrow.
pub proof fn lemma_unwinding_on_the_ledger(store: StorageView, group_id: u64)
    requires
        store.wf(),
        store.groups.contains_key(group_id),
    ensures
        ({
            let group = store.groups[group_id];
            let caller = store.admin.unwrap();
            let next = store.after_emergency(group_id);
            if group.status == GroupStatus::Completed {
                store.emergency_error(caller, group_id) == Some(ContractError::GroupCompleted)
            } else {
                &&& store.emergency_error(caller, group_id) is None
                &&& next.groups[group_id] == (GroupView {
                    status: GroupStatus::Completed,
                    ..group
                })
                &&& next.rounds == store.rounds
                &&& next.deposits == store.deposits
                &&& next.member_groups == store.member_groups
                &&& !next.disputes.contains_key(group_id)
                &&& next.wf()
            }
        }),
{
    let group = store.groups[group_id];
    if group.status != GroupStatus::Completed {
        lemma_regroup_keeps_wf(
            store,
            group_id,
            with_status(group, GroupStatus::Completed),
            store.disputes.remove(group_id),
        );
    }
}

/// Templates come and go without a trace in the rest of the store.
pub proof fn lemma_templates_keep_wf(
    store: StorageView,
    templates: Map<TemplateKey, TemplateView>,
    template_counters: Map<Address, u32>,
)
    requires
        store.wf(),
    ensures
        (StorageView { templates, template_counters, ..store }).wf(),
{
    let next = StorageView { templates, template_counters, ..store };
    assert(next.groups_wf());
    assert(next.rounds_wf()) by {
        assert forall|key: RoundKey| #[trigger] next.rounds.contains_key(key) implies
            next.round_in_place(key) by {
            assert(store.round_in_place(key));
        }
    }
    assert(next.escrows_wf());
    assert(next.disputes_wf());
    assert(next.index_wf()) by {
        assert forall|member: Address, other: u64| #[trigger]
            next.groups_of(member).contains(other) <==> (next.groups.contains_key(other)
                && next.groups[other].members.contains(member)) by {
            assert(store.groups_of(member).contains(other) <==> (store.groups.contains_key(other)
                && store.groups[other].members.contains(member)));
        }
    }
}

impl View for SoroSaveContract {
    type V = ContractView;

    closed spec fn view(&self) -> ContractView {
        ContractView {
            store: self.storage@,
            timestamp: self.timestamp,
            transfers: self.transfers@,
            events: self.events@,
        }
    }
}

impl SoroSaveContract {
    /// What holds of the contract between any two calls.
    pub open spec fn wf(&self) -> bool {
        self@.store.wf()
    }

    /// The contract as it is set up, with the administrator of the protocol
    /// and nothing else in the store.
    pub fn new(admin: Address) -> (contract: SoroSaveContract)
        ensures
            contract.wf(),
            contract@.store == (StorageView { admin: Some(admin), ..StorageView::empty() }),
            contract@.timestamp == 0,
            contract@.transfers == Seq::<Transfer>::empty(),
            contract@.events == Seq::<Event>::empty(),
    {
        let mut store = Storage::new();
        storage::set_admin(&mut store, &admin);
        SoroSaveContract {
            storage: store,
            timestamp: 0,
            transfers: Vec::new(),
            events: Vec::new(),
        }
    }

    /// The time of the ledger.
    pub fn timestamp(&self) -> (now: u64)
        ensures
            now == self@.timestamp,
    {
        self.timestamp
    }

    /// Sets the time of the ledger.
    pub fn set_timestamp(&mut self, now: u64)
        ensures
            final(self)@ == (ContractView { timestamp: now, ..old(self)@ }),
    {
        self.timestamp = now;
    }

    /// The store, to read.
    pub fn storage(&self) -> (store: &Storage)
        ensures
            store@ == self@.store,
    {
        &self.storage
    }

    /// The transfers that the calls have asked for, oldest first.
    pub fn transfers(&self) -> (asked: &Vec<Transfer>)
        ensures
            asked@ == self@.transfers,
    {
        &self.transfers
    }

    /// The events that the calls have reported, oldest first.
    pub fn events(&self) -> (reported: &Vec<Event>)
        ensures
            reported@ == self@.events,
    {
        &self.events
    }

    /// Create a new savings group. The caller becomes the administrator of
    /// the group and its first member.
    pub fn create_group(
        &mut self,
        admin: Address,
        name: String,
        token: Address,
        contribution_amount: i128,
        deposit_amount: i128,
        cycle_length: u64,
        max_members: u32,
    ) -> (made: Result<u64, ContractError>)
        requires
            old(self).wf(),
            terms_refusal(contribution_amount, deposit_amount, max_members) is None
                ==> old(self)@.store.group_counter < u64::MAX,
        ensures
            final(self).wf(),
            match made {
                Ok(id) => {
                    &&& terms_refusal(contribution_amount, deposit_amount, max_members) is None
                    &&& id == old(self)@.store.group_counter + 1
                    &&& final(self)@ == old(self)@.after(
                        old(self)@.store.after_create(
                            admin,
                            name@,
                            token,
                            contribution_amount,
                            deposit_amount,
                            cycle_length,
                            max_members,
                            old(self)@.timestamp,
                        ),
                        if deposit_amount > 0 {
                            seq![Transfer::Collect { member: admin, amount: deposit_amount }]
                        } else {
                            Seq::empty()
                        },
                        seq![Event::GroupCreated { group_id: id }],
                    )
                },
                Err(e) => terms_refusal(contribution_amount, deposit_amount, max_members)
                    == Some(e) && final(self)@ == old(self)@,
            },
    {
        let ghost name_view = name@;
        let counter = storage::get_group_counter(&self.storage);
        let change = match crate::group::create_group(
            counter,
            admin,
            name,
            token,
            contribution_amount,
            deposit_amount,
            cycle_length,
            max_members,
            self.timestamp,
        ) {
            Ok(change) => change,
            Err(e) => {
                return Err(e);
            },
        };
        let id = change.group.id;
        storage::set_group_counter(&mut self.storage, id);
        storage::set_group(&mut self.storage, &change.group);
        storage::set_deposits(&mut self.storage, id, change.deposits);
        storage::add_member_group(&mut self.storage, &admin, id);
        match change.transfer {
            Some(t) => {
                self.transfers.push(t);
            },
            None => {},
        }
        self.events.push(change.event);
        proof {
            lemma_create_keeps_wf(
                old(self)@.store,
                admin,
                name_view,
                token,
                contribution_amount,
                deposit_amount,
                cycle_length,
                max_members,
                old(self)@.timestamp,
            );
            assert(final(self)@.transfers =~= old(self)@.transfers + optional(
                deposit_due(change.group@, admin),
            ));
            assert(final(self)@.events =~= old(self)@.events + seq![
                Event::GroupCreated { group_id: id },
            ]);
        }
        Ok(id)
    }

    /// Join an existing group that is still forming.
    pub fn join_group(
        &mut self,
        member: Address,
        group_id: u64,
    ) -> (done: Result<(), ContractError>)
        requires
            old(self).wf(),
        ensures
            final(self).wf(),
            match done {
                Ok(()) => {
                    &&& old(self)@.store.join_error(member, group_id) is None
                    &&& final(self)@ == old(self)@.after(
                        old(self)@.store.after_join(member, group_id),
                        optional(deposit_due(old(self)@.store.groups[group_id], member)),
                        seq![Event::GroupJoined { group_id, member }],
                    )
                },
                Err(e) => old(self)@.store.join_error(member, group_id) == Some(e) && final(self)@
                    == old(self)@,
            },
    {
        let group = match storage::get_group(&self.storage, group_id) {
            Some(group) => group,
            None => {
                return Err(ContractError::GroupNotFound);
            },
        };
        let deposits = storage::get_deposits(&self.storage, group_id);
        let change = match crate::group::join_group(group, deposits, member) {
            Ok(change) => change,
            Err(e) => {
                return Err(e);
            },
        };
        storage::set_group(&mut self.storage, &change.group);
        storage::set_deposits(&mut self.storage, group_id, change.deposits);
        storage::add_member_group(&mut self.storage, &member, group_id);
        match change.transfer {
            Some(t) => {
                self.transfers.push(t);
            },
            None => {},
        }
        self.events.push(change.event);
        proof {
            lemma_join_keeps_wf(old(self)@.store, member, group_id);
            assert(final(self)@.transfers =~= old(self)@.transfers + optional(
                deposit_due(old(self)@.store.groups[group_id], member),
            ));
            assert(final(self)@.events =~= old(self)@.events + seq![
                Event::GroupJoined { group_id, member },
            ]);
        }
        Ok(())
    }

    /// Leave a group, which is only allowed while the group is forming.
    pub fn leave_group(
        &mut self,
        member: Address,
        group_id: u64,
    ) -> (done: Result<(), ContractError>)
        requires
            old(self).wf(),
        ensures
            final(self).wf(),
            match done {
                Ok(()) => {
                    &&& old(self)@.store.leave_error(member, group_id) is None
                    &&& final(self)@ == old(self)@.after(
                        old(self)@.store.after_leave(member, group_id),
                        optional(deposit_back(old(self)@.store.escrow(group_id), member)),
                        seq![Event::GroupLeft { group_id, member }],
                    )
                },
                Err(e) => {
                    &&& old(self)@.store.leave_error(member, group_id) == Some(e)
                    &&& final(self)@ == old(self)@
                },
            },
    {
        let group = match storage::get_group(&self.storage, group_id) {
            Some(group) => group,
            None => {
                return Err(ContractError::GroupNotFound);
            },
        };
        let deposits = storage::get_deposits(&self.storage, group_id);
        let change = match crate::group::leave_group(group, deposits, member) {
            Ok(change) => change,
            Err(e) => {
                return Err(e);
            },
        };
        storage::set_group(&mut self.storage, &change.group);
        storage::set_deposits(&mut self.storage, group_id, change.deposits);
        storage::remove_member_group(&mut self.storage, &member, group_id);
        match change.transfer {
            Some(t) => {
                self.transfers.push(t);
            },
            None => {},
        }
        self.events.push(change.event);
        proof {
            lemma_leave_keeps_wf(old(self)@.store, member, group_id);
            assert(final(self)@.transfers =~= old(self)@.transfers + optional(
                deposit_back(old(self)@.store.escrow(group_id), member),
            ));
            assert(final(self)@.events =~= old(self)@.events + seq![
                Event::GroupLeft { group_id, member },
            ]);
        }
        Ok(())
    }

    /// Start the rounds of a group. Only the administrator of the group can.
    pub fn start_group(
        &mut self,
        admin: Address,
        group_id: u64,
    ) -> (done: Result<(), ContractError>)
        requires
            old(self).wf(),
            old(self)@.store.start_error(admin, group_id) is None ==> old(self)@.timestamp
                + old(self)@.store.groups[group_id].cycle_length <= u64::MAX,
        ensures
            final(self).wf(),
            match done {
                Ok(()) => {
                    &&& old(self)@.store.start_error(admin, group_id) is None
                    &&& final(self)@ == old(self)@.after(
                        old(self)@.store.after_start(group_id, old(self)@.timestamp),
                        Seq::empty(),
                        seq![Event::GroupStarted { group_id }],
                    )
                },
                Err(e) => {
                    &&& old(self)@.store.start_error(admin, group_id) == Some(e)
                    &&& final(self)@ == old(self)@
                },
            },
    {
        let group = match storage::get_group(&self.storage, group_id) {
            Some(group) => group,
            None => {
                return Err(ContractError::GroupNotFound);
            },
        };
        let go = match crate::group::start_group(group, admin, self.timestamp) {
            Ok(go) => go,
            Err(e) => {
                return Err(e);
            },
        };
        storage::set_round(&mut self.storage, group_id, &go.round);
        storage::set_group(&mut self.storage, &go.group);
        self.events.push(go.event);
        proof {
            lemma_start_keeps_wf(old(self)@.store, admin, group_id, old(self)@.timestamp);
            assert(final(self)@.transfers =~= old(self)@.transfers + Seq::<Transfer>::empty());
            assert(final(self)@.events =~= old(self)@.events + seq![
                Event::GroupStarted { group_id },
            ]);
        }
        Ok(())
    }

    /// Contribute to the current round of a group.
    pub fn contribute(
        &mut self,
        member: Address,
        group_id: u64,
    ) -> (done: Result<(), ContractError>)
        requires
            old(self).wf(),
            old(self)@.store.contribute_error(member, group_id) is None
                ==> old(self)@.store.pot_has_room(group_id),
        ensures
            final(self).wf(),
            match done {
                Ok(()) => {
                    &&& old(self)@.store.contribute_error(member, group_id) is None
                    &&& final(self)@ == old(self)@.after(
                        old(self)@.store.after_contribute(member, group_id),
                        seq![
                            Transfer::Collect {
                                member,
                                amount: old(self)@.store.groups[group_id].contribution_amount,
                            },
                        ],
                        seq![
                            Event::Contributed {
                                group_id,
                                member,
                                amount: old(self)@.store.groups[group_id].contribution_amount,
                            },
                        ],
                    )
                },
                Err(e) => {
                    &&& old(self)@.store.contribute_error(member, group_id) == Some(e)
                    &&& final(self)@ == old(self)@
                },
            },
    {
        let group = match storage::get_group(&self.storage, group_id) {
            Some(group) => group,
            None => {
                return Err(ContractError::GroupNotFound);
            },
        };
        let round = storage::get_round(&self.storage, group_id, group.current_round);
        let c = match crate::contribution::contribute(&group, round, member) {
            Ok(c) => c,
            Err(e) => {
                return Err(e);
            },
        };
        storage::set_round(&mut self.storage, group_id, &c.round);
        self.transfers.push(c.transfer);
        self.events.push(c.event);
        proof {
            lemma_contribute_keeps_wf(old(self)@.store, member, group_id);
            assert(final(self)@.transfers =~= old(self)@.transfers + seq![c.transfer]);
            assert(final(self)@.events =~= old(self)@.events + seq![c.event]);
        }
        Ok(())
    }

    /// Distribute the pot to the recipient of the current round. Anyone can
    /// call this once all contributions are in.
    pub fn distribute_payout(&mut self, group_id: u64) -> (done: Result<(), ContractError>)
        requires
            old(self).wf(),
            old(self)@.store.payout_error(group_id) is None && !in_last_round(
                old(self)@.store.groups[group_id],
            ) ==> old(self)@.timestamp + old(self)@.store.groups[group_id].cycle_length
                <= u64::MAX,
        ensures
            final(self).wf(),
            match done {
                Ok(()) => {
                    &&& old(self)@.store.payout_error(group_id) is None
                    &&& final(self)@ == old(self)@.after(
                        old(self)@.store.after_payout(group_id, old(self)@.timestamp),
                        old(self)@.store.payout_transfers(group_id),
                        settled_events(
                            old(self)@.store.groups[group_id],
                            old(self)@.store.current_round(group_id).unwrap(),
                        ),
                    )
                },
                Err(e) => old(self)@.store.payout_error(group_id) == Some(e) && final(self)@
                    == old(self)@,
            },
    {
        let group = match storage::get_group(&self.storage, group_id) {
            Some(group) => group,
            None => {
                return Err(ContractError::GroupNotFound);
            },
        };
        let round = storage::get_round(&self.storage, group_id, group.current_round);
        let deposits = storage::get_deposits(&self.storage, group_id);
        let settlement = match crate::payout::distribute_payout(
            group,
            round.as_ref(),
            deposits,
            self.timestamp,
        ) {
            Ok(settlement) => settlement,
            Err(e) => {
                return Err(e);
            },
        };
        let mut refunds = settlement.refunds;
        let mut events = settlement.events;
        self.transfers.push(settlement.payout);
        self.transfers.append(&mut refunds);
        self.events.append(&mut events);
        storage::set_group(&mut self.storage, &settlement.group);
        storage::set_deposits(&mut self.storage, group_id, settlement.deposits);
        match settlement.next_round {
            Some(next) => {
                storage::set_round(&mut self.storage, group_id, &next);
            },
            None => {},
        }
        proof {
            lemma_payout_keeps_wf(old(self)@.store, group_id, old(self)@.timestamp);
            assert(final(self)@.transfers =~= old(self)@.transfers
                + old(self)@.store.payout_transfers(group_id));
        }
        Ok(())
    }

    /// Pause a group.
    pub fn pause_group(
        &mut self,
        admin: Address,
        group_id: u64,
    ) -> (done: Result<(), ContractError>)
        requires
            old(self).wf(),
        ensures
            final(self).wf(),
            match done {
                Ok(()) => {
                    &&& old(self)@.store.pause_error(admin, group_id) is None
                    &&& final(self)@ == old(self)@.after(
                        old(self)@.store.after_pause(group_id),
                        Seq::empty(),
                        seq![Event::GroupPaused { group_id }],
                    )
                },
                Err(e) => old(self)@.store.pause_error(admin, group_id) == Some(e) && final(self)@
                    == old(self)@,
            },
    {
        let group = match storage::get_group(&self.storage, group_id) {
            Some(group) => group,
            None => {
                return Err(ContractError::GroupNotFound);
            },
        };
        let protocol_admin = storage::get_admin(&self.storage);
        let paused = match crate::admin::pause_group(group, admin, protocol_admin) {
            Ok(paused) => paused,
            Err(e) => {
                return Err(e);
            },
        };
        storage::set_group(&mut self.storage, &paused.group);
        if paused.dispute_over {
            storage::remove_dispute(&mut self.storage, group_id);
        }
        self.events.push(paused.event);
        proof {
            if !paused.dispute_over {
                assert(old(self)@.store.disputes.remove(group_id) =~= old(self)@.store.disputes);
            }
            lemma_regroup_keeps_wf(
                old(self)@.store,
                group_id,
                paused.group@,
                old(self)@.store.disputes.remove(group_id),
            );
            assert(final(self)@.transfers =~= old(self)@.transfers + Seq::<Transfer>::empty());
            assert(final(self)@.events =~= old(self)@.events + seq![paused.event]);
        }
        Ok(())
    }

    /// Resume a paused group.
    pub fn resume_group(
        &mut self,
        admin: Address,
        group_id: u64,
    ) -> (done: Result<(), ContractError>)
        requires
            old(self).wf(),
        ensures
            final(self).wf(),
            match done {
                Ok(()) => {
                    &&& old(self)@.store.resume_error(admin, group_id) is None
                    &&& final(self)@ == old(self)@.after(
                        old(self)@.store.after_resume(group_id),
                        Seq::empty(),
                        seq![Event::GroupResumed { group_id }],
                    )
                },
                Err(e) => {
                    &&& old(self)@.store.resume_error(admin, group_id) == Some(e)
                    &&& final(self)@ == old(self)@
                },
            },
    {
        let group = match storage::get_group(&self.storage, group_id) {
            Some(group) => group,
            None => {
                return Err(ContractError::GroupNotFound);
            },
        };
        let protocol_admin = storage::get_admin(&self.storage);
        let resumed = match crate::admin::resume_group(group, admin, protocol_admin) {
            Ok(resumed) => resumed,
            Err(e) => {
                return Err(e);
            },
        };
        storage::set_group(&mut self.storage, &resumed.group);
        self.events.push(resumed.event);
        proof {
            lemma_regroup_keeps_wf(
                old(self)@.store,
                group_id,
                resumed.group@,
                old(self)@.store.disputes,
            );
            assert(final(self)@.transfers =~= old(self)@.transfers + Seq::<Transfer>::empty());
            assert(final(self)@.events =~= old(self)@.events + seq![resumed.event]);
        }
        Ok(())
    }

    /// Raise a dispute on a group.
    pub fn raise_dispute(
        &mut self,
        member: Address,
        group_id: u64,
        reason: String,
    ) -> (done: Result<(), ContractError>)
        requires
            old(self).wf(),
        ensures
            final(self).wf(),
            match done {
                Ok(()) => {
                    &&& old(self)@.store.dispute_error(member, group_id) is None
                    &&& final(self)@ == old(self)@.after(
                        old(self)@.store.after_dispute(
                            member,
                            group_id,
                            reason@,
                            old(self)@.timestamp,
                        ),
                        Seq::empty(),
                        seq![Event::DisputeRaised { group_id, member }],
                    )
                },
                Err(e) => {
                    &&& old(self)@.store.dispute_error(member, group_id) == Some(e)
                    &&& final(self)@ == old(self)@
                },
            },
    {
        let group = match storage::get_group(&self.storage, group_id) {
            Some(group) => group,
            None => {
                return Err(ContractError::GroupNotFound);
            },
        };
        let raised = match crate::admin::raise_dispute(group, member, reason, self.timestamp) {
            Ok(raised) => raised,
            Err(e) => {
                return Err(e);
            },
        };
        storage::set_group(&mut self.storage, &raised.group);
        storage::set_dispute(&mut self.storage, group_id, &raised.dispute);
        self.events.push(raised.event);
        proof {
            lemma_regroup_keeps_wf(
                old(self)@.store,
                group_id,
                raised.group@,
                old(self)@.store.disputes.insert(group_id, raised.dispute@),
            );
            assert(final(self)@.transfers =~= old(self)@.transfers + Seq::<Transfer>::empty());
            assert(final(self)@.events =~= old(self)@.events + seq![raised.event]);
        }
        Ok(())
    }

    /// Resolve a dispute, as the administrator of the group or of the
    /// protocol.
    pub fn resolve_dispute(
        &mut self,
        admin: Address,
        group_id: u64,
    ) -> (done: Result<(), ContractError>)
        requires
            old(self).wf(),
        ensures
            final(self).wf(),
            match done {
                Ok(()) => {
                    &&& old(self)@.store.resolve_error(admin, group_id) is None
                    &&& final(self)@ == old(self)@.after(
                        old(self)@.store.after_resolve(group_id),
                        Seq::empty(),
                        seq![Event::DisputeResolved { group_id }],
                    )
                },
                Err(e) => {
                    &&& old(self)@.store.resolve_error(admin, group_id) == Some(e)
                    &&& final(self)@ == old(self)@
                },
            },
    {
        let group = match storage::get_group(&self.storage, group_id) {
            Some(group) => group,
            None => {
                return Err(ContractError::GroupNotFound);
            },
        };
        let protocol_admin = storage::get_admin(&self.storage);
        let resolved = match crate::admin::resolve_dispute(group, admin, protocol_admin) {
            Ok(resolved) => resolved,
            Err(e) => {
                return Err(e);
            },
        };
        storage::set_group(&mut self.storage, &resolved.group);
        storage::remove_dispute(&mut self.storage, group_id);
        self.events.push(resolved.event);
        proof {
            lemma_regroup_keeps_wf(
                old(self)@.store,
                group_id,
                resolved.group@,
                old(self)@.store.disputes.remove(group_id),
            );
            assert(final(self)@.transfers =~= old(self)@.transfers + Seq::<Transfer>::empty());
            assert(final(self)@.events =~= old(self)@.events + seq![resolved.event]);
        }
        Ok(())
    }

    /// Unwind a group in an emergency, as the administrator of the protocol,
    /// with `balance` as what the pool holds of the token of the group. What
    /// the pool holds above the deposits goes to the members in equal shares;
    /// the group is completed whatever there is to share.
    pub fn emergency_withdraw(
        &mut self,
        admin: Address,
        group_id: u64,
        balance: i128,
    ) -> (done: Result<(), ContractError>)
        requires
            old(self).wf(),
        ensures
            final(self).wf(),
            match done {
                Ok(()) => {
                    &&& old(self)@.store.emergency_error(admin, group_id) is None
                    &&& final(self)@ == old(self)@.after(
                        old(self)@.store.after_emergency(group_id),
                        emergency_payouts(
                            old(self)@.store.groups[group_id],
                            old(self)@.store.escrow(group_id),
                            balance,
                        ),
                        seq![Event::EmergencyWithdrawn { group_id }],
                    )
                },
                Err(e) => {
                    &&& old(self)@.store.emergency_error(admin, group_id) == Some(e)
                    &&& final(self)@ == old(self)@
                },
            },
    {
        let group = match storage::get_group(&self.storage, group_id) {
            Some(group) => group,
            None => {
                return Err(ContractError::GroupNotFound);
            },
        };
        let protocol_admin = storage::get_admin(&self.storage);
        let deposits = storage::get_deposits(&self.storage, group_id);
        let unwound = match crate::admin::emergency_withdraw(
            group,
            &deposits,
            admin,
            protocol_admin,
            balance,
        ) {
            Ok(unwound) => unwound,
            Err(e) => {
                return Err(e);
            },
        };
        let mut payouts = unwound.payouts;
        self.transfers.append(&mut payouts);
        storage::set_group(&mut self.storage, &unwound.group);
        if unwound.dispute_over {
            storage::remove_dispute(&mut self.storage, group_id);
        }
        self.events.push(unwound.event);
        proof {
            if !unwound.dispute_over {
                assert(old(self)@.store.disputes.remove(group_id) =~= old(self)@.store.disputes);
            }
            lemma_regroup_keeps_wf(
                old(self)@.store,
                group_id,
                unwound.group@,
                old(self)@.store.disputes.remove(group_id),
            );
            assert(final(self)@.events =~= old(self)@.events + seq![unwound.event]);
        }
        Ok(())
    }

    /// Hand the administration of a group over.
    pub fn set_group_admin(
        &mut self,
        current_admin: Address,
        group_id: u64,
        new_admin: Address,
    ) -> (done: Result<(), ContractError>)
        requires
            old(self).wf(),
        ensures
            final(self).wf(),
            match done {
                Ok(()) => {
                    &&& old(self)@.store.handover_error(current_admin, group_id) is None
                    &&& final(self)@ == old(self)@.after(
                        old(self)@.store.after_handover(group_id, new_admin),
                        Seq::empty(),
                        seq![Event::AdminChanged { group_id, new_admin }],
                    )
                },
                Err(e) => old(self)@.store.handover_error(current_admin, group_id) == Some(e)
                    && final(self)@ == old(self)@,
            },
    {
        let group = match storage::get_group(&self.storage, group_id) {
            Some(group) => group,
            None => {
                return Err(ContractError::GroupNotFound);
            },
        };
        let handed = match crate::admin::set_group_admin(group, current_admin, new_admin) {
            Ok(handed) => handed,
            Err(e) => {
                return Err(e);
            },
        };
        storage::set_group(&mut self.storage, &handed.group);
        self.events.push(handed.event);
        proof {
            lemma_regroup_keeps_wf(
                old(self)@.store,
                group_id,
                handed.group@,
                old(self)@.store.disputes,
            );
            assert(final(self)@.transfers =~= old(self)@.transfers + Seq::<Transfer>::empty());
            assert(final(self)@.events =~= old(self)@.events + seq![handed.event]);
        }
        Ok(())
    }

    // --- reads ---

    /// The record of a group.
    pub fn get_group(&self, group_id: u64) -> (got: Result<SavingsGroup, ContractError>)
        ensures
            match got {
                Ok(group) => self@.store.group(group_id) == Some(group@),
                Err(e) => e == ContractError::GroupNotFound && self@.store.group(group_id) is None,
            },
    {
        crate::group::get_group(storage::get_group(&self.storage, group_id))
    }

    /// The numbers of all groups that a member belongs to, in the order the
    /// member entered them.
    pub fn get_member_groups(&self, member: Address) -> (groups: Vec<u64>)
        ensures
            groups@ == self@.store.groups_of(member),
    {
        storage::get_member_groups(&self.storage, &member)
    }

    /// The record of one round of a group.
    pub fn get_round_status(
        &self,
        group_id: u64,
        round: u32,
    ) -> (got: Result<RoundInfo, ContractError>)
        ensures
            match got {
                Ok(info) => self@.store.round(group_id, round) == Some(info@),
                Err(e) => e == ContractError::RoundNotActive && self@.store.round(group_id, round)
                    is None,
            },
    {
        crate::contribution::get_round_status(storage::get_round(&self.storage, group_id, round))
    }

    /// Has the member contributed to that round of the group?
    pub fn has_contributed(
        &self,
        member: Address,
        group_id: u64,
        round: u32,
    ) -> (got: Result<bool, ContractError>)
        ensures
            match self@.store.round(group_id, round) {
                Some(info) => got == Ok::<bool, ContractError>(info.has_contributed(member)),
                None => got == Err::<bool, ContractError>(ContractError::RoundNotActive),
            },
    {
        let found = storage::get_round(&self.storage, group_id, round);
        crate::contribution::has_contributed(found.as_ref(), member)
    }

    /// The payout order of a group.
    pub fn get_payout_order(&self, group_id: u64) -> (got: Result<Vec<Address>, ContractError>)
        ensures
            match self@.store.group(group_id) {
                Some(group) => got matches Ok(order) && order@ == group.payout_order,
                None => got == Err::<Vec<Address>, ContractError>(ContractError::GroupNotFound),
            },
    {
        let found = storage::get_group(&self.storage, group_id);
        crate::payout::get_payout_order(found.as_ref())
    }

    /// The recipient of the current round of a group.
    pub fn get_current_recipient(&self, group_id: u64) -> (got: Result<Address, ContractError>)
        ensures
            ({
                let group = self@.store.group(group_id);
                let round = if group is Some {
                    self@.store.current_round(group_id)
                } else {
                    None
                };
                match got {
                    Ok(who) => recipient_refusal(group, round) is None && who
                        == round.unwrap().recipient,
                    Err(e) => recipient_refusal(group, round) == Some(e),
                }
            }),
    {
        let found = storage::get_group(&self.storage, group_id);
        let round = match &found {
            Some(group) => storage::get_round(&self.storage, group_id, group.current_round),
            None => None,
        };
        crate::payout::get_current_recipient(found.as_ref(), round.as_ref())
    }

    // --- templates ---

    /// Save the terms of a group for quick creation later; ten to an owner.
    pub fn save_template(
        &mut self,
        admin: Address,
        name: String,
        token: Address,
        contribution_amount: i128,
        cycle_length: u64,
        max_members: u32,
    ) -> (made: Result<u32, ContractError>)
        requires
            old(self).wf(),
        ensures
            final(self).wf(),
            match made {
                Ok(id) => {
                    &&& template_refusal(
                        old(self)@.store.template_count(admin),
                        contribution_amount,
                        max_members,
                    ) is None
                    &&& id == old(self)@.store.template_count(admin) + 1
                    &&& final(self)@ == old(self)@.after(
                        old(self)@.store.after_save_template(
                            admin,
                            name@,
                            token,
                            contribution_amount,
                            cycle_length,
                            max_members,
                        ),
                        Seq::empty(),
                        seq![Event::TemplateSaved { owner: admin, template_id: id }],
                    )
                },
                Err(e) => template_refusal(
                    old(self)@.store.template_count(admin),
                    contribution_amount,
                    max_members,
                ) == Some(e) && final(self)@ == old(self)@,
            },
    {
        let count = storage::get_template_counter(&self.storage, &admin);
        let saved = match crate::group::save_template(
            admin,
            count,
            name,
            token,
            contribution_amount,
            cycle_length,
            max_members,
        ) {
            Ok(saved) => saved,
            Err(e) => {
                return Err(e);
            },
        };
        let id = saved.template.id;
        storage::set_template(&mut self.storage, &admin, &saved.template);
        storage::set_template_counter(&mut self.storage, &admin, id);
        self.events.push(saved.event);
        proof {
            assert(final(self)@.transfers =~= old(self)@.transfers + Seq::<Transfer>::empty());
            assert(final(self)@.events =~= old(self)@.events + seq![saved.event]);
            lemma_templates_keep_wf(
                old(self)@.store,
                final(self)@.store.templates,
                final(self)@.store.template_counters,
            );
        }
        Ok(id)
    }

    /// A saved template, by its owner and number.
    pub fn get_template(
        &self,
        admin: Address,
        template_id: u32,
    ) -> (got: Result<GroupTemplate, ContractError>)
        ensures
            match got {
                Ok(template) => self@.store.template(admin, template_id) == Some(template@),
                Err(e) => e == ContractError::TemplateNotFound && self@.store.template(
                    admin,
                    template_id,
                ) is None,
            },
    {
        crate::group::get_template(storage::get_template(&self.storage, &admin, template_id))
    }

    /// Create a new group with the terms of a saved template.
    pub fn create_from_template(
        &mut self,
        admin: Address,
        template_id: u32,
        name: String,
    ) -> (made: Result<u64, ContractError>)
        requires
            old(self).wf(),
            old(self)@.store.from_template_error(admin, template_id) is None
                ==> old(self)@.store.group_counter < u64::MAX,
        ensures
            final(self).wf(),
            match made {
                Ok(id) => {
                    &&& old(self)@.store.from_template_error(admin, template_id) is None
                    &&& id == old(self)@.store.group_counter + 1
                    &&& final(self)@ == old(self)@.after(
                        ({
                            let template = old(self)@.store.template(admin, template_id).unwrap();
                            old(self)@.store.after_create(
                                admin,
                                name@,
                                template.token,
                                template.contribution_amount,
                                0,
                                template.cycle_length,
                                template.max_members,
                                old(self)@.timestamp,
                            )
                        }),
                        Seq::empty(),
                        seq![Event::GroupCreated { group_id: id }],
                    )
                },
                Err(e) => old(self)@.store.from_template_error(admin, template_id) == Some(e)
                    && final(self)@ == old(self)@,
            },
    {
        let template = match storage::get_template(&self.storage, &admin, template_id) {
            Some(template) => template,
            None => {
                return Err(ContractError::TemplateNotFound);
            },
        };
        self.create_group(
            admin,
            name,
            template.token,
            template.contribution_amount,
            0,
            template.cycle_length,
            template.max_members,
        )
    }
}

} // verus!
