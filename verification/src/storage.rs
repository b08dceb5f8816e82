//! The ledger store: every record that outlives a call, under its key.

use vstd::prelude::*;
use crate::address::Address;
use crate::escrow::DepositLedger;
use crate::table::{Key, Table};
use crate::types::{
    view_of, Dispute, DisputeView, GroupTemplate, GroupView, RoundInfo, RoundView, SavingsGroup,
    TemplateView,
};

verus! {

/// The key of a round: the group it belongs to and its number.
#[derive(Clone, Copy, Debug, PartialEq, Eq, Hash, Structural)]
pub struct RoundKey {
    pub group_id: u64,
    pub round: u32,
}

impl Key for RoundKey {
    fn same(&self, other: &RoundKey) -> (eq: bool) {
        self.group_id == other.group_id && self.round == other.round
    }
}

/// The key of a template: its owner and its number with that owner.
#[derive(Clone, Copy, Debug, PartialEq, Eq, Hash)]
pub struct TemplateKey {
    pub owner: Address,
    pub id: u32,
}

impl Key for TemplateKey {
    fn same(&self, other: &TemplateKey) -> (eq: bool) {
        self.owner == other.owner && self.id == other.id
    }
}

/// The keys under which the store keeps its records.
#[derive(Clone, Copy, Debug, PartialEq, Eq, Hash)]
pub enum DataKey {
    /// The administrator of the protocol.
    Admin,
    /// The number of the newest group.
    GroupCounter,
    /// A group, by its number.
    Group(u64),
    /// A round, by the number of its group and its own.
    Round(u64, u32),
    /// The groups of a member.
    MemberGroups(Address),
    /// The live dispute of a group.
    Dispute(u64),
    /// The escrow of a group.
    Deposits(u64),
}

/// The mapping of the values that the records of `records` stand for.
pub open spec fn views<K, V: View>(records: Map<K, V>) -> Map<K, V::V> {
    Map::new(|key: K| records.contains_key(key), |key: K| records[key]@)
}

/// Putting a record under a key puts its value there.
pub proof fn lemma_views_insert<K, V: View>(records: Map<K, V>, key: K, record: V)
    ensures
        views(records.insert(key, record)) == views(records).insert(key, record@),
{
    assert(views(records.insert(key, record)) =~= views(records).insert(key, record@));
}

/// Taking a record out takes its value out.
pub proof fn lemma_views_remove<K, V: View>(records: Map<K, V>, key: K)
    ensures
        views(records.remove(key)) == views(records).remove(key),
{
    assert(views(records.remove(key)) =~= views(records).remove(key));
}

/// The store.
pub struct Storage {
    admin: Option<Address>,
    group_counter: u64,
    groups: Table<u64, SavingsGroup>,
    rounds: Table<RoundKey, RoundInfo>,
    member_groups: Table<Address, Vec<u64>>,
    disputes: Table<u64, Dispute>,
    deposits: Table<u64, DepositLedger>,
    template_counters: Table<Address, u32>,
    templates: Table<TemplateKey, GroupTemplate>,
}

/// The store as a mathematical value.
pub struct StorageView {
    pub admin: Option<Address>,
    pub group_counter: u64,
    pub groups: Map<u64, GroupView>,
    pub rounds: Map<RoundKey, RoundView>,
    pub member_groups: Map<Address, Seq<u64>>,
    pub disputes: Map<u64, DisputeView>,
    pub deposits: Map<u64, Map<Address, i128>>,
    pub template_counters: Map<Address, u32>,
    pub templates: Map<TemplateKey, TemplateView>,
}

impl StorageView {
    /// The store before anything was written to it.
    pub open spec fn empty() -> StorageView {
        StorageView {
            admin: None,
            group_counter: 0,
            groups: Map::empty(),
            rounds: Map::empty(),
            member_groups: Map::empty(),
            disputes: Map::empty(),
            deposits: Map::empty(),
            template_counters: Map::empty(),
            templates: Map::empty(),
        }
    }

    pub open spec fn group(self, group_id: u64) -> Option<GroupView> {
        if self.groups.contains_key(group_id) {
            Some(self.groups[group_id])
        } else {
            None
        }
    }

    pub open spec fn round(self, group_id: u64, round: u32) -> Option<RoundView> {
        if self.rounds.contains_key(RoundKey { group_id, round }) {
            Some(self.rounds[RoundKey { group_id, round }])
        } else {
            None
        }
    }

    /// The groups of `member`, in the order the member entered them; none for
    /// a member the store knows nothing of.
    pub open spec fn groups_of(self, member: Address) -> Seq<u64> {
        if self.member_groups.contains_key(member) {
            self.member_groups[member]
        } else {
            Seq::empty()
        }
    }

    pub open spec fn dispute(self, group_id: u64) -> Option<DisputeView> {
        if self.disputes.contains_key(group_id) {
            Some(self.disputes[group_id])
        } else {
            None
        }
    }

    /// The escrow of a group; empty for a group the store holds none for.
    pub open spec fn escrow(self, group_id: u64) -> Map<Address, i128> {
        if self.deposits.contains_key(group_id) {
            self.deposits[group_id]
        } else {
            Map::empty()
        }
    }

    /// How many templates `owner` has saved.
    pub open spec fn template_count(self, owner: Address) -> u32 {
        if self.template_counters.contains_key(owner) {
            self.template_counters[owner]
        } else {
            0
        }
    }

    pub open spec fn template(self, owner: Address, id: u32) -> Option<TemplateView> {
        if self.templates.contains_key(TemplateKey { owner, id }) {
            Some(self.templates[TemplateKey { owner, id }])
        } else {
            None
        }
    }

    /// Is there a record under `key`?
    pub open spec fn has(self, key: DataKey) -> bool {
        match key {
            DataKey::Admin => self.admin is Some,
            DataKey::GroupCounter => true,
            DataKey::Group(id) => self.groups.contains_key(id),
            DataKey::Round(group_id, round) => self.rounds.contains_key(
                RoundKey { group_id, round },
            ),
            DataKey::MemberGroups(member) => self.member_groups.contains_key(member),
            DataKey::Dispute(id) => self.disputes.contains_key(id),
            DataKey::Deposits(id) => self.deposits.contains_key(id),
        }
    }
}

impl View for Storage {
    type V = StorageView;

    closed spec fn view(&self) -> StorageView {
        StorageView {
            admin: self.admin,
            group_counter: self.group_counter,
            groups: views(self.groups@),
            rounds: views(self.rounds@),
            member_groups: views(self.member_groups@),
            disputes: views(self.disputes@),
            deposits: views(self.deposits@),
            template_counters: self.template_counters@,
            templates: views(self.templates@),
        }
    }
}

impl Storage {
    /// A store that holds nothing.
    pub fn new() -> (store: Storage)
        ensures
            store@ == StorageView::empty(),
    {
        let store = Storage {
            admin: None,
            group_counter: 0,
            groups: Table::new(),
            rounds: Table::new(),
            member_groups: Table::new(),
            disputes: Table::new(),
            deposits: Table::new(),
            template_counters: Table::new(),
            templates: Table::new(),
        };
        proof {
            assert(store@.groups =~= Map::empty());
            assert(store@.rounds =~= Map::empty());
            assert(store@.member_groups =~= Map::empty());
            assert(store@.disputes =~= Map::empty());
            assert(store@.deposits =~= Map::empty());
            assert(store@.templates =~= Map::empty());
        }
        store
    }

    /// Is there a record under `key`?
    pub fn has(&self, key: &DataKey) -> (found: bool)
        ensures
            found == self@.has(*key),
    {
        match key {
            DataKey::Admin => self.admin.is_some(),
            DataKey::GroupCounter => true,
            DataKey::Group(id) => self.groups.has(id),
            DataKey::Round(group_id, round) => self.rounds.has(
                &RoundKey { group_id: *group_id, round: *round },
            ),
            DataKey::MemberGroups(member) => self.member_groups.has(member),
            DataKey::Dispute(id) => self.disputes.has(id),
            DataKey::Deposits(id) => self.deposits.has(id),
        }
    }
}

// --- Administrator of the protocol ---

/// The administrator of the protocol, in a store that has one.
pub fn get_admin(store: &Storage) -> (admin: Address)
    requires
        store@.admin is Some,
    ensures
        Some(admin) == store@.admin,
{
    store.admin.unwrap()
}

pub fn set_admin(store: &mut Storage, admin: &Address)
    ensures
        final(store)@ == (StorageView { admin: Some(*admin), ..old(store)@ }),
{
    store.admin = Some(*admin);
}

pub fn has_admin(store: &Storage) -> (found: bool)
    ensures
        found == store@.admin is Some,
{
    store.admin.is_some()
}

// --- Group counter ---

/// The number of the newest group; zero before the first.
pub fn get_group_counter(store: &Storage) -> (counter: u64)
    ensures
        counter == store@.group_counter,
{
    store.group_counter
}

pub fn set_group_counter(store: &mut Storage, counter: u64)
    ensures
        final(store)@ == (StorageView { group_counter: counter, ..old(store)@ }),
{
    store.group_counter = counter;
}

// --- Groups ---

pub fn get_group(store: &Storage, group_id: u64) -> (found: Option<SavingsGroup>)
    ensures
        view_of(found) == store@.group(group_id),
{
    match store.groups.get(&group_id) {
        Some(group) => Some(group.clone()),
        None => None,
    }
}

/// Puts the group under its own number.
pub fn set_group(store: &mut Storage, group: &SavingsGroup)
    ensures
        final(store)@ == (StorageView {
            groups: old(store)@.groups.insert(group.id, group@),
            ..old(store)@
        }),
{
    let copy = group.clone();
    proof {
        lemma_views_insert(store.groups@, group.id, copy);
    }
    store.groups.set(group.id, copy);
}

// --- Rounds ---

pub fn get_round(store: &Storage, group_id: u64, round: u32) -> (found: Option<RoundInfo>)
    ensures
        view_of(found) == store@.round(group_id, round),
{
    match store.rounds.get(&RoundKey { group_id, round }) {
        Some(info) => Some(info.clone()),
        None => None,
    }
}

/// Puts the round under the number of the group and its own.
pub fn set_round(store: &mut Storage, group_id: u64, round_info: &RoundInfo)
    ensures
        final(store)@ == (StorageView {
            rounds: old(store)@.rounds.insert(
                RoundKey { group_id, round: round_info.round_number },
                round_info@,
            ),
            ..old(store)@
        }),
{
    let copy = round_info.clone();
    let key = RoundKey { group_id, round: round_info.round_number };
    proof {
        lemma_views_insert(store.rounds@, key, copy);
    }
    store.rounds.set(key, copy);
}

// --- Groups of a member ---

pub fn get_member_groups(store: &Storage, member: &Address) -> (groups: Vec<u64>)
    ensures
        groups@ == store@.groups_of(*member),
{
    match store.member_groups.get(member) {
        Some(groups) => groups.clone(),
        None => Vec::new(),
    }
}

/// Enters `group_id` as the newest group of `member`.
pub fn add_member_group(store: &mut Storage, member: &Address, group_id: u64)
    ensures
        final(store)@ == (StorageView {
            member_groups: old(store)@.member_groups.insert(
                *member,
                old(store)@.groups_of(*member).push(group_id),
            ),
            ..old(store)@
        }),
{
    let groups = listed_with(get_member_groups(store, member), group_id);
    proof {
        lemma_views_insert(store.member_groups@, *member, groups);
    }
    store.member_groups.set(*member, groups);
}

/// `groups` with every occurrence of `group_id` left out.
pub open spec fn groups_without(groups: Seq<u64>, group_id: u64) -> Seq<u64> {
    groups.filter(|g: u64| g != group_id)
}

/// What `groups_without` keeps: exactly the groups other than `group_id`.
pub proof fn lemma_groups_without_contains(groups: Seq<u64>, group_id: u64, other: u64)
    ensures
        groups_without(groups, group_id).contains(other) <==> (groups.contains(other) && other
            != group_id),
    decreases groups.len(),
{
    reveal(Seq::filter);
    if groups.len() > 0 {
        let front = groups.drop_last();
        let last = groups.last();
        lemma_groups_without_contains(front, group_id, other);
        let kept = groups_without(front, group_id);
        let all = groups_without(groups, group_id);
        assert(all == if last != group_id {
            kept.push(last)
        } else {
            kept
        });
        if groups.contains(other) && other != group_id {
            let i = choose|i: int| 0 <= i < groups.len() && groups[i] == other;
            if i < groups.len() - 1 {
                assert(front[i] == other);
                let j = choose|j: int| 0 <= j < kept.len() && kept[j] == other;
                assert(all[j] == other);
            } else {
                assert(all[kept.len() as int] == other);
            }
        }
        if all.contains(other) {
            let j = choose|j: int| 0 <= j < all.len() && all[j] == other;
            if last != group_id && j == kept.len() {
                assert(groups[groups.len() - 1] == other);
            } else {
                assert(kept[j] == other);
                let i = choose|i: int| 0 <= i < front.len() && front[i] == other;
                assert(groups[i] == other);
            }
        }
    }
}

/// The list of a member's groups with `group_id` as the newest.
pub fn listed_with(groups: Vec<u64>, group_id: u64) -> (listed: Vec<u64>)
    ensures
        listed@ == groups@.push(group_id),
{
    let mut listed = groups;
    listed.push(group_id);
    listed
}

/// The list of a member's groups without `group_id`; the others keep their
/// order.
pub fn listed_without(groups: &Vec<u64>, group_id: u64) -> (rest: Vec<u64>)
    ensures
        rest@ == groups_without(groups@, group_id),
{
    let mut rest: Vec<u64> = Vec::new();
    let mut i: usize = 0;
    proof {
        reveal(Seq::filter);
        assert(groups@.take(0) =~= Seq::<u64>::empty());
    }
    while i < groups.len()
        invariant
            i <= groups.len(),
            rest@ == groups_without(groups@.take(i as int), group_id),
        decreases groups.len() - i,
    {
        proof {
            reveal(Seq::filter);
            assert(groups@.take(i + 1).drop_last() =~= groups@.take(i as int));
        }
        if groups[i] != group_id {
            rest.push(groups[i]);
        }
        i += 1;
    }
    proof {
        assert(groups@.take(groups.len() as int) =~= groups@);
    }
    rest
}

/// Takes `group_id` off the groups of `member`; the others keep their order.
pub fn remove_member_group(store: &mut Storage, member: &Address, group_id: u64)
    ensures
        final(store)@ == (StorageView {
            member_groups: old(store)@.member_groups.insert(
                *member,
                groups_without(old(store)@.groups_of(*member), group_id),
            ),
            ..old(store)@
        }),
{
    let groups = get_member_groups(store, member);
    let rest = listed_without(&groups, group_id);
    proof {
        lemma_views_insert(store.member_groups@, *member, rest);
    }
    store.member_groups.set(*member, rest);
}

// --- Disputes ---

pub fn get_dispute(store: &Storage, group_id: u64) -> (found: Option<Dispute>)
    ensures
        view_of(found) == store@.dispute(group_id),
{
    match store.disputes.get(&group_id) {
        Some(dispute) => Some(dispute.clone()),
        None => None,
    }
}

pub fn set_dispute(store: &mut Storage, group_id: u64, dispute: &Dispute)
    ensures
        final(store)@ == (StorageView {
            disputes: old(store)@.disputes.insert(group_id, dispute@),
            ..old(store)@
        }),
{
    let copy = dispute.clone();
    proof {
        lemma_views_insert(store.disputes@, group_id, copy);
    }
    store.disputes.set(group_id, copy);
}

pub fn remove_dispute(store: &mut Storage, group_id: u64)
    ensures
        final(store)@ == (StorageView {
            disputes: old(store)@.disputes.remove(group_id),
            ..old(store)@
        }),
{
    proof {
        lemma_views_remove(store.disputes@, group_id);
    }
    store.disputes.remove(&group_id);
}

// --- Escrow ---

/// The escrow of a group; empty where the store holds none for it.
pub fn get_deposits(store: &Storage, group_id: u64) -> (ledger: DepositLedger)
    ensures
        ledger@ == store@.escrow(group_id),
{
    match store.deposits.get(&group_id) {
        Some(ledger) => ledger.clone(),
        None => DepositLedger::new(),
    }
}

pub fn set_deposits(store: &mut Storage, group_id: u64, ledger: DepositLedger)
    ensures
        final(store)@ == (StorageView {
            deposits: old(store)@.deposits.insert(group_id, ledger@),
            ..old(store)@
        }),
{
    proof {
        lemma_views_insert(store.deposits@, group_id, ledger);
    }
    store.deposits.set(group_id, ledger);
}

// --- Templates ---

/// How many templates `owner` has saved.
pub fn get_template_counter(store: &Storage, owner: &Address) -> (count: u32)
    ensures
        count == store@.template_count(*owner),
{
    match store.template_counters.get(owner) {
        Some(count) => *count,
        None => 0,
    }
}

pub fn set_template_counter(store: &mut Storage, owner: &Address, count: u32)
    ensures
        final(store)@ == (StorageView {
            template_counters: old(store)@.template_counters.insert(*owner, count),
            ..old(store)@
        }),
{
    store.template_counters.set(*owner, count);
}

pub fn get_template(
    store: &Storage,
    owner: &Address,
    template_id: u32,
) -> (found: Option<GroupTemplate>)
    ensures
        view_of(found) == store@.template(*owner, template_id),
{
    match store.templates.get(&TemplateKey { owner: *owner, id: template_id }) {
        Some(template) => Some(template.clone()),
        None => None,
    }
}

/// Puts the template under its owner and its own number.
pub fn set_template(store: &mut Storage, owner: &Address, template: &GroupTemplate)
    ensures
        final(store)@ == (StorageView {
            templates: old(store)@.templates.insert(
                TemplateKey { owner: *owner, id: template.id },
                template@,
            ),
            ..old(store)@
        }),
{
    let copy = template.clone();
    let key = TemplateKey { owner: *owner, id: template.id };
    proof {
        lemma_views_insert(store.templates@, key, copy);
    }
    store.templates.set(key, copy);
}

} // verus!
