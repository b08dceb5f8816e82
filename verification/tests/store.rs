use sorosave::escrow::{Deposit, DepositLedger};
use sorosave::roster;
use sorosave::storage::{
    add_member_group, get_admin, get_deposits, get_dispute, get_group as stored_group,
    get_group_counter, get_member_groups as stored_member_groups, get_round,
    get_template as stored_template, get_template_counter, has_admin, listed_with,
    listed_without, remove_dispute, remove_member_group, set_admin, set_deposits, set_dispute,
    set_group, set_group_counter, set_round, set_template, set_template_counter, RoundKey,
    Storage, TemplateKey,
};
use sorosave::table::{Key, Row, Table};
use sorosave::{
    Address, DataKey, Dispute, GroupStatus, GroupTemplate, RoundInfo, SavingsGroup, Transfer,
};

fn who(n: u8) -> Address {
    let mut strkey = [b'A'; 56];
    strkey[0] = b'G';
    strkey[1] = n;
    Address::new(strkey)
}

fn group(id: u64) -> SavingsGroup {
    SavingsGroup {
        id,
        name: format!("group {}", id),
        admin: who(1),
        token: who(99),
        contribution_amount: 10,
        deposit_amount: 0,
        cycle_length: 60,
        max_members: 4,
        members: vec![who(1)],
        payout_order: vec![],
        current_round: 0,
        total_rounds: 0,
        status: GroupStatus::Forming,
        created_at: 5,
    }
}

fn round(number: u32) -> RoundInfo {
    RoundInfo {
        round_number: number,
        recipient: who(1),
        contributions: vec![],
        total_contributed: 0,
        is_complete: false,
        deadline: 65,
    }
}

// --- lists of addresses ---

#[test]
fn roster_contains() {
    let list = vec![who(1), who(2), who(3)];
    assert!(roster::contains(&list, &who(1)));
    assert!(roster::contains(&list, &who(3)));
    assert!(!roster::contains(&list, &who(4)));
    assert!(!roster::contains(&vec![], &who(1)));
}

#[test]
fn roster_remove_keeps_the_order() {
    let list = vec![who(1), who(2), who(3), who(2), who(4)];
    assert_eq!(roster::remove(&list, &who(2)), vec![who(1), who(3), who(4)]);
    assert_eq!(roster::remove(&list, &who(1)), vec![who(2), who(3), who(2), who(4)]);
    assert_eq!(roster::remove(&list, &who(9)), list);
    assert_eq!(roster::remove(&vec![], &who(9)), vec![]);
    assert_eq!(roster::remove(&vec![who(5), who(5)], &who(5)), vec![]);
}

#[test]
fn roster_is_unique() {
    assert!(roster::is_unique(&vec![]));
    assert!(roster::is_unique(&vec![who(1)]));
    assert!(roster::is_unique(&vec![who(1), who(2), who(3)]));
    assert!(!roster::is_unique(&vec![who(1), who(2), who(1)]));
    assert!(!roster::is_unique(&vec![who(2), who(2)]));
    assert!(!roster::is_unique(&vec![who(1), who(2), who(3), who(3)]));
}

// --- escrow ---

#[test]
fn escrow_holds_one_amount_for_a_member() {
    let mut ledger = DepositLedger::new();
    assert_eq!(ledger.held(&who(1)), None);
    ledger.deposit(who(1), 10);
    ledger.deposit(who(2), 20);
    assert_eq!(ledger.held(&who(1)), Some(10));
    assert_eq!(ledger.held(&who(2)), Some(20));
    // a second deposit takes the place of the first
    ledger.deposit(who(1), 15);
    assert_eq!(ledger.held(&who(1)), Some(15));
    assert_eq!(ledger.entries().len(), 2);
    assert_eq!(ledger.release(&who(3)), None);
    assert_eq!(ledger.release(&who(1)), Some(15));
    assert_eq!(ledger.release(&who(1)), None);
    assert_eq!(ledger.held(&who(1)), None);
    assert_eq!(ledger.entries(), vec![Deposit { member: who(2), amount: 20 }]);
}

#[test]
fn escrow_totals() {
    let mut ledger = DepositLedger::new();
    ledger.deposit(who(1), 10);
    ledger.deposit(who(2), 20);
    ledger.deposit(who(3), 30);
    assert_eq!(ledger.total_held(&vec![]), 0);
    assert_eq!(ledger.total_held(&vec![who(1), who(3)]), 40);
    assert_eq!(ledger.total_held(&vec![who(1), who(2), who(3), who(4)]), 60);
    assert_eq!(ledger.checked_total_held(&vec![who(2), who(9)]), Some(20));
    let mut big = DepositLedger::new();
    big.deposit(who(1), i128::MAX);
    big.deposit(who(2), 1);
    assert_eq!(big.checked_total_held(&vec![who(1)]), Some(i128::MAX));
    assert_eq!(big.checked_total_held(&vec![who(1), who(2)]), None);
    assert_eq!(big.checked_total_held(&vec![who(2), who(1)]), None);
}

#[test]
fn escrow_refunds_members_in_their_order() {
    let mut ledger = DepositLedger::new();
    ledger.deposit(who(3), 30);
    ledger.deposit(who(1), 10);
    ledger.deposit(who(7), 70);
    let paid = ledger.refund_all(&vec![who(1), who(2), who(3)]);
    assert_eq!(
        paid,
        vec![
            Transfer::Pay { member: who(1), amount: 10 },
            Transfer::Pay { member: who(3), amount: 30 },
        ]
    );
    assert_eq!(ledger.entries(), vec![Deposit { member: who(7), amount: 70 }]);
    assert_eq!(ledger.refund_all(&vec![who(1), who(2), who(3)]), vec![]);
}

#[test]
fn escrow_from_entries() {
    let good = vec![
        Deposit { member: who(1), amount: 1 },
        Deposit { member: who(2), amount: 2 },
    ];
    let ledger = DepositLedger::from_entries(good.clone()).unwrap();
    assert_eq!(ledger.entries(), good);
    assert_eq!(ledger.held(&who(2)), Some(2));
    assert!(DepositLedger::from_entries(vec![]).is_some());
    assert!(DepositLedger::from_entries(vec![Deposit { member: who(1), amount: 0 }]).is_none());
    assert!(DepositLedger::from_entries(vec![Deposit { member: who(1), amount: -3 }]).is_none());
    assert!(DepositLedger::from_entries(vec![
        Deposit { member: who(1), amount: 1 },
        Deposit { member: who(2), amount: 2 },
        Deposit { member: who(1), amount: 3 },
    ])
    .is_none());
}

// --- tables ---

#[test]
fn table_of_numbers() {
    let mut table: Table<u64, u32> = Table::new();
    assert_eq!(table.get(&1), None);
    assert!(!table.has(&1));
    table.set(1, 10);
    table.set(2, 20);
    table.set(1, 11);
    assert_eq!(table.get(&1), Some(&11));
    assert_eq!(table.get(&2), Some(&20));
    assert!(table.has(&2));
    table.remove(&2);
    table.remove(&5);
    assert_eq!(table.get(&2), None);
    assert_eq!(table.get(&1), Some(&11));
}

#[test]
fn table_from_rows() {
    let rows = vec![
        Row { key: 3u64, value: 30u32 },
        Row { key: 1, value: 10 },
    ];
    let table = Table::from_rows(rows).unwrap();
    assert_eq!(table.get(&3), Some(&30));
    assert_eq!(table.get(&1), Some(&10));
    assert_eq!(table.rows().len(), 2);
    assert_eq!(table.rows()[0].key, 3);
    assert_eq!(table.rows()[1].value, 10);
    let twice = vec![
        Row { key: 3u64, value: 30u32 },
        Row { key: 1, value: 10 },
        Row { key: 3, value: 31 },
    ];
    assert!(Table::from_rows(twice).is_none());
    let empty: Table<u64, u32> = Table::from_rows(vec![]).unwrap();
    assert!(empty.rows().is_empty());
}

#[test]
fn rounds_mark_nobody_twice() {
    let mut info = round(1);
    assert!(info.is_well_formed());
    info.contributions = vec![who(1), who(2)];
    assert!(info.is_well_formed());
    info.contributions.push(who(1));
    assert!(!info.is_well_formed());
}

#[test]
fn keys_are_compared_in_full() {
    assert!(7u64.same(&7));
    assert!(!7u64.same(&8));
    assert!(who(1).same(&who(1)));
    assert!(!who(1).same(&who(2)));
    let key = RoundKey { group_id: 1, round: 2 };
    assert!(key.same(&RoundKey { group_id: 1, round: 2 }));
    assert!(!key.same(&RoundKey { group_id: 2, round: 2 }));
    assert!(!key.same(&RoundKey { group_id: 1, round: 1 }));
    let key = TemplateKey { owner: who(1), id: 2 };
    assert!(key.same(&TemplateKey { owner: who(1), id: 2 }));
    assert!(!key.same(&TemplateKey { owner: who(2), id: 2 }));
    assert!(!key.same(&TemplateKey { owner: who(1), id: 3 }));
}

// --- the store ---

#[test]
fn store_of_the_admin_and_the_counter() {
    let mut store = Storage::new();
    assert!(!has_admin(&store));
    assert!(!store.has(&DataKey::Admin));
    assert_eq!(get_group_counter(&store), 0);
    set_admin(&mut store, &who(1));
    assert!(has_admin(&store));
    assert!(store.has(&DataKey::Admin));
    assert_eq!(get_admin(&store), who(1));
    set_admin(&mut store, &who(2));
    assert_eq!(get_admin(&store), who(2));
    set_group_counter(&mut store, 12);
    assert_eq!(get_group_counter(&store), 12);
    assert!(store.has(&DataKey::GroupCounter));
}

#[test]
fn store_of_groups_and_rounds() {
    let mut store = Storage::new();
    assert!(stored_group(&store, 1).is_none());
    set_group(&mut store, &group(1));
    set_group(&mut store, &group(3));
    assert_eq!(stored_group(&store, 1).unwrap().name, "group 1");
    assert_eq!(stored_group(&store, 3).unwrap().id, 3);
    assert!(stored_group(&store, 2).is_none());
    let mut changed = group(1);
    changed.status = GroupStatus::Paused;
    set_group(&mut store, &changed);
    assert_eq!(stored_group(&store, 1).unwrap().status, GroupStatus::Paused);
    assert_eq!(stored_group(&store, 3).unwrap().status, GroupStatus::Forming);
    assert!(store.has(&DataKey::Group(3)));
    assert!(!store.has(&DataKey::Group(2)));

    assert!(get_round(&store, 1, 1).is_none());
    set_round(&mut store, 1, &round(1));
    set_round(&mut store, 1, &round(2));
    set_round(&mut store, 3, &round(1));
    assert_eq!(get_round(&store, 1, 2).unwrap().round_number, 2);
    assert!(get_round(&store, 3, 2).is_none());
    assert!(get_round(&store, 2, 1).is_none());
    let mut complete = round(1);
    complete.is_complete = true;
    set_round(&mut store, 1, &complete);
    assert!(get_round(&store, 1, 1).unwrap().is_complete);
    assert!(!get_round(&store, 3, 1).unwrap().is_complete);
    assert!(store.has(&DataKey::Round(1, 2)));
    assert!(!store.has(&DataKey::Round(1, 3)));
}

#[test]
fn store_of_member_groups() {
    let mut store = Storage::new();
    assert_eq!(stored_member_groups(&store, &who(1)), Vec::<u64>::new());
    assert!(!store.has(&DataKey::MemberGroups(who(1))));
    add_member_group(&mut store, &who(1), 4);
    add_member_group(&mut store, &who(1), 2);
    add_member_group(&mut store, &who(2), 4);
    add_member_group(&mut store, &who(1), 9);
    assert_eq!(stored_member_groups(&store, &who(1)), vec![4, 2, 9]);
    assert_eq!(stored_member_groups(&store, &who(2)), vec![4]);
    remove_member_group(&mut store, &who(1), 2);
    assert_eq!(stored_member_groups(&store, &who(1)), vec![4, 9]);
    remove_member_group(&mut store, &who(1), 7);
    assert_eq!(stored_member_groups(&store, &who(1)), vec![4, 9]);
    remove_member_group(&mut store, &who(3), 7);
    assert_eq!(stored_member_groups(&store, &who(3)), Vec::<u64>::new());
    assert!(store.has(&DataKey::MemberGroups(who(1))));
    assert_eq!(listed_with(vec![1, 2], 3), vec![1, 2, 3]);
    assert_eq!(listed_with(vec![], 3), vec![3]);
    assert_eq!(listed_without(&vec![1, 2, 1, 3], 1), vec![2, 3]);
    assert_eq!(listed_without(&vec![1, 2], 3), vec![1, 2]);
}

#[test]
fn store_of_disputes_and_escrows() {
    let mut store = Storage::new();
    assert!(get_dispute(&store, 1).is_none());
    let dispute = Dispute { raised_by: who(2), reason: String::from("late"), raised_at: 9 };
    set_dispute(&mut store, 1, &dispute);
    let found = get_dispute(&store, 1).unwrap();
    assert_eq!(found.raised_by, who(2));
    assert_eq!(found.reason, "late");
    assert_eq!(found.raised_at, 9);
    assert!(store.has(&DataKey::Dispute(1)));
    remove_dispute(&mut store, 1);
    assert!(get_dispute(&store, 1).is_none());
    remove_dispute(&mut store, 1);
    assert!(!store.has(&DataKey::Dispute(1)));

    assert!(get_deposits(&store, 1).entries().is_empty());
    assert!(!store.has(&DataKey::Deposits(1)));
    let mut ledger = DepositLedger::new();
    ledger.deposit(who(1), 5);
    set_deposits(&mut store, 1, ledger);
    assert_eq!(get_deposits(&store, 1).held(&who(1)), Some(5));
    assert!(get_deposits(&store, 2).entries().is_empty());
    assert!(store.has(&DataKey::Deposits(1)));
}

#[test]
fn store_of_templates() {
    let mut store = Storage::new();
    assert_eq!(get_template_counter(&store, &who(1)), 0);
    set_template_counter(&mut store, &who(1), 3);
    assert_eq!(get_template_counter(&store, &who(1)), 3);
    assert_eq!(get_template_counter(&store, &who(2)), 0);
    assert!(stored_template(&store, &who(1), 1).is_none());
    let template = GroupTemplate {
        id: 1,
        name: String::from("weekly"),
        token: who(99),
        contribution_amount: 5,
        cycle_length: 7,
        max_members: 3,
    };
    set_template(&mut store, &who(1), &template);
    assert_eq!(stored_template(&store, &who(1), 1).unwrap().name, "weekly");
    assert!(stored_template(&store, &who(2), 1).is_none());
    assert!(stored_template(&store, &who(1), 2).is_none());
}
