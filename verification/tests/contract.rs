use sorosave::storage::{get_admin, get_deposits, get_dispute, get_group_counter, get_round};
use sorosave::{Address, ContractError, Event, GroupStatus, SoroSaveContract, Transfer};

fn account(n: u8) -> Address {
    let mut strkey = [b'A'; 56];
    strkey[0] = b'G';
    strkey[55] = n;
    Address::new(strkey)
}

fn contract_address(n: u8) -> Address {
    let mut strkey = [b'A'; 56];
    strkey[0] = b'C';
    strkey[55] = n;
    Address::new(strkey)
}

fn setup_env() -> (Address, SoroSaveContract, Address) {
    let admin = account(1);
    let contract = SoroSaveContract::new(admin);
    let token = contract_address(200);
    (admin, contract, token)
}

fn create_test_group(contract: &mut SoroSaveContract, admin: &Address, token: &Address) -> u64 {
    contract
        .create_group(
            *admin,
            String::from("Test Savings Group"),
            *token,
            1_000_000, // 1 token (7 decimals)
            0,
            86400, // 1 day cycle
            5,     // max 5 members
        )
        .unwrap()
}

#[test]
fn test_create_group() {
    let (admin, mut client, token) = setup_env();
    let group_id = create_test_group(&mut client, &admin, &token);
    assert_eq!(group_id, 1);

    let group = client.get_group(group_id).unwrap();
    assert_eq!(group.admin, admin);
    assert_eq!(group.contribution_amount, 1_000_000);
    assert_eq!(group.max_members, 5);
    assert_eq!(group.status, GroupStatus::Forming);
    assert_eq!(group.members.len(), 1);
}

#[test]
fn test_join_group() {
    let (admin, mut client, token) = setup_env();
    let group_id = create_test_group(&mut client, &admin, &token);

    let member1 = account(2);
    let member2 = account(3);

    client.join_group(member1, group_id).unwrap();
    client.join_group(member2, group_id).unwrap();

    let group = client.get_group(group_id).unwrap();
    assert_eq!(group.members.len(), 3); // admin + 2 members
}

#[test]
fn test_leave_group() {
    let (admin, mut client, token) = setup_env();
    let group_id = create_test_group(&mut client, &admin, &token);

    let member1 = account(2);
    client.join_group(member1, group_id).unwrap();

    assert_eq!(client.get_group(group_id).unwrap().members.len(), 2);

    client.leave_group(member1, group_id).unwrap();
    assert_eq!(client.get_group(group_id).unwrap().members.len(), 1);
}

#[test]
fn test_start_group() {
    let (admin, mut client, token) = setup_env();
    let group_id = create_test_group(&mut client, &admin, &token);

    let member1 = account(2);
    client.join_group(member1, group_id).unwrap();

    client.start_group(admin, group_id).unwrap();

    let group = client.get_group(group_id).unwrap();
    assert_eq!(group.status, GroupStatus::Active);
    assert_eq!(group.current_round, 1);
    assert_eq!(group.total_rounds, 2);
    assert_eq!(group.payout_order.len(), 2);
}

#[test]
fn test_full_cycle() {
    let (admin, mut client, token) = setup_env();
    let group_id = create_test_group(&mut client, &admin, &token);

    let member1 = account(2);
    client.join_group(member1, group_id).unwrap();

    // Create a new group with another token
    let token_id = contract_address(201);
    let group_id = client
        .create_group(
            admin,
            String::from("Full Cycle Test"),
            token_id,
            1_000_000,
            0,
            86400,
            5,
        )
        .unwrap();
    client.join_group(member1, group_id).unwrap();
    client.start_group(admin, group_id).unwrap();

    // Round 1: both contribute
    client.contribute(admin, group_id).unwrap();
    client.contribute(member1, group_id).unwrap();

    let round = client.get_round_status(group_id, 1).unwrap();
    assert!(round.is_complete);

    // Distribute round 1 payout
    client.distribute_payout(group_id).unwrap();

    // Round 2: both contribute
    let group = client.get_group(group_id).unwrap();
    assert_eq!(group.current_round, 2);

    client.contribute(admin, group_id).unwrap();
    client.contribute(member1, group_id).unwrap();

    client.distribute_payout(group_id).unwrap();

    // Group should be completed
    let group = client.get_group(group_id).unwrap();
    assert_eq!(group.status, GroupStatus::Completed);
}

#[test]
fn test_member_groups() {
    let (admin, mut client, token) = setup_env();

    let group1 = create_test_group(&mut client, &admin, &token);
    let group2 = client
        .create_group(admin, String::from("Second Group"), token, 500_000, 0, 43200, 3)
        .unwrap();

    let groups = client.get_member_groups(admin);
    assert_eq!(groups.len(), 2);
    assert_eq!(*groups.get(0).unwrap(), group1);
    assert_eq!(*groups.get(1).unwrap(), group2);
}

#[test]
fn test_pause_resume_group() {
    let (admin, mut client, token) = setup_env();
    let group_id = create_test_group(&mut client, &admin, &token);

    let member1 = account(2);
    client.join_group(member1, group_id).unwrap();
    client.start_group(admin, group_id).unwrap();

    // Pause
    client.pause_group(admin, group_id).unwrap();
    assert_eq!(client.get_group(group_id).unwrap().status, GroupStatus::Paused);

    // Resume
    client.resume_group(admin, group_id).unwrap();
    assert_eq!(client.get_group(group_id).unwrap().status, GroupStatus::Active);
}

#[test]
fn test_dispute_flow() {
    let (admin, mut client, token) = setup_env();
    let group_id = create_test_group(&mut client, &admin, &token);

    let member1 = account(2);
    client.join_group(member1, group_id).unwrap();
    client.start_group(admin, group_id).unwrap();

    // Member raises dispute
    client
        .raise_dispute(member1, group_id, String::from("Suspicious activity"))
        .unwrap();
    assert_eq!(client.get_group(group_id).unwrap().status, GroupStatus::Disputed);

    // Admin resolves
    client.resolve_dispute(admin, group_id).unwrap();
    assert_eq!(client.get_group(group_id).unwrap().status, GroupStatus::Active);
}

#[test]
fn test_set_group_admin() {
    let (admin, mut client, token) = setup_env();
    let group_id = create_test_group(&mut client, &admin, &token);

    let new_admin = account(9);
    client.set_group_admin(admin, group_id, new_admin).unwrap();

    let group = client.get_group(group_id).unwrap();
    assert_eq!(group.admin, new_admin);
}

// --- the whole course of a group of two ---

#[test]
fn two_members_take_turns_and_the_group_completes() {
    let (admin, mut client, token) = setup_env();
    client.set_timestamp(1_000);
    let member1 = account(2);
    let id = client
        .create_group(admin, String::from("Pair"), token, 1_000_000, 0, 86400, 2)
        .unwrap();
    client.join_group(member1, id).unwrap();
    client.start_group(admin, id).unwrap();

    let group = client.get_group(id).unwrap();
    assert_eq!(group.total_rounds, 2);
    assert_eq!(group.payout_order, vec![admin, member1]);
    let round1 = client.get_round_status(id, 1).unwrap();
    assert_eq!(round1.recipient, admin);
    assert_eq!(round1.deadline, 87_400);
    assert_eq!(round1.total_contributed, 0);
    assert!(!round1.is_complete);
    assert_eq!(client.get_current_recipient(id), Ok(admin));

    client.contribute(admin, id).unwrap();
    assert!(!client.get_round_status(id, 1).unwrap().is_complete);
    assert_eq!(client.has_contributed(admin, id, 1), Ok(true));
    assert_eq!(client.has_contributed(member1, id, 1), Ok(false));
    client.contribute(member1, id).unwrap();
    let round1 = client.get_round_status(id, 1).unwrap();
    assert!(round1.is_complete);
    assert_eq!(round1.total_contributed, 2_000_000);

    client.set_timestamp(90_000);
    client.distribute_payout(id).unwrap();
    assert_eq!(
        client.transfers().last(),
        Some(&Transfer::Pay { member: admin, amount: 2_000_000 })
    );
    let group = client.get_group(id).unwrap();
    assert_eq!(group.current_round, 2);
    assert_eq!(group.status, GroupStatus::Active);
    let round2 = client.get_round_status(id, 2).unwrap();
    assert_eq!(round2.round_number, 2);
    assert_eq!(round2.recipient, member1);
    assert_eq!(round2.deadline, 176_400);
    assert!(round2.contributions.is_empty());
    assert_eq!(round2.total_contributed, 0);
    assert!(!round2.is_complete);

    client.contribute(member1, id).unwrap();
    client.contribute(admin, id).unwrap();
    client.distribute_payout(id).unwrap();
    let group = client.get_group(id).unwrap();
    assert_eq!(group.status, GroupStatus::Completed);
    assert_eq!(group.current_round, 2);
    assert_eq!(group.total_rounds, 2);

    assert_eq!(
        client.transfers(),
        &vec![
            Transfer::Collect { member: admin, amount: 1_000_000 },
            Transfer::Collect { member: member1, amount: 1_000_000 },
            Transfer::Pay { member: admin, amount: 2_000_000 },
            Transfer::Collect { member: member1, amount: 1_000_000 },
            Transfer::Collect { member: admin, amount: 1_000_000 },
            Transfer::Pay { member: member1, amount: 2_000_000 },
        ]
    );
    assert_eq!(
        client.events(),
        &vec![
            Event::GroupCreated { group_id: id },
            Event::GroupJoined { group_id: id, member: member1 },
            Event::GroupStarted { group_id: id },
            Event::Contributed { group_id: id, member: admin, amount: 1_000_000 },
            Event::Contributed { group_id: id, member: member1, amount: 1_000_000 },
            Event::PayoutDistributed { group_id: id, recipient: admin, amount: 2_000_000 },
            Event::RoundOpened { group_id: id, round: 2 },
            Event::Contributed { group_id: id, member: member1, amount: 1_000_000 },
            Event::Contributed { group_id: id, member: admin, amount: 1_000_000 },
            Event::PayoutDistributed { group_id: id, recipient: member1, amount: 2_000_000 },
            Event::GroupCompleted { group_id: id },
        ]
    );
    assert_eq!(client.distribute_payout(id), Err(ContractError::GroupNotActive));
    assert_eq!(client.contribute(admin, id), Err(ContractError::GroupNotActive));
    // a refused call reports nothing and asks for nothing
    assert_eq!(client.events().len(), 11);
    assert_eq!(client.transfers().len(), 6);
}

#[test]
fn create_group_refuses_bad_terms() {
    let (admin, mut client, token) = setup_env();
    assert_eq!(
        client.create_group(admin, String::from("a"), token, 0, 0, 86400, 5),
        Err(ContractError::InvalidAmount)
    );
    assert_eq!(
        client.create_group(admin, String::from("a"), token, -1, 0, 86400, 5),
        Err(ContractError::InvalidAmount)
    );
    assert_eq!(
        client.create_group(admin, String::from("a"), token, 1_000_000, -1, 86400, 5),
        Err(ContractError::InvalidAmount)
    );
    assert_eq!(
        client.create_group(admin, String::from("a"), token, 1_000_000, 0, 86400, 1),
        Err(ContractError::InsufficientMembers)
    );
    // the amount is looked at before the capacity
    assert_eq!(
        client.create_group(admin, String::from("a"), token, 0, 0, 86400, 1),
        Err(ContractError::InvalidAmount)
    );
    // nothing was made
    assert_eq!(client.get_group(1).err(), Some(ContractError::GroupNotFound));
    assert!(client.get_member_groups(admin).is_empty());
    assert_eq!(client.create_group(admin, String::from("a"), token, 1, 0, 0, 2), Ok(1));
}

#[test]
fn start_group_is_for_the_admin_and_only_once() {
    let (admin, mut client, token) = setup_env();
    let id = create_test_group(&mut client, &admin, &token);
    let member1 = account(2);
    assert_eq!(client.start_group(admin, id), Err(ContractError::InsufficientMembers));
    client.join_group(member1, id).unwrap();
    assert_eq!(client.start_group(member1, id), Err(ContractError::Unauthorized));
    assert_eq!(client.start_group(admin, 7), Err(ContractError::GroupNotFound));
    assert_eq!(client.start_group(admin, id), Ok(()));
    assert_eq!(client.start_group(admin, id), Err(ContractError::GroupNotForming));
    // not the admin and not forming: the caller is looked at first
    assert_eq!(client.start_group(member1, id), Err(ContractError::Unauthorized));
}

#[test]
fn group_ids_count_up_from_one() {
    let (admin, mut client, token) = setup_env();
    for expected in 1..=5u64 {
        let id = client
            .create_group(account(expected as u8 + 10), String::from("g"), token, 10, 0, 60, 2)
            .unwrap();
        assert_eq!(id, expected);
        assert_eq!(client.get_group(id).unwrap().id, expected);
    }
    assert_eq!(client.get_group(0).err(), Some(ContractError::GroupNotFound));
    assert_eq!(client.get_group(6).err(), Some(ContractError::GroupNotFound));
    let _ = admin;
}

#[test]
fn join_fills_the_group_and_no_further() {
    let (admin, mut client, token) = setup_env();
    let id = client
        .create_group(admin, String::from("three"), token, 10, 0, 60, 3)
        .unwrap();
    assert_eq!(client.join_group(admin, id), Err(ContractError::AlreadyMember));
    assert_eq!(client.join_group(account(2), id), Ok(()));
    assert_eq!(client.join_group(account(2), id), Err(ContractError::AlreadyMember));
    assert_eq!(client.join_group(account(3), id), Ok(()));
    // a full group refuses everybody, a member too
    assert_eq!(client.join_group(account(4), id), Err(ContractError::GroupFull));
    assert_eq!(client.join_group(account(2), id), Err(ContractError::GroupFull));
    assert_eq!(client.join_group(account(4), 9), Err(ContractError::GroupNotFound));
    let group = client.get_group(id).unwrap();
    assert_eq!(group.members, vec![admin, account(2), account(3)]);
    assert!(group.members.len() <= group.max_members as usize);
    client.start_group(admin, id).unwrap();
    assert_eq!(client.join_group(account(4), id), Err(ContractError::GroupNotForming));
}

#[test]
fn leave_keeps_the_order_of_the_others() {
    let (admin, mut client, token) = setup_env();
    let id = create_test_group(&mut client, &admin, &token);
    for n in 2..=4 {
        client.join_group(account(n), id).unwrap();
    }
    assert_eq!(client.leave_group(admin, id), Err(ContractError::Unauthorized));
    assert_eq!(client.leave_group(account(7), id), Err(ContractError::NotMember));
    assert_eq!(client.leave_group(account(3), 5), Err(ContractError::GroupNotFound));
    assert_eq!(client.leave_group(account(3), id), Ok(()));
    assert_eq!(
        client.get_group(id).unwrap().members,
        vec![admin, account(2), account(4)]
    );
    assert_eq!(client.get_member_groups(account(3)), Vec::<u64>::new());
    assert_eq!(client.get_member_groups(account(2)), vec![id]);
    client.start_group(admin, id).unwrap();
    assert_eq!(client.leave_group(account(2), id), Err(ContractError::GroupNotForming));
    assert_eq!(
        client.get_payout_order(id),
        Ok(vec![admin, account(2), account(4)])
    );
}

#[test]
fn member_index_follows_join_and_leave() {
    let (admin, mut client, token) = setup_env();
    let g1 = create_test_group(&mut client, &admin, &token);
    let g2 = create_test_group(&mut client, &admin, &token);
    let g3 = create_test_group(&mut client, &admin, &token);
    let m = account(2);
    assert!(client.get_member_groups(m).is_empty());
    client.join_group(m, g2).unwrap();
    client.join_group(m, g1).unwrap();
    client.join_group(m, g3).unwrap();
    assert_eq!(client.get_member_groups(m), vec![g2, g1, g3]);
    client.leave_group(m, g1).unwrap();
    assert_eq!(client.get_member_groups(m), vec![g2, g3]);
    assert_eq!(client.get_member_groups(admin), vec![g1, g2, g3]);
}

#[test]
fn contribute_refusals() {
    let (admin, mut client, token) = setup_env();
    let id = create_test_group(&mut client, &admin, &token);
    let m = account(2);
    client.join_group(m, id).unwrap();
    assert_eq!(client.contribute(admin, 4), Err(ContractError::GroupNotFound));
    assert_eq!(client.contribute(admin, id), Err(ContractError::GroupNotActive));
    client.start_group(admin, id).unwrap();
    assert_eq!(client.contribute(account(5), id), Err(ContractError::NotMember));
    assert_eq!(client.contribute(admin, id), Ok(()));
    assert_eq!(client.contribute(admin, id), Err(ContractError::AlreadyContributed));
    assert_eq!(client.get_round_status(id, 1).unwrap().contributions, vec![admin]);
    assert_eq!(client.distribute_payout(id), Err(ContractError::RoundNotComplete));
    assert_eq!(client.contribute(m, id), Ok(()));
    // the round is complete: it takes nothing more, from either
    assert_eq!(client.contribute(m, id), Err(ContractError::RoundNotActive));
    assert_eq!(client.contribute(admin, id), Err(ContractError::RoundNotActive));
    assert_eq!(client.get_round_status(id, 1).unwrap().total_contributed, 2_000_000);
}

#[test]
fn round_reads() {
    let (admin, mut client, token) = setup_env();
    let id = create_test_group(&mut client, &admin, &token);
    client.join_group(account(2), id).unwrap();
    assert_eq!(
        client.get_round_status(id, 1).err(),
        Some(ContractError::RoundNotActive)
    );
    assert_eq!(client.has_contributed(admin, id, 1), Err(ContractError::RoundNotActive));
    assert_eq!(client.get_current_recipient(id), Err(ContractError::GroupNotActive));
    assert_eq!(client.get_current_recipient(8), Err(ContractError::GroupNotFound));
    assert_eq!(client.get_payout_order(8), Err(ContractError::GroupNotFound));
    assert_eq!(client.get_payout_order(id), Ok(vec![]));
    client.start_group(admin, id).unwrap();
    assert_eq!(client.get_round_status(id, 1).unwrap().round_number, 1);
    assert_eq!(
        client.get_round_status(id, 2).err(),
        Some(ContractError::RoundNotActive)
    );
    assert_eq!(
        client.get_round_status(id, 0).err(),
        Some(ContractError::RoundNotActive)
    );
    assert_eq!(client.has_contributed(admin, id, 1), Ok(false));
    assert_eq!(client.get_current_recipient(id), Ok(admin));
}

#[test]
fn a_group_that_was_never_started_has_no_round() {
    let (admin, mut client, token) = setup_env();
    let id = create_test_group(&mut client, &admin, &token);
    // pausing a forming group and resuming it leaves an active group
    // without rounds
    client.pause_group(admin, id).unwrap();
    client.resume_group(admin, id).unwrap();
    let group = client.get_group(id).unwrap();
    assert_eq!(group.status, GroupStatus::Active);
    assert_eq!(group.current_round, 0);
    assert_eq!(group.total_rounds, 0);
    assert_eq!(client.contribute(admin, id), Err(ContractError::RoundNotActive));
    assert_eq!(client.distribute_payout(id), Err(ContractError::RoundNotActive));
    assert_eq!(client.get_current_recipient(id), Err(ContractError::RoundNotActive));
    assert_eq!(client.start_group(admin, id), Err(ContractError::GroupNotForming));
}

#[test]
fn governance_refusals() {
    let protocol_admin = account(1);
    let mut client = SoroSaveContract::new(protocol_admin);
    let token = contract_address(200);
    let group_admin = account(2);
    let member = account(3);
    let stranger = account(4);
    let id = client
        .create_group(group_admin, String::from("g"), token, 100, 0, 60, 3)
        .unwrap();
    client.join_group(member, id).unwrap();

    assert_eq!(client.pause_group(group_admin, 9), Err(ContractError::GroupNotFound));
    assert_eq!(client.pause_group(stranger, id), Err(ContractError::Unauthorized));
    assert_eq!(client.pause_group(member, id), Err(ContractError::Unauthorized));
    assert_eq!(client.resume_group(group_admin, id), Err(ContractError::GroupNotActive));
    assert_eq!(client.resolve_dispute(group_admin, id), Err(ContractError::GroupNotActive));
    assert_eq!(
        client.raise_dispute(member, id, String::from("early")),
        Err(ContractError::GroupNotActive)
    );
    client.start_group(group_admin, id).unwrap();

    // the protocol admin may pause and resume any group
    assert_eq!(client.pause_group(protocol_admin, id), Ok(()));
    assert_eq!(client.contribute(member, id), Err(ContractError::GroupNotActive));
    assert_eq!(client.resume_group(stranger, id), Err(ContractError::Unauthorized));
    assert_eq!(client.resume_group(protocol_admin, id), Ok(()));
    assert_eq!(client.resume_group(protocol_admin, id), Err(ContractError::GroupNotActive));

    assert_eq!(
        client.raise_dispute(stranger, id, String::from("x")),
        Err(ContractError::NotMember)
    );
    assert_eq!(
        client.raise_dispute(member, 9, String::from("x")),
        Err(ContractError::GroupNotFound)
    );
    assert_eq!(client.raise_dispute(member, id, String::from("x")), Ok(()));
    assert_eq!(
        client.raise_dispute(member, id, String::from("again")),
        Err(ContractError::GroupNotActive)
    );
    assert_eq!(client.contribute(member, id), Err(ContractError::GroupNotActive));
    assert_eq!(client.resolve_dispute(stranger, id), Err(ContractError::Unauthorized));
    assert_eq!(client.resolve_dispute(protocol_admin, id), Ok(()));
    assert_eq!(client.get_group(id).unwrap().status, GroupStatus::Active);

    assert_eq!(
        client.set_group_admin(stranger, id, stranger),
        Err(ContractError::Unauthorized)
    );
    assert_eq!(
        client.set_group_admin(protocol_admin, id, stranger),
        Err(ContractError::Unauthorized)
    );
    assert_eq!(
        client.set_group_admin(group_admin, 9, stranger),
        Err(ContractError::GroupNotFound)
    );
    assert_eq!(client.set_group_admin(group_admin, id, stranger), Ok(()));
    assert_eq!(client.pause_group(group_admin, id), Err(ContractError::Unauthorized));
    assert_eq!(client.pause_group(stranger, id), Ok(()));
    assert_eq!(
        &client.events()[3..],
        &[
            Event::GroupPaused { group_id: id },
            Event::GroupResumed { group_id: id },
            Event::DisputeRaised { group_id: id, member },
            Event::DisputeResolved { group_id: id },
            Event::AdminChanged { group_id: id, new_admin: stranger },
            Event::GroupPaused { group_id: id },
        ]
    );
}

#[test]
fn emergency_withdraw_is_for_the_protocol_admin() {
    let protocol_admin = account(1);
    let mut client = SoroSaveContract::new(protocol_admin);
    let token = contract_address(200);
    let group_admin = account(2);
    let id = client
        .create_group(group_admin, String::from("g"), token, 100, 0, 60, 3)
        .unwrap();
    assert_eq!(
        client.emergency_withdraw(group_admin, id, 1_000),
        Err(ContractError::Unauthorized)
    );
    assert_eq!(
        client.emergency_withdraw(protocol_admin, 3, 1_000),
        Err(ContractError::GroupNotFound)
    );
    assert_eq!(client.get_group(id).unwrap().status, GroupStatus::Forming);
    assert_eq!(client.emergency_withdraw(protocol_admin, id, 0), Ok(()));
    assert_eq!(client.get_group(id).unwrap().status, GroupStatus::Completed);
    assert!(client.transfers().is_empty());
    assert_eq!(
        client.events().last(),
        Some(&Event::EmergencyWithdrawn { group_id: id })
    );
    assert_eq!(
        client.emergency_withdraw(protocol_admin, id, 1_000),
        Err(ContractError::GroupCompleted)
    );
    assert_eq!(client.pause_group(group_admin, id), Err(ContractError::GroupCompleted));
}

#[test]
fn emergency_withdraw_splits_what_is_above_the_deposits() {
    let protocol_admin = account(1);
    let mut client = SoroSaveContract::new(protocol_admin);
    let token = contract_address(200);
    let a = account(2);
    let b = account(3);
    let c = account(4);
    let id = client
        .create_group(a, String::from("g"), token, 1_000_000, 500, 60, 3)
        .unwrap();
    client.join_group(b, id).unwrap();
    client.join_group(c, id).unwrap();
    client.start_group(a, id).unwrap();
    client.contribute(a, id).unwrap();
    client.contribute(b, id).unwrap();
    let before = client.transfers().len();
    assert_eq!(before, 5);
    // the pool holds three deposits of 500 and two contributions
    let balance: i128 = 1_500 + 2_000_000;
    client.emergency_withdraw(protocol_admin, id, balance).unwrap();
    let paid = &client.transfers()[before..];
    // 2_000_000 / 3 = 666_666, remainder 2 stays in the pool with the deposits
    assert_eq!(
        paid,
        &[
            Transfer::Pay { member: a, amount: 666_666 },
            Transfer::Pay { member: b, amount: 666_666 },
            Transfer::Pay { member: c, amount: 666_666 },
        ]
    );
    let total: i128 = 3 * 666_666;
    assert_eq!(balance - total, 1_500 + 2);
    assert_eq!(client.get_group(id).unwrap().status, GroupStatus::Completed);
}

#[test]
fn emergency_withdraw_pays_nothing_out_of_the_deposits() {
    let protocol_admin = account(1);
    let token = contract_address(200);
    let a = account(2);
    let b = account(3);
    for balance in [-5i128, 0, 1, 999, 1_000, 1_001] {
        let mut client = SoroSaveContract::new(protocol_admin);
        let id = client
            .create_group(a, String::from("g"), token, 10, 500, 60, 2)
            .unwrap();
        client.join_group(b, id).unwrap();
        let before = client.transfers().len();
        client.emergency_withdraw(protocol_admin, id, balance).unwrap();
        // 1_001 leaves one unit above the deposits: too little for a share each
        assert_eq!(client.transfers().len(), before, "balance {}", balance);
        assert_eq!(client.get_group(id).unwrap().status, GroupStatus::Completed);
    }
    let mut client = SoroSaveContract::new(protocol_admin);
    let id = client
        .create_group(a, String::from("g"), token, 10, 500, 60, 2)
        .unwrap();
    client.join_group(b, id).unwrap();
    client.emergency_withdraw(protocol_admin, id, 1_003).unwrap();
    assert_eq!(
        &client.transfers()[2..],
        &[
            Transfer::Pay { member: a, amount: 1 },
            Transfer::Pay { member: b, amount: 1 },
        ]
    );
}

#[test]
fn emergency_withdraw_from_every_status() {
    let protocol_admin = account(1);
    let token = contract_address(200);
    let a = account(2);
    let b = account(3);
    for status in [
        GroupStatus::Forming,
        GroupStatus::Active,
        GroupStatus::Paused,
        GroupStatus::Disputed,
    ] {
        let mut client = SoroSaveContract::new(protocol_admin);
        let id = client
            .create_group(a, String::from("g"), token, 10, 0, 60, 2)
            .unwrap();
        client.join_group(b, id).unwrap();
        match status {
            GroupStatus::Forming => {}
            GroupStatus::Active => client.start_group(a, id).unwrap(),
            GroupStatus::Paused => {
                client.start_group(a, id).unwrap();
                client.pause_group(a, id).unwrap();
            }
            _ => {
                client.start_group(a, id).unwrap();
                client.raise_dispute(b, id, String::from("why")).unwrap();
            }
        }
        assert_eq!(client.get_group(id).unwrap().status, status);
        assert_eq!(client.emergency_withdraw(protocol_admin, id, 100), Ok(()));
        assert_eq!(client.get_group(id).unwrap().status, GroupStatus::Completed);
        assert_eq!(
            client.transfers(),
            &vec![
                Transfer::Pay { member: a, amount: 50 },
                Transfer::Pay { member: b, amount: 50 },
            ]
        );
    }
}

#[test]
fn deposit_comes_back_on_leaving() {
    let (admin, mut client, token) = setup_env();
    let id = client
        .create_group(admin, String::from("with deposit"), token, 1_000, 250, 60, 4)
        .unwrap();
    assert_eq!(
        client.transfers(),
        &vec![Transfer::Collect { member: admin, amount: 250 }]
    );
    let m = account(2);
    client.join_group(m, id).unwrap();
    client.leave_group(m, id).unwrap();
    assert_eq!(
        &client.transfers()[1..],
        &[
            Transfer::Collect { member: m, amount: 250 },
            Transfer::Pay { member: m, amount: 250 },
        ]
    );
    // a second round trip moves the deposit again, and again both ways
    client.join_group(m, id).unwrap();
    client.leave_group(m, id).unwrap();
    assert_eq!(client.transfers().len(), 5);
    assert_eq!(client.get_group(id).unwrap().members, vec![admin]);
}

#[test]
fn deposits_come_back_once_when_the_group_completes() {
    let (admin, mut client, token) = setup_env();
    let m = account(2);
    let id = client
        .create_group(admin, String::from("with deposit"), token, 1_000, 250, 60, 2)
        .unwrap();
    client.join_group(m, id).unwrap();
    client.start_group(admin, id).unwrap();
    client.contribute(admin, id).unwrap();
    client.contribute(m, id).unwrap();
    client.distribute_payout(id).unwrap();
    // not the last round: the pot alone moves
    assert_eq!(client.transfers().len(), 5);
    assert_eq!(
        client.transfers()[4],
        Transfer::Pay { member: admin, amount: 2_000 }
    );
    client.contribute(admin, id).unwrap();
    client.contribute(m, id).unwrap();
    client.distribute_payout(id).unwrap();
    assert_eq!(
        &client.transfers()[7..],
        &[
            Transfer::Pay { member: m, amount: 2_000 },
            Transfer::Pay { member: admin, amount: 250 },
            Transfer::Pay { member: m, amount: 250 },
        ]
    );
    assert_eq!(client.get_group(id).unwrap().status, GroupStatus::Completed);
    // every member paid 250 + 2 * 1_000 and got 2_000 + 250
    for who in [admin, m] {
        let mut net: i128 = 0;
        for t in client.transfers() {
            match t {
                Transfer::Collect { member, amount } if *member == who => net -= amount,
                Transfer::Pay { member, amount } if *member == who => net += amount,
                _ => {}
            }
        }
        assert_eq!(net, 0);
    }
}

#[test]
fn templates() {
    let (admin, mut client, token) = setup_env();
    assert_eq!(
        client.get_template(admin, 1).err(),
        Some(ContractError::TemplateNotFound)
    );
    assert_eq!(
        client.save_template(admin, String::from("t"), token, 0, 60, 3),
        Err(ContractError::InvalidAmount)
    );
    assert_eq!(
        client.save_template(admin, String::from("t"), token, 5, 60, 1),
        Err(ContractError::InsufficientMembers)
    );
    for expected in 1..=10u32 {
        assert_eq!(
            client.save_template(admin, String::from("t"), token, 5 + expected as i128, 60, 3),
            Ok(expected)
        );
    }
    assert_eq!(
        client.save_template(admin, String::from("t"), token, 5, 60, 3),
        Err(ContractError::TemplateLimitReached)
    );
    // the limit is per owner
    assert_eq!(
        client.save_template(account(2), String::from("t"), token, 5, 60, 3),
        Ok(1)
    );
    assert_eq!(client.events().len(), 11);
    assert_eq!(
        client.events()[9],
        Event::TemplateSaved { owner: admin, template_id: 10 }
    );
    let third = client.get_template(admin, 3).unwrap();
    assert_eq!(third.id, 3);
    assert_eq!(third.contribution_amount, 8);
    assert_eq!(third.max_members, 3);
    assert_eq!(
        client.get_template(account(3), 1).err(),
        Some(ContractError::TemplateNotFound)
    );

    assert_eq!(
        client.create_from_template(admin, 11, String::from("none")),
        Err(ContractError::TemplateNotFound)
    );
    client.set_timestamp(77);
    let id = client
        .create_from_template(admin, 3, String::from("from three"))
        .unwrap();
    assert_eq!(id, 1);
    let group = client.get_group(id).unwrap();
    assert_eq!(group.name, "from three");
    assert_eq!(group.contribution_amount, 8);
    assert_eq!(group.deposit_amount, 0);
    assert_eq!(group.cycle_length, 60);
    assert_eq!(group.max_members, 3);
    assert_eq!(group.token, token);
    assert_eq!(group.created_at, 77);
    assert_eq!(group.members, vec![admin]);
    assert_eq!(client.get_member_groups(admin), vec![1]);
}

#[test]
fn test_emergency_withdrawal_unequal_contributions() {
    let (admin, mut client, token) = setup_env();
    client.set_timestamp(500);
    let group_id = client
        .create_group(
            admin,
            String::from("Emergency Test Group"),
            token,
            1_000_000, // 1 token contribution
            0,
            86400, // 1 day cycle
            5,     // 5 members
        )
        .unwrap();
    let members = [admin, account(2), account(3), account(4), account(5)];
    for member in &members[1..] {
        client.join_group(*member, group_id).unwrap();
    }
    client.start_group(admin, group_id).unwrap();

    // Round 1: all members contribute, and the pot goes to the first
    for member in &members {
        client.contribute(*member, group_id).unwrap();
    }
    client.set_timestamp(500 + 86401);
    client.distribute_payout(group_id).unwrap();

    // Round 2: only 3 members contribute
    for member in &members[..3] {
        client.contribute(*member, group_id).unwrap();
    }
    let round2 = client.get_round_status(group_id, 2).unwrap();
    assert_eq!(round2.contributions.len(), 3);
    assert!(!round2.is_complete);

    // the pool holds the three contributions of round 2
    let before = client.transfers().len();
    client.emergency_withdraw(admin, group_id, 3_000_000).unwrap();

    let group = client.get_group(group_id).unwrap();
    assert_eq!(group.status, GroupStatus::Completed);
    // every member gets the same share, whether they contributed to the
    // open round or not
    let paid = &client.transfers()[before..];
    assert_eq!(paid.len(), 5);
    for (transfer, member) in paid.iter().zip(members.iter()) {
        assert_eq!(
            *transfer,
            Transfer::Pay { member: *member, amount: 600_000 }
        );
    }
}

#[test]
fn the_store_keeps_the_satellites_of_a_group_in_step() {
    let (admin, mut client, token) = setup_env();
    assert_eq!(get_admin(client.storage()), admin);
    assert_eq!(get_group_counter(client.storage()), 0);
    client.set_timestamp(40);
    let id = client
        .create_group(admin, String::from("g"), token, 10, 3, 60, 4)
        .unwrap();
    assert_eq!(get_group_counter(client.storage()), 1);
    let m = account(2);
    client.join_group(m, id).unwrap();
    client.join_group(account(3), id).unwrap();
    client.leave_group(account(3), id).unwrap();

    // the escrow holds the deposit of every member and of nobody else
    let escrow = get_deposits(client.storage(), id);
    assert_eq!(escrow.held(&admin), Some(3));
    assert_eq!(escrow.held(&m), Some(3));
    assert_eq!(escrow.held(&account(3)), None);

    // rounds are there from the start on, one at a time
    assert!(get_round(client.storage(), id, 1).is_none());
    client.start_group(admin, id).unwrap();
    assert_eq!(get_round(client.storage(), id, 1).unwrap().deadline, 100);
    assert!(get_round(client.storage(), id, 2).is_none());

    // a dispute is on record exactly while the group is disputed
    assert!(get_dispute(client.storage(), id).is_none());
    client.set_timestamp(70);
    client.raise_dispute(m, id, String::from("late")).unwrap();
    let dispute = get_dispute(client.storage(), id).unwrap();
    assert_eq!(dispute.raised_by, m);
    assert_eq!(dispute.reason, "late");
    assert_eq!(dispute.raised_at, 70);
    client.resolve_dispute(admin, id).unwrap();
    assert!(get_dispute(client.storage(), id).is_none());
    // pausing ends a dispute too, and resuming does not bring it back
    client.raise_dispute(admin, id, String::from("again")).unwrap();
    assert!(get_dispute(client.storage(), id).is_some());
    client.pause_group(admin, id).unwrap();
    assert!(get_dispute(client.storage(), id).is_none());
    client.resume_group(admin, id).unwrap();
    assert_eq!(client.get_group(id).unwrap().status, GroupStatus::Active);
    assert!(get_dispute(client.storage(), id).is_none());

    // the last settlement empties the escrow
    for round in 1..=2u32 {
        client.contribute(admin, id).unwrap();
        client.contribute(m, id).unwrap();
        assert!(get_round(client.storage(), id, round).unwrap().is_complete);
        client.distribute_payout(id).unwrap();
    }
    assert!(get_deposits(client.storage(), id).entries().is_empty());
    assert_eq!(client.timestamp(), 70);
}

#[test]
fn a_refused_call_leaves_everything_as_it_was() {
    let (admin, mut client, token) = setup_env();
    let id = create_test_group(&mut client, &admin, &token);
    client.join_group(account(2), id).unwrap();
    client.start_group(admin, id).unwrap();
    client.contribute(admin, id).unwrap();
    let group = client.get_group(id).unwrap();
    let round = client.get_round_status(id, 1).unwrap();
    let transfers = client.transfers().clone();
    let events = client.events().clone();

    assert!(client.join_group(account(3), id).is_err());
    assert!(client.leave_group(account(2), id).is_err());
    assert!(client.start_group(admin, id).is_err());
    assert!(client.contribute(admin, id).is_err());
    assert!(client.contribute(account(3), id).is_err());
    assert!(client.distribute_payout(id).is_err());
    assert!(client.pause_group(account(2), id).is_err());
    assert!(client.resume_group(admin, id).is_err());
    assert!(client.resolve_dispute(admin, id).is_err());
    assert!(client.raise_dispute(account(3), id, String::from("x")).is_err());
    assert!(client.emergency_withdraw(account(2), id, 5).is_err());
    assert!(client.set_group_admin(account(2), id, account(2)).is_err());
    assert!(client
        .create_group(admin, String::from("x"), token, 0, 0, 1, 2)
        .is_err());

    let after = client.get_group(id).unwrap();
    assert_eq!(after.members, group.members);
    assert_eq!(after.status, group.status);
    assert_eq!(after.admin, group.admin);
    assert_eq!(after.current_round, group.current_round);
    let after_round = client.get_round_status(id, 1).unwrap();
    assert_eq!(after_round.contributions, round.contributions);
    assert_eq!(after_round.total_contributed, round.total_contributed);
    assert_eq!(client.transfers(), &transfers);
    assert_eq!(client.events(), &events);
    assert_eq!(client.get_member_groups(account(3)), Vec::<u64>::new());
    assert_eq!(get_group_counter(client.storage()), 1);
}

#[test]
fn a_completed_group_keeps_its_admin() {
    let protocol_admin = account(1);
    let mut client = SoroSaveContract::new(protocol_admin);
    let token = contract_address(200);
    let group_admin = account(2);
    let id = client
        .create_group(group_admin, String::from("g"), token, 10, 0, 60, 3)
        .unwrap();
    client.emergency_withdraw(protocol_admin, id, 0).unwrap();
    let events = client.events().len();
    assert_eq!(
        client.set_group_admin(group_admin, id, account(3)),
        Err(ContractError::GroupCompleted)
    );
    // who is not the admin hears that first
    assert_eq!(
        client.set_group_admin(account(3), id, account(3)),
        Err(ContractError::Unauthorized)
    );
    let group = client.get_group(id).unwrap();
    assert_eq!(group.admin, group_admin);
    assert_eq!(group.status, GroupStatus::Completed);
    assert_eq!(client.events().len(), events);
}

#[test]
fn emergency_withdraw_completes_a_group_without_members() {
    let protocol_admin = account(1);
    let mut client = SoroSaveContract::new(protocol_admin);
    let token = contract_address(200);
    let founder = account(2);
    let outsider = account(3);
    let id = client
        .create_group(founder, String::from("g"), token, 10, 0, 60, 3)
        .unwrap();
    client.set_group_admin(founder, id, outsider).unwrap();
    client.leave_group(founder, id).unwrap();
    assert!(client.get_group(id).unwrap().members.is_empty());
    // there is money in the pool and nobody to pay
    assert_eq!(client.emergency_withdraw(protocol_admin, id, 1_000), Ok(()));
    assert_eq!(client.get_group(id).unwrap().status, GroupStatus::Completed);
    assert!(client.transfers().is_empty());
}

#[test]
fn emergency_withdraw_ends_a_dispute() {
    let (admin, mut client, token) = setup_env();
    let id = create_test_group(&mut client, &admin, &token);
    let m = account(2);
    client.join_group(m, id).unwrap();
    client.start_group(admin, id).unwrap();
    client.raise_dispute(m, id, String::from("why")).unwrap();
    assert!(get_dispute(client.storage(), id).is_some());
    client.emergency_withdraw(admin, id, 0).unwrap();
    assert!(get_dispute(client.storage(), id).is_none());
    assert_eq!(client.get_group(id).unwrap().status, GroupStatus::Completed);
}

#[test]
fn no_round_is_settled_twice() {
    let (admin, mut client, token) = setup_env();
    let id = create_test_group(&mut client, &admin, &token);
    client.join_group(account(2), id).unwrap();
    client.start_group(admin, id).unwrap();
    client.contribute(admin, id).unwrap();
    client.contribute(account(2), id).unwrap();
    client.distribute_payout(id).unwrap();
    let transfers = client.transfers().len();
    assert_eq!(client.distribute_payout(id), Err(ContractError::RoundNotComplete));
    let group = client.get_group(id).unwrap();
    assert_eq!(group.current_round, 2);
    assert_eq!(group.total_rounds, 2);
    assert_eq!(group.payout_order, vec![admin, account(2)]);
    assert_eq!(client.transfers().len(), transfers);
    // the settled round keeps its record
    let settled = client.get_round_status(id, 1).unwrap();
    assert!(settled.is_complete);
    assert_eq!(settled.total_contributed, 2_000_000);
    assert_eq!(settled.contributions, vec![admin, account(2)]);
}
