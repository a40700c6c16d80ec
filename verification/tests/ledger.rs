use assetx::ledger::ctm_rwa001;
use assetx::types::{Address, Bytes32, Error};

fn addr(id: u64) -> Address {
    Address { id }
}

fn rwa_id_6s() -> Bytes32 {
    Bytes32 {
        hi: 0x06060606060606060606060606060606,
        lo: 0x06060606060606060606060606060606,
    }
}

fn init_ledger(admin: Address) -> ctm_rwa001 {
    let mut l = ctm_rwa001::new();
    l.initialize(
        1,
        1,
        admin,
        String::from("CTMRWA Token"),
        String::from("RWA"),
        18,
        String::from("IPFS"),
        rwa_id_6s(),
    )
    .unwrap();
    l
}

#[test]
fn test_initialize_and_mint() {
    let admin = addr(1);
    let recipient = addr(2);
    let mut l = ctm_rwa001::new();

    l.initialize(
        1,
        1,
        admin,
        String::from("CTMRWA Token"),
        String::from("RWA"),
        18u32,
        String::from("IPFS"),
        rwa_id_6s(),
    )
    .unwrap();

    l.create_slot(admin, 1u128, String::from("Gold Slot")).unwrap();

    let token_id = l
        .mint(admin, recipient, true, 1u128, String::from("Gold Slot"), 1000u128)
        .unwrap();

    assert_eq!(l.balance_of(token_id).unwrap(), 1000u128);
    assert_eq!(l.owner_of(token_id).unwrap(), recipient);
    assert_eq!(l.slot_of(token_id).unwrap(), 1u128);
}

#[test]
fn test_metadata_getters() {
    let admin = addr(1);
    let l = init_ledger(admin);
    assert_eq!(l.name().unwrap(), String::from("CTMRWA Token"));
    assert_eq!(l.symbol().unwrap(), String::from("RWA"));
    assert_eq!(l.value_decimals().unwrap(), 18);
    assert_eq!(l.slot_exists(1), false);
    assert_eq!(l.require_minted(1), false);

    let blank = ctm_rwa001::new();
    assert_eq!(blank.name(), Err(Error::NotFound));
    assert_eq!(blank.symbol(), Err(Error::NotFound));
    assert_eq!(blank.value_decimals(), Err(Error::NotFound));
}

#[test]
fn test_initialize_twice_fails() {
    let admin = addr(1);
    let mut l = init_ledger(admin);
    let r = l.initialize(
        2,
        2,
        addr(9),
        String::from("Other"),
        String::from("O"),
        6,
        String::from("HTTP"),
        Bytes32 { hi: 0, lo: 0 },
    );
    assert_eq!(r, Err(Error::AlreadyInitialized));
    // nothing changed
    assert_eq!(l.name().unwrap(), String::from("CTMRWA Token"));
    assert_eq!(l.value_decimals().unwrap(), 18);
}

#[test]
fn test_create_slot_checks() {
    let admin = addr(1);
    let mut l = init_ledger(admin);
    assert_eq!(
        l.create_slot(addr(5), 1, String::from("Gold")),
        Err(Error::Unauthorized)
    );
    l.create_slot(admin, 1, String::from("Gold")).unwrap();
    assert_eq!(
        l.create_slot(admin, 1, String::from("Gold again")),
        Err(Error::SlotExists)
    );
    assert!(l.slot_exists(1));
    assert_eq!(l.slot_name(1).unwrap(), String::from("Gold"));
    assert_eq!(l.slot_name(2), Err(Error::NotFound));
}

#[test]
fn test_mint_checks() {
    let admin = addr(1);
    let user = addr(2);
    let mut l = init_ledger(admin);
    l.create_slot(admin, 1, String::from("Gold")).unwrap();
    assert_eq!(
        l.mint(user, user, true, 1, String::from("Gold"), 10),
        Err(Error::Unauthorized)
    );
    assert_eq!(
        l.mint(admin, user, false, 1, String::from("Gold"), 10),
        Err(Error::Unauthorized)
    );
    assert_eq!(
        l.mint(admin, user, true, 7, String::from("Silver"), 10),
        Err(Error::SlotNotFound)
    );
    assert_eq!(l.token_id_generator, 1);
}

#[test]
fn test_mint_generator_tracks_ids() {
    let admin = addr(1);
    let a = addr(2);
    let b = addr(3);
    let mut l = init_ledger(admin);
    l.create_slot(admin, 1, String::from("Gold")).unwrap();
    let id1 = l.mint(admin, a, true, 1, String::from("Gold"), 100).unwrap();
    let id2 = l.mint(admin, b, true, 1, String::from("Gold"), 200).unwrap();
    let id3 = l.mint(admin, a, true, 1, String::from("Gold"), 0).unwrap();
    assert_eq!(id1, 1);
    assert_eq!(id2, 2);
    assert_eq!(id3, 3);
    // the generator always reads one past the highest minted id
    assert_eq!(l.token_id_generator, 4);
    assert_eq!(l.balance_of_address(a), 2);
    assert_eq!(l.balance_of_address(b), 1);
    assert_eq!(l.balance_of_address(addr(99)), 0);
}

#[test]
fn test_transfer_from_owner_conserves_value() {
    let admin = addr(1);
    let a = addr(2);
    let b = addr(3);
    let mut l = init_ledger(admin);
    l.create_slot(admin, 1, String::from("Gold")).unwrap();
    let t1 = l.mint(admin, a, true, 1, String::from("Gold"), 700).unwrap();
    let t2 = l.mint(admin, b, true, 1, String::from("Gold"), 300).unwrap();
    // the owner moves value; no allowance involved
    let recipient_owner = l.transfer_from(a, t1, t2, 250).unwrap();
    assert_eq!(recipient_owner, b);
    assert_eq!(l.balance_of(t1).unwrap(), 450);
    assert_eq!(l.balance_of(t2).unwrap(), 550);
    assert_eq!(l.balance_of(t1).unwrap() + l.balance_of(t2).unwrap(), 1000);
    // allowances untouched by an owner transfer
    assert_eq!(l.tokens[(t1 - 1) as usize].allowances.len(), 0);
}

#[test]
fn test_transfer_from_operator_spends_allowance() {
    let admin = addr(1);
    let a = addr(2);
    let b = addr(3);
    let op = addr(4);
    let mut l = init_ledger(admin);
    l.create_slot(admin, 1, String::from("Gold")).unwrap();
    let t1 = l.mint(admin, a, true, 1, String::from("Gold"), 1000).unwrap();
    let t2 = l.mint(admin, b, true, 1, String::from("Gold"), 0).unwrap();
    l.approve(a, t1, op, 500).unwrap();
    l.transfer_from(op, t1, t2, 300).unwrap();
    assert_eq!(l.balance_of(t1).unwrap(), 700);
    assert_eq!(l.balance_of(t2).unwrap(), 300);
    assert_eq!(l.tokens[(t1 - 1) as usize].allowance_of(op), 200);
    // allowance 200 < 300: the call fails and changes nothing
    let r = l.transfer_from(op, t1, t2, 300);
    assert_eq!(r, Err(Error::InsufficientAllowance));
    assert_eq!(l.balance_of(t1).unwrap(), 700);
    assert_eq!(l.balance_of(t2).unwrap(), 300);
    assert_eq!(l.tokens[(t1 - 1) as usize].allowance_of(op), 200);
}

#[test]
fn test_transfer_from_self_is_neutral() {
    let admin = addr(1);
    let a = addr(2);
    let op = addr(4);
    let mut l = init_ledger(admin);
    l.create_slot(admin, 1, String::from("Gold")).unwrap();
    let t1 = l.mint(admin, a, true, 1, String::from("Gold"), 400).unwrap();
    // moving value from a token to itself leaves its balance alone,
    // but a non-owner still spends its allowance
    l.approve(a, t1, op, 100).unwrap();
    let owner = l.transfer_from(op, t1, t1, 100).unwrap();
    assert_eq!(owner, a);
    assert_eq!(l.balance_of(t1).unwrap(), 400);
    assert_eq!(l.tokens[(t1 - 1) as usize].allowance_of(op), 0);
}

#[test]
fn test_transfer_from_checks() {
    let admin = addr(1);
    let a = addr(2);
    let b = addr(3);
    let mut l = init_ledger(admin);
    l.create_slot(admin, 1, String::from("Gold")).unwrap();
    l.create_slot(admin, 2, String::from("Silver")).unwrap();
    let t1 = l.mint(admin, a, true, 1, String::from("Gold"), 100).unwrap();
    let t2 = l.mint(admin, b, true, 2, String::from("Silver"), 100).unwrap();
    let t3 = l.mint(admin, b, true, 1, String::from("Gold"), 0).unwrap();
    assert_eq!(l.transfer_from(a, 99, t2, 1), Err(Error::NotFound));
    assert_eq!(l.transfer_from(a, t1, 99, 1), Err(Error::NotFound));
    assert_eq!(l.transfer_from(a, t1, t2, 1), Err(Error::SameSlotRequired));
    assert_eq!(l.transfer_from(a, t1, t3, 101), Err(Error::InsufficientBalance));
    assert_eq!(l.balance_of(t1).unwrap(), 100);
}

#[test]
fn test_transfer_token_moves_ownership_index() {
    let admin = addr(1);
    let a = addr(2);
    let b = addr(3);
    let mut l = init_ledger(admin);
    l.create_slot(admin, 1, String::from("Gold")).unwrap();
    let t1 = l.mint(admin, a, true, 1, String::from("Gold"), 100).unwrap();
    let t2 = l.mint(admin, a, true, 1, String::from("Gold"), 50).unwrap();
    assert_eq!(l.balance_of_address(a), 2);
    l.transfer_token(a, a, b, true, t1).unwrap();
    // old owner's index no longer lists the id; the new owner's does,
    // exactly once
    assert_eq!(l.owner_of(t1).unwrap(), b);
    assert_eq!(l.balance_of_address(a), 1);
    assert_eq!(l.balance_of_address(b), 1);
    assert_eq!(l.owner_of(t2).unwrap(), a);
    // approvals were cleared
    assert!(l.tokens[(t1 - 1) as usize].approved.is_none());
    assert_eq!(l.tokens[(t1 - 1) as usize].value_approvals.len(), 0);
}

#[test]
fn test_transfer_token_checks() {
    let admin = addr(1);
    let a = addr(2);
    let b = addr(3);
    let mut l = init_ledger(admin);
    l.create_slot(admin, 1, String::from("Gold")).unwrap();
    let t1 = l.mint(admin, a, true, 1, String::from("Gold"), 100).unwrap();
    assert_eq!(l.transfer_token(b, a, b, true, t1), Err(Error::Unauthorized));
    assert_eq!(l.transfer_token(b, b, b, true, t1), Err(Error::Unauthorized));
    assert_eq!(l.transfer_token(a, a, b, false, t1), Err(Error::Unauthorized));
    assert_eq!(l.transfer_token(a, a, b, true, 99), Err(Error::NotFound));
    assert_eq!(l.owner_of(t1).unwrap(), a);
    assert_eq!(l.balance_of_address(a), 1);
}

#[test]
fn test_transfer_token_keeps_stale_allowance() {
    let admin = addr(1);
    let a = addr(2);
    let b = addr(3);
    let op = addr(4);
    let mut l = init_ledger(admin);
    l.create_slot(admin, 1, String::from("Gold")).unwrap();
    let t1 = l.mint(admin, a, true, 1, String::from("Gold"), 100).unwrap();
    l.approve(a, t1, op, 60).unwrap();
    l.transfer_token(a, a, b, true, t1).unwrap();
    // the membership set is cleared but the allowance entry remains
    assert_eq!(l.tokens[(t1 - 1) as usize].value_approvals.len(), 0);
    assert_eq!(l.tokens[(t1 - 1) as usize].allowance_of(op), 60);
}

#[test]
fn test_approve_self_and_idempotent_membership() {
    let admin = addr(1);
    let a = addr(2);
    let op = addr(4);
    let mut l = init_ledger(admin);
    l.create_slot(admin, 1, String::from("Gold")).unwrap();
    let t1 = l.mint(admin, a, true, 1, String::from("Gold"), 100).unwrap();
    // approving the owner itself always fails
    assert_eq!(l.approve(a, t1, a, 10), Err(Error::SelfApproval));
    // only the owner may approve
    assert_eq!(l.approve(op, t1, op, 10), Err(Error::Unauthorized));
    assert_eq!(l.approve(a, 99, op, 10), Err(Error::NotFound));
    // repeated approvals do not duplicate the membership entry but do
    // overwrite the allowance
    l.approve(a, t1, op, 10).unwrap();
    l.approve(a, t1, op, 70).unwrap();
    assert_eq!(l.tokens[(t1 - 1) as usize].value_approvals.len(), 1);
    assert_eq!(l.tokens[(t1 - 1) as usize].allowance_of(op), 70);
}

#[test]
fn test_end_to_end_scenario() {
    let admin = addr(1);
    let user_a = addr(2);
    let user_b = addr(3);
    let mut l = ctm_rwa001::new();
    l.initialize(
        1,
        1,
        admin,
        String::from("CTMRWA Token"),
        String::from("RWA"),
        18,
        String::from("IPFS"),
        rwa_id_6s(),
    )
    .unwrap();
    l.create_slot(admin, 1, String::from("Gold")).unwrap();
    let t1 = l.mint(admin, user_a, true, 1, String::from("Gold"), 1000).unwrap();
    assert_eq!(t1, 1);
    assert_eq!(l.balance_of(1).unwrap(), 1000);
    assert_eq!(l.owner_of(1).unwrap(), user_a);
    let t2 = l.mint(admin, user_b, true, 1, String::from("Gold"), 0).unwrap();
    assert_eq!(t2, 2);
    l.approve(user_a, 1, admin, 500).unwrap();
    l.transfer_from(admin, 1, 2, 500).unwrap();
    assert_eq!(l.balance_of(1).unwrap(), 500);
    assert_eq!(l.balance_of(2).unwrap(), 500);
    assert_eq!(l.tokens[0].allowance_of(admin), 0);
}
