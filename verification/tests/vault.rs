use diamond_hands::addressing::derive_address;
use diamond_hands::ledger::Ledger;
use diamond_hands::ledger::Vault;
use diamond_hands::ledger::VaultError;

const ALICE: u64 = 11;
const BOB: u64 = 22;
const CAROL: u64 = 33;

#[test]
fn creation_funds_exactly_once() {
    let mut l = Ledger::new(0);
    l.fund(ALICE, 1000);
    let h = l.create_vault(ALICE, BOB, 7_000, 400).unwrap();
    assert_eq!(l.balance_of(ALICE), 600);
    assert_eq!(h.nonce, 0);
    let record = l.vault_record(&h.address).unwrap();
    assert_eq!(
        record,
        Vault {
            depositor: ALICE,
            beneficiary: BOB,
            amount: 400,
            unlock_time: 7_000,
            derivation_nonce: 0,
        }
    );
}

#[test]
fn creation_rejects_insufficient_funds() {
    let mut l = Ledger::new(5);
    l.fund(ALICE, 100);
    let r = l.create_vault(ALICE, BOB, 7_000, 100);
    assert_eq!(r.err(), Some(VaultError::InsufficientFunds));
    assert_eq!(l.balance_of(ALICE), 100);
    let addr = derive_address(ALICE, BOB, 7_000, 0);
    assert!(l.vault_record(&addr).is_none());
}

#[test]
fn creation_charges_storage_deposit() {
    let mut l = Ledger::new(25);
    l.fund(ALICE, 1000);
    l.create_vault(ALICE, BOB, 7_000, 400).unwrap();
    assert_eq!(l.balance_of(ALICE), 575);
}

#[test]
fn no_early_release() {
    let mut l = Ledger::new(0);
    l.fund(ALICE, 1000);
    let h = l.create_vault(ALICE, BOB, 7_000, 400).unwrap();
    let r = l.withdraw_vault(BOB, ALICE, BOB, 7_000, h.nonce, 6_999);
    assert_eq!(r.err(), Some(VaultError::HandsTooWeak));
    assert_eq!(l.balance_of(ALICE), 600);
    assert_eq!(l.balance_of(BOB), 0);
    assert!(l.vault_record(&h.address).is_some());
}

#[test]
fn withdrawal_at_unlock_time_succeeds() {
    let mut l = Ledger::new(0);
    l.fund(ALICE, 1000);
    let h = l.create_vault(ALICE, BOB, 7_000, 400).unwrap();
    let r = l.withdraw_vault(BOB, ALICE, BOB, 7_000, h.nonce, 7_000);
    assert!(r.is_ok());
    assert_eq!(l.balance_of(BOB), 400);
}

#[test]
fn exactly_once_payout() {
    let mut l = Ledger::new(0);
    l.fund(ALICE, 1000);
    let h = l.create_vault(ALICE, BOB, 7_000, 400).unwrap();
    l.withdraw_vault(BOB, ALICE, BOB, 7_000, h.nonce, 8_000).unwrap();
    assert_eq!(l.balance_of(BOB), 400);
    let again = l.withdraw_vault(BOB, ALICE, BOB, 7_000, h.nonce, 9_000);
    assert_eq!(again.err(), Some(VaultError::NotFound));
    let by_other = l.withdraw_vault(CAROL, ALICE, BOB, 7_000, h.nonce, 9_000);
    assert_eq!(by_other.err(), Some(VaultError::NotFound));
    assert_eq!(l.balance_of(ALICE), 600);
    assert_eq!(l.balance_of(BOB), 400);
    assert_eq!(l.balance_of(CAROL), 0);
}

#[test]
fn authorization_enforced_regardless_of_time() {
    let mut l = Ledger::new(0);
    l.fund(ALICE, 1000);
    let h = l.create_vault(ALICE, BOB, 7_000, 400).unwrap();
    let before = l.withdraw_vault(CAROL, ALICE, BOB, 7_000, h.nonce, 6_000);
    assert_eq!(before.err(), Some(VaultError::WrongAccount));
    let after = l.withdraw_vault(CAROL, ALICE, BOB, 7_000, h.nonce, 9_000);
    assert_eq!(after.err(), Some(VaultError::WrongAccount));
    assert_eq!(l.balance_of(CAROL), 0);
    assert!(l.vault_record(&h.address).is_some());
}

#[test]
fn mismatched_derivation_inputs_find_no_vault() {
    let mut l = Ledger::new(0);
    l.fund(ALICE, 1000);
    let h = l.create_vault(ALICE, BOB, 7_000, 400).unwrap();
    // A wrong depositor or nonce re-derives a different, unoccupied address.
    let wrong_depositor = l.withdraw_vault(BOB, CAROL, BOB, 7_000, h.nonce, 9_000);
    assert_eq!(wrong_depositor.err(), Some(VaultError::NotFound));
    let wrong_nonce = l.withdraw_vault(BOB, ALICE, BOB, 7_000, h.nonce + 1, 9_000);
    assert_eq!(wrong_nonce.err(), Some(VaultError::NotFound));
    assert!(l.vault_record(&h.address).is_some());
}

#[test]
fn address_derivation_is_deterministic() {
    let a1 = derive_address(ALICE, BOB, -12_345, 3);
    let a2 = derive_address(ALICE, BOB, -12_345, 3);
    assert_eq!(a1, a2);
    let other_nonce = derive_address(ALICE, BOB, -12_345, 4);
    assert_ne!(a1, other_nonce);
}

#[test]
fn forced_nonce_reuse_collides() {
    let mut l = Ledger::new(0);
    l.fund(ALICE, 1000);
    let h = l.create_vault(ALICE, BOB, 7_000, 100).unwrap();
    assert_eq!(h.nonce, 0);
    let clash = l.create_vault_at_nonce(ALICE, BOB, 7_000, 100, 0);
    assert_eq!(clash.err(), Some(VaultError::AddressCollision));
    assert_eq!(l.balance_of(ALICE), 900);
    // The allocator steps past the occupied nonce instead.
    let next = l.create_vault(ALICE, BOB, 7_000, 100).unwrap();
    assert_eq!(next.nonce, 1);
    assert_ne!(next.address, h.address);
}

#[test]
fn allocator_exhausts_every_nonce() {
    let mut l = Ledger::new(0);
    l.fund(ALICE, 1000);
    for expected in 0..=255u8 {
        let h = l.create_vault(ALICE, BOB, 7_000, 1).unwrap();
        assert_eq!(h.nonce, expected);
    }
    let r = l.create_vault(ALICE, BOB, 7_000, 1);
    assert_eq!(r.err(), Some(VaultError::AddressCollision));
    assert_eq!(l.balance_of(ALICE), 1000 - 256);
}

#[test]
fn end_to_end_lock_wait_withdraw() {
    let now: i64 = 1_700_000_000;
    let mut l = Ledger::new(10);
    l.fund(ALICE, 1000);
    let h = l.create_vault(ALICE, BOB, now + 3600, 500).unwrap();
    assert_eq!(l.balance_of(ALICE), 490);

    let early = l.withdraw_vault(BOB, ALICE, BOB, now + 3600, h.nonce, now);
    assert_eq!(early.err(), Some(VaultError::HandsTooWeak));
    assert_eq!(l.balance_of(BOB), 0);

    let late = l.withdraw_vault(BOB, ALICE, BOB, now + 3600, h.nonce, now + 3601);
    assert!(late.is_ok());
    assert_eq!(l.balance_of(BOB), 500);
    // Alice's storage deposit came back.
    assert_eq!(l.balance_of(ALICE), 500);
    assert!(l.vault_record(&h.address).is_none());

    let replay = l.withdraw_vault(BOB, ALICE, BOB, now + 3600, h.nonce, now + 4000);
    assert_eq!(replay.err(), Some(VaultError::NotFound));
}

#[test]
fn end_to_end_wrong_beneficiary_then_success() {
    let now: i64 = 1_700_000_000;
    let mut l = Ledger::new(10);
    l.fund(ALICE, 1000);
    let h = l.create_vault(ALICE, BOB, now + 3600, 500).unwrap();

    let intruder = l.withdraw_vault(CAROL, ALICE, BOB, now + 3600, h.nonce, now + 4000);
    assert_eq!(intruder.err(), Some(VaultError::WrongAccount));

    let rightful = l.withdraw_vault(BOB, ALICE, BOB, now + 3600, h.nonce, now + 4000);
    assert!(rightful.is_ok());
    assert_eq!(l.balance_of(BOB), 500);
    assert_eq!(l.balance_of(ALICE), 500);
}

#[test]
fn zero_amount_vault_is_permitted() {
    let mut l = Ledger::new(0);
    let h = l.create_vault(ALICE, BOB, 7_000, 0).unwrap();
    assert!(l.vault_record(&h.address).is_some());
    let r = l.withdraw_vault(BOB, ALICE, BOB, 7_000, h.nonce, 7_000);
    assert!(r.is_ok());
    assert_eq!(l.balance_of(BOB), 0);
    assert!(l.vault_record(&h.address).is_none());
}

#[test]
fn already_unlocked_vault_is_immediately_withdrawable() {
    let mut l = Ledger::new(0);
    l.fund(ALICE, 100);
    // Creation does not validate the unlock time against the present.
    let h = l.create_vault(ALICE, BOB, -50, 100).unwrap();
    let r = l.withdraw_vault(BOB, ALICE, BOB, -50, h.nonce, 0);
    assert!(r.is_ok());
    assert_eq!(l.balance_of(BOB), 100);
}

#[test]
fn address_bytes_follow_the_layout() {
    // depositor and beneficiary little endian, decimal unlock time, nonce.
    let addr = derive_address(1, 2, -5, 7);
    let expected: Vec<u8> = vec![
        1, 0, 0, 0, 0, 0, 0, 0, // depositor
        2, 0, 0, 0, 0, 0, 0, 0, // beneficiary
        b'-', b'5', // unlock time
        7,  // nonce
    ];
    assert_eq!(addr, expected);

    let zero_time = derive_address(1, 2, 0, 0);
    assert_eq!(&zero_time[16..], &[b'0', 0][..]);

    let min_time = derive_address(1, 2, i64::MIN, 0);
    let text: Vec<u8> = min_time[16..min_time.len() - 1].to_vec();
    assert_eq!(text, b"-9223372036854775808".to_vec());
}

#[test]
fn balances_default_to_zero_and_accumulate() {
    let mut l = Ledger::new(0);
    assert_eq!(l.balance_of(ALICE), 0);
    l.fund(ALICE, 7);
    l.fund(ALICE, 8);
    assert_eq!(l.balance_of(ALICE), 15);
    let unknown = derive_address(ALICE, BOB, 1, 0);
    assert!(l.vault_record(&unknown).is_none());
}

#[test]
fn operations_conserve_total_funds() {
    let mut l = Ledger::new(10);
    assert_eq!(l.total_held(), 0);
    l.fund(ALICE, 1000);
    l.fund(BOB, 50);
    assert_eq!(l.total_held(), 1050);
    let h = l.create_vault(ALICE, BOB, 7_000, 400).unwrap();
    assert_eq!(l.total_held(), 1050);
    l.withdraw_vault(BOB, ALICE, BOB, 7_000, h.nonce, 8_000).unwrap();
    assert_eq!(l.total_held(), 1050);
    assert_eq!(l.balance_of(ALICE), 600);
    assert_eq!(l.balance_of(BOB), 450);
}

#[test]
fn distinct_triples_never_collide() {
    let base = derive_address(ALICE, BOB, 7_000, 0);
    assert_ne!(base, derive_address(CAROL, BOB, 7_000, 0));
    assert_ne!(base, derive_address(ALICE, CAROL, 7_000, 0));
    assert_ne!(base, derive_address(ALICE, BOB, 7_001, 0));
    assert_ne!(base, derive_address(ALICE, BOB, -7_000, 0));
    assert_ne!(base, derive_address(ALICE, BOB, 7_000, 1));
}
