use pallet_kitties::pallet::{new_test_ext, Pallet};
use pallet_kitties::types::{
    ChainContext, DispatchError, Event, Kitty, KittyError, Origin, PaymentError, Purchase,
};
use std::collections::BTreeSet;

const ALICE: u64 = 1;
const BOB: u64 = 2;
const CHARLIE: u64 = 3;

fn ctx() -> ChainContext {
    ChainContext { parent_hash: [69u8; 32], extrinsic_index: Some(0) }
}

fn dna(n: u8) -> [u8; 32] {
    let mut d = [0u8; 32];
    d[0] = n;
    d[31] = 255 - n;
    d
}

fn id_set(v: Vec<[u8; 32]>) -> BTreeSet<[u8; 32]> {
    v.into_iter().collect()
}

/// Every kitty is listed by its owner, every listed kitty belongs to the
/// account that lists it, and the counter counts the kitties.
fn assert_consistent(p: &Pallet, accounts: &[u64]) {
    let all = p.kitties_iter();
    assert_eq!(p.count_for_kitten() as usize, all.len());
    for (id, k) in &all {
        assert_eq!(k.dna, *id);
        assert!(p.kitties_owned_get(k.owner).contains(id));
    }
    for a in accounts {
        let list = p.kitties_owned_get(*a);
        assert_eq!(id_set(list.clone()).len(), list.len());
        for id in &list {
            assert_eq!(p.kitties_get(*id).unwrap().owner, *a);
        }
    }
}

#[test]
fn gen_dna_hashes_the_encoded_context() {
    let mut p = new_test_ext();
    p.set_count_for_kitten(0x0102_0304);
    p.set_block_number(0x1122_3344_5566_7788);
    let parent = dna(9);
    let c = ChainContext { parent_hash: parent, extrinsic_index: None };
    let mut bytes: Vec<u8> = parent.to_vec();
    bytes.extend_from_slice(&[0x88, 0x77, 0x66, 0x55, 0x44, 0x33, 0x22, 0x11]);
    bytes.push(0);
    bytes.extend_from_slice(&[0x04, 0x03, 0x02, 0x01]);
    assert_eq!(p.gen_dna(&c), sp_crypto_hashing::blake2_256(&bytes));
    assert_ne!(p.gen_dna(&c), parent);
}

#[test]
fn gen_dna_encodes_the_extrinsic_index() {
    let mut p = new_test_ext();
    p.set_block_number(5);
    let c = ChainContext { parent_hash: [7u8; 32], extrinsic_index: Some(0x0a0b_0c0d) };
    let mut bytes: Vec<u8> = vec![7u8; 32];
    bytes.extend_from_slice(&[5, 0, 0, 0, 0, 0, 0, 0]);
    bytes.extend_from_slice(&[1, 0x0d, 0x0c, 0x0b, 0x0a]);
    bytes.extend_from_slice(&[0, 0, 0, 0]);
    assert_eq!(p.gen_dna(&c), sp_crypto_hashing::blake2_256(&bytes));
}

#[test]
fn gen_dna_depends_on_the_counter() {
    let mut p = new_test_ext();
    let first = p.gen_dna(&ctx());
    assert_eq!(p.gen_dna(&ctx()), first);
    assert_eq!(p.create_kitty(Origin::Signed(ALICE), &ctx()), Ok(()));
    assert_eq!(p.kitties_get(first).unwrap().owner, ALICE);
    assert_ne!(p.gen_dna(&ctx()), first);
}

#[test]
fn mint_stores_a_kitty_without_price() {
    let mut p = new_test_ext();
    p.set_block_number(1);
    assert_eq!(p.mint(ALICE, dna(1)), Ok(()));
    assert_eq!(p.kitties_get(dna(1)), Some(Kitty { dna: dna(1), owner: ALICE, price: None }));
    assert_eq!(p.kitties_owned_get(ALICE), vec![dna(1)]);
    assert_eq!(p.count_for_kitten(), 1);
    assert_eq!(p.last_event(), Some(Event::Created { owner: ALICE }));
}

#[test]
fn mint_checks_duplicates_before_the_counter() {
    let mut p = new_test_ext();
    assert_eq!(p.mint(ALICE, dna(1)), Ok(()));
    p.set_count_for_kitten(u32::MAX);
    assert_eq!(p.mint(BOB, dna(1)), Err(DispatchError::Module(KittyError::DuplicateKitty)));
    assert_eq!(p.mint(BOB, dna(2)), Err(DispatchError::Module(KittyError::TooManyKitties)));
}

#[test]
fn operations_keep_storage_consistent() {
    let mut p = new_test_ext();
    for n in 0..5u8 {
        assert_eq!(p.mint(ALICE, dna(n)), Ok(()));
    }
    assert_eq!(p.mint(BOB, dna(10)), Ok(()));
    assert_consistent(&p, &[ALICE, BOB, CHARLIE]);
    assert_eq!(p.transfer(Origin::Signed(ALICE), BOB, dna(2)), Ok(()));
    assert_consistent(&p, &[ALICE, BOB, CHARLIE]);
    assert_eq!(p.set_price(Origin::Signed(BOB), dna(2), Some(10)), Ok(()));
    assert_eq!(buy_kitty(&mut p, Origin::Signed(CHARLIE), dna(2), 10, Ok(())), Ok(()));
    assert_consistent(&p, &[ALICE, BOB, CHARLIE]);
    assert_eq!(p.kitties_get(dna(2)).unwrap().owner, CHARLIE);
}

#[test]
fn transfer_moves_the_last_kitty_into_the_gap() {
    let mut p = new_test_ext();
    for n in 1..=3u8 {
        assert_eq!(p.mint(ALICE, dna(n)), Ok(()));
    }
    assert_eq!(p.transfer(Origin::Signed(ALICE), BOB, dna(1)), Ok(()));
    assert_eq!(p.kitties_owned_get(ALICE), vec![dna(3), dna(2)]);
    assert_eq!(p.kitties_owned_get(BOB), vec![dna(1)]);
    assert_eq!(p.count_for_kitten(), 3);
}

#[test]
fn transfer_back_restores_ownership() {
    let mut p = new_test_ext();
    for n in 1..=3u8 {
        assert_eq!(p.mint(ALICE, dna(n)), Ok(()));
    }
    assert_eq!(p.set_price(Origin::Signed(ALICE), dna(1), Some(5)), Ok(()));
    let alice_before = id_set(p.kitties_owned_get(ALICE));
    let bob_before = p.kitties_owned_get(BOB);
    assert_eq!(p.transfer(Origin::Signed(ALICE), BOB, dna(1)), Ok(()));
    assert_eq!(p.transfer(Origin::Signed(BOB), ALICE, dna(1)), Ok(()));
    assert_eq!(id_set(p.kitties_owned_get(ALICE)), alice_before);
    assert_eq!(p.kitties_owned_get(BOB), bob_before);
    assert_eq!(p.kitties_get(dna(1)), Some(Kitty { dna: dna(1), owner: ALICE, price: None }));
    assert_eq!(p.count_for_kitten(), 3);
}

#[test]
fn a_kitty_has_a_single_owner() {
    let mut p = new_test_ext();
    assert_eq!(p.mint(ALICE, dna(1)), Ok(()));
    assert_eq!(p.transfer(Origin::Signed(ALICE), BOB, dna(1)), Ok(()));
    assert_eq!(p.transfer(Origin::Signed(BOB), CHARLIE, dna(1)), Ok(()));
    let holders: Vec<u64> =
        [ALICE, BOB, CHARLIE].into_iter().filter(|a| p.kitties_owned_get(*a).contains(&dna(1))).collect();
    assert_eq!(holders, vec![CHARLIE]);
}

#[test]
fn transfer_to_a_full_account_fails() {
    let mut p = new_test_ext();
    for n in 0..100u8 {
        assert_eq!(p.mint(BOB, dna(n)), Ok(()));
    }
    assert_eq!(p.mint(ALICE, dna(200)), Ok(()));
    let before = p.clone();
    assert_eq!(
        p.transfer(Origin::Signed(ALICE), BOB, dna(200)),
        Err(DispatchError::Module(KittyError::TooManyOwned))
    );
    assert_eq!(p, before);
}

#[test]
fn calls_need_a_signed_origin() {
    let mut p = new_test_ext();
    assert_eq!(p.mint(ALICE, dna(1)), Ok(()));
    let before = p.clone();
    assert_eq!(p.create_kitty(Origin::Root, &ctx()), Err(DispatchError::BadOrigin));
    assert_eq!(p.transfer(Origin::Unsigned, BOB, dna(1)), Err(DispatchError::BadOrigin));
    assert_eq!(p.set_price(Origin::Root, dna(1), Some(1)), Err(DispatchError::BadOrigin));
    assert_eq!(p.buy_kitty_quote(Origin::Unsigned, dna(1), 1), Err(DispatchError::BadOrigin));
    assert_eq!(p, before);
}

#[test]
fn set_price_checks_kitty_and_owner() {
    let mut p = new_test_ext();
    assert_eq!(p.mint(ALICE, dna(1)), Ok(()));
    let before = p.clone();
    assert_eq!(
        p.set_price(Origin::Signed(ALICE), dna(2), Some(1)),
        Err(DispatchError::Module(KittyError::NoKitty))
    );
    assert_eq!(
        p.set_price(Origin::Signed(BOB), dna(1), Some(1)),
        Err(DispatchError::Module(KittyError::NotOwner))
    );
    assert_eq!(p, before);
}

#[test]
fn a_set_price_is_quoted() {
    let mut p = new_test_ext();
    assert_eq!(p.mint(ALICE, dna(1)), Ok(()));
    assert_eq!(p.set_price(Origin::Signed(ALICE), dna(1), Some(40)), Ok(()));
    assert_eq!(
        p.buy_kitty_quote(Origin::Signed(BOB), dna(1), 50),
        Ok(Purchase { buyer: BOB, seller: ALICE, kitty_id: dna(1), price: 40 })
    );
}

#[test]
fn a_kitty_off_sale_cannot_be_bought() {
    let mut p = new_test_ext();
    assert_eq!(p.mint(ALICE, dna(1)), Ok(()));
    assert_eq!(p.set_price(Origin::Signed(ALICE), dna(1), Some(40)), Ok(()));
    assert_eq!(p.set_price(Origin::Signed(ALICE), dna(1), None), Ok(()));
    assert_eq!(
        p.buy_kitty_quote(Origin::Signed(BOB), dna(1), 50),
        Err(DispatchError::Module(KittyError::NotForSale))
    );
}

#[test]
fn a_purchase_pays_the_set_price() {
    let mut p = new_test_ext();
    p.set_block_number(1);
    assert_eq!(p.mint(ALICE, dna(1)), Ok(()));
    assert_eq!(p.set_price(Origin::Signed(ALICE), dna(1), Some(40)), Ok(()));
    let purchase = p.buy_kitty_quote(Origin::Signed(BOB), dna(1), 100).unwrap();
    assert_eq!(purchase.price, 40);
    assert_eq!(p.buy_kitty_settle(purchase, Ok(())), Ok(()));
    assert_eq!(p.last_event(), Some(Event::Sold { buyer: BOB, kitty_id: dna(1), price: 40 }));
    assert_eq!(p.kitties_get(dna(1)), Some(Kitty { dna: dna(1), owner: BOB, price: None }));
    assert_eq!(p.kitties_owned_get(ALICE), Vec::<[u8; 32]>::new());
    assert_eq!(p.kitties_owned_get(BOB), vec![dna(1)]);
}

#[test]
fn a_failed_payment_changes_nothing() {
    let mut p = new_test_ext();
    assert_eq!(p.mint(ALICE, dna(1)), Ok(()));
    assert_eq!(p.set_price(Origin::Signed(ALICE), dna(1), Some(40)), Ok(()));
    let purchase = p.buy_kitty_quote(Origin::Signed(BOB), dna(1), 100).unwrap();
    let before = p.clone();
    assert_eq!(
        p.buy_kitty_settle(purchase, Err(PaymentError::FundsUnavailable)),
        Err(DispatchError::Payment(PaymentError::FundsUnavailable))
    );
    assert_eq!(p, before);
}

#[test]
fn buying_ones_own_kitty_fails_after_payment() {
    let mut p = new_test_ext();
    assert_eq!(p.mint(ALICE, dna(1)), Ok(()));
    assert_eq!(p.set_price(Origin::Signed(ALICE), dna(1), Some(40)), Ok(()));
    let purchase = p.buy_kitty_quote(Origin::Signed(ALICE), dna(1), 40).unwrap();
    let before = p.clone();
    assert_eq!(
        p.buy_kitty_settle(purchase, Ok(())),
        Err(DispatchError::Module(KittyError::TransferToSelf))
    );
    assert_eq!(p, before);
}

#[test]
fn kitties_insert_replaces_a_stored_kitty() {
    let mut p = new_test_ext();
    assert_eq!(p.mint(ALICE, dna(1)), Ok(()));
    let replaced = Kitty { dna: dna(1), owner: BOB, price: Some(3) };
    p.kitties_insert(dna(1), replaced);
    assert_eq!(p.kitties_get(dna(1)), Some(replaced));
    assert_eq!(p.kitties_iter().len(), 1);
    assert_eq!(p.count_for_kitten(), 1);
}

#[test]
fn events_are_not_recorded_in_the_genesis_block() {
    let mut p = new_test_ext();
    assert_eq!(p.block_number(), 0);
    assert_eq!(p.mint(ALICE, dna(1)), Ok(()));
    assert_eq!(p.last_event(), None);
    p.set_block_number(1);
    assert_eq!(p.mint(ALICE, dna(2)), Ok(()));
    assert_eq!(p.last_event(), Some(Event::Created { owner: ALICE }));
    assert_eq!(p.transfer(Origin::Signed(ALICE), BOB, dna(1)), Ok(()));
    assert_eq!(p.last_event(), Some(Event::Transferred { from: ALICE, to: BOB, kitty_id: dna(1) }));
}

#[test]
fn successive_kitties_hash_different_inputs() {
    let mut p = new_test_ext();
    let first = p.gen_dna(&ctx());
    assert_eq!(p.create_kitty(Origin::Signed(ALICE), &ctx()), Ok(()));
    let second = p.gen_dna(&ctx());
    assert_ne!(first, second);
    assert_eq!(p.create_kitty(Origin::Signed(ALICE), &ctx()), Ok(()));
    assert!(p.kitties_contains_key(first));
    assert!(p.kitties_contains_key(second));
}

#[test]
fn empty_storage_has_no_event() {
    let p = Pallet::new();
    assert_eq!(p.last_event(), None);
    assert_eq!(p.kitties_iter().len(), 0);
    assert_eq!(p.count_for_kitten(), 0);
}

fn buy_kitty(
    p: &mut Pallet,
    origin: Origin,
    kitty_id: [u8; 32],
    max_price: u64,
    payment: Result<(), PaymentError>,
) -> Result<(), DispatchError> {
    let purchase = p.buy_kitty_quote(origin, kitty_id, max_price)?;
    p.buy_kitty_settle(purchase, payment)
}
