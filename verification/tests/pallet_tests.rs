use pallet_kitties::pallet::{new_test_ext, Pallet};
use pallet_kitties::types::{
    ChainContext, DispatchError, Event, Kitty, KittyError, Origin, PaymentError,
};

const ALICE: u64 = 1;
const BOB: u64 = 2;

const DEFAULT_KITTY: Kitty = Kitty { dna: [0u8; 32], owner: 0, price: None };

/// The parent hash and extrinsic index that the genesis storage of the
/// system pallet holds.
fn ctx() -> ChainContext {
    ChainContext { parent_hash: [69u8; 32], extrinsic_index: Some(0) }
}

/// Buying a kitty with the payment outcome that the currency layer reports.
fn buy_kitty(
    p: &mut Pallet,
    origin: Origin,
    kitty_id: [u8; 32],
    max_price: u64,
    payment: Result<(), PaymentError>,
) -> Result<(), DispatchError> {
    let purchase = p.buy_kitty_quote(origin, kitty_id, max_price)?;
    p.buy_kitty_settle(purchase, payment)
}

fn first_kitty(p: &Pallet) -> ([u8; 32], Kitty) {
    p.kitties_iter()[0]
}

#[test]
fn starting_template_is_sane() {
    let mut p = new_test_ext();
    let _event = Event::Created { owner: ALICE };
    let result = p.create_kitty(Origin::Signed(BOB), &ctx());
    assert_eq!(result, Ok(()));
}

#[test]
fn create_kitty_checks_signed() {
    let mut p = new_test_ext();
    assert_eq!(p.create_kitty(Origin::Signed(ALICE), &ctx()), Ok(()));
    let before = p.clone();
    assert_eq!(p.create_kitty(Origin::Unsigned, &ctx()), Err(DispatchError::BadOrigin));
    assert_eq!(p, before);
}

#[test]
fn create_kitty_emits_event() {
    let mut p = new_test_ext();
    p.set_block_number(1);
    assert_eq!(p.create_kitty(Origin::Signed(ALICE), &ctx()), Ok(()));
    assert_eq!(p.last_event(), Some(Event::Created { owner: 1 }));
}

#[test]
fn count_for_kitties_created_correctly() {
    let mut p = new_test_ext();
    assert_eq!(p.count_for_kitten(), 0);
    p.set_count_for_kitten(1337u32);
    p.set_count_for_kitten(1337u32);
    assert_eq!(p.count_for_kitten(), 1337);
}

#[test]
fn mint_increments_count_for_kitty() {
    let mut p = new_test_ext();
    assert_eq!(p.count_for_kitten(), 0);
    assert_eq!(p.create_kitty(Origin::Signed(ALICE), &ctx()), Ok(()));
    assert_eq!(p.count_for_kitten(), 1);
}

#[test]
fn mint_errors_when_overflow() {
    let mut p = new_test_ext();
    p.set_count_for_kitten(u32::MAX);
    let before = p.clone();
    assert_eq!(
        p.create_kitty(Origin::Signed(1), &ctx()),
        Err(DispatchError::Module(KittyError::TooManyKitties))
    );
    assert_eq!(p, before);
}

#[test]
fn kitties_map_created_correctly() {
    let mut p = new_test_ext();
    let zero_key = [0u8; 32];
    assert!(!p.kitties_contains_key(zero_key));
    p.kitties_insert(zero_key, DEFAULT_KITTY);
    assert!(p.kitties_contains_key(zero_key));
}

#[test]
fn create_kitty_adds_to_map() {
    let mut p = new_test_ext();
    assert_eq!(p.create_kitty(Origin::Signed(ALICE), &ctx()), Ok(()));
    assert_eq!(p.kitties_iter().len(), 1);
}

#[test]
fn cannot_mint_duplicate_kitty() {
    let mut p = new_test_ext();
    assert_eq!(p.mint(ALICE, [0u8; 32]), Ok(()));
    let before = p.clone();
    assert_eq!(p.mint(BOB, [0u8; 32]), Err(DispatchError::Module(KittyError::DuplicateKitty)));
    assert_eq!(p, before);
}

#[test]
fn mint_stores_owner_in_kitty() {
    let mut p = new_test_ext();
    assert_eq!(p.mint(1337, [42u8; 32]), Ok(()));
    assert_eq!(p.kitties_get([42u8; 32]).map(|k| k.owner), Some(1337));
}

#[test]
fn create_kitty_makes_unique_kitties() {
    let mut p = new_test_ext();
    assert_eq!(p.create_kitty(Origin::Signed(ALICE), &ctx()), Ok(()));
    assert_eq!(p.create_kitty(Origin::Signed(BOB), &ctx()), Ok(()));
    assert_eq!(p.count_for_kitten(), 2);
    assert_eq!(p.kitties_iter().len(), 2);
}

#[test]
fn kitties_owned_created_correctly() {
    let mut p = new_test_ext();
    assert_eq!(p.kitties_owned_get(1).len(), 0);
    assert_eq!(p.create_kitty(Origin::Signed(ALICE), &ctx()), Ok(()));
    assert_eq!(p.create_kitty(Origin::Signed(BOB), &ctx()), Ok(()));
    assert_eq!(p.kitties_owned_get(ALICE).len(), 1);
}

#[test]
fn cannot_own_too_many_kitties() {
    let mut p = new_test_ext();
    for _ in 1..=100 {
        assert_eq!(p.create_kitty(Origin::Signed(ALICE), &ctx()), Ok(()));
    }
    let before = p.clone();
    assert_eq!(
        p.create_kitty(Origin::Signed(ALICE), &ctx()),
        Err(DispatchError::Module(KittyError::TooManyOwned))
    );
    assert_eq!(p, before);
}

#[test]
fn transfer_emit_event() {
    let mut p = new_test_ext();
    p.set_block_number(1);
    assert_eq!(p.create_kitty(Origin::Signed(ALICE), &ctx()), Ok(()));
    let kitty_id = first_kitty(&p).0;
    assert_eq!(p.transfer(Origin::Signed(ALICE), BOB, kitty_id), Ok(()));
    assert_eq!(p.last_event(), Some(Event::Transferred { from: ALICE, to: BOB, kitty_id }));
}

#[test]
fn transfer_logic_works() {
    let mut p = new_test_ext();
    assert_eq!(p.create_kitty(Origin::Signed(ALICE), &ctx()), Ok(()));
    let kitty = first_kitty(&p).1;
    let kitty_id = kitty.dna;

    assert_eq!(kitty.owner, ALICE);
    assert_eq!(p.kitties_owned_get(ALICE), vec![kitty_id]);
    assert_eq!(p.kitties_owned_get(BOB), Vec::<[u8; 32]>::new());

    let before = p.clone();
    assert_eq!(
        p.transfer(Origin::Signed(ALICE), ALICE, kitty_id),
        Err(DispatchError::Module(KittyError::TransferToSelf))
    );
    assert_eq!(p, before);

    assert_eq!(
        p.transfer(Origin::Signed(ALICE), BOB, [0u8; 32]),
        Err(DispatchError::Module(KittyError::NoKitty))
    );
    assert_eq!(p, before);

    assert_eq!(
        p.transfer(Origin::Signed(BOB), ALICE, kitty_id),
        Err(DispatchError::Module(KittyError::NotOwner))
    );
    assert_eq!(p, before);

    assert_eq!(p.transfer(Origin::Signed(ALICE), BOB, kitty_id), Ok(()));
    assert_eq!(p.kitties_owned_get(BOB), vec![kitty_id]);
    assert_eq!(p.kitties_owned_get(ALICE), Vec::<[u8; 32]>::new());

    let kitty = first_kitty(&p).1;
    assert_eq!(kitty.owner, BOB);
}

#[test]
fn set_price_emit_events() {
    let mut p = new_test_ext();
    p.set_block_number(1);
    assert_eq!(p.create_kitty(Origin::Signed(ALICE), &ctx()), Ok(()));
    let kitty_id = first_kitty(&p).0;
    assert_eq!(p.set_price(Origin::Signed(ALICE), kitty_id, Some(1337)), Ok(()));
    assert_eq!(
        p.last_event(),
        Some(Event::PriceSet { owner: ALICE, kitty_id, new_price: Some(1337) })
    );
}

#[test]
fn set_price_logic_works() {
    let mut p = new_test_ext();
    assert_eq!(p.create_kitty(Origin::Signed(ALICE), &ctx()), Ok(()));

    let kitty = first_kitty(&p).1;
    assert_eq!(kitty.price, None);

    let kitty_id = kitty.dna;

    assert_eq!(p.set_price(Origin::Signed(ALICE), kitty_id, Some(1337)), Ok(()));

    let kitty = p.kitties_get(kitty_id).unwrap();
    assert_eq!(kitty.price, Some(1337));
}

#[test]
fn do_buy_kitty_emits_event() {
    let mut p = new_test_ext();
    p.set_block_number(1);
    assert_eq!(p.create_kitty(Origin::Signed(ALICE), &ctx()), Ok(()));
    let kitty_id = first_kitty(&p).0;
    assert_eq!(p.set_price(Origin::Signed(ALICE), kitty_id, Some(1337)), Ok(()));
    assert_eq!(buy_kitty(&mut p, Origin::Signed(BOB), kitty_id, 1337, Ok(())), Ok(()));
    assert_eq!(p.last_event(), Some(Event::Sold { buyer: BOB, kitty_id, price: 1337 }));
}

#[test]
fn do_buy_kitty_logic_works() {
    let mut p = new_test_ext();
    assert_eq!(p.create_kitty(Origin::Signed(ALICE), &ctx()), Ok(()));
    let kitty = first_kitty(&p).1;
    let kitty_id = kitty.dna;
    assert_eq!(kitty.owner, ALICE);
    assert_eq!(p.kitties_owned_get(ALICE), vec![kitty_id]);
    let before = p.clone();
    // Cannot buy kitty which does not exist.
    assert_eq!(
        buy_kitty(&mut p, Origin::Signed(BOB), [0u8; 32], 1337, Ok(())),
        Err(DispatchError::Module(KittyError::NoKitty))
    );
    assert_eq!(p, before);
    // Cannot buy kitty which is not for sale.
    assert_eq!(
        buy_kitty(&mut p, Origin::Signed(BOB), kitty_id, 1337, Ok(())),
        Err(DispatchError::Module(KittyError::NotForSale))
    );
    assert_eq!(p, before);
    assert_eq!(p.set_price(Origin::Signed(ALICE), kitty_id, Some(1337)), Ok(()));
    let before = p.clone();
    // Cannot buy kitty for a lower price.
    assert_eq!(
        buy_kitty(&mut p, Origin::Signed(BOB), kitty_id, 1336, Ok(())),
        Err(DispatchError::Module(KittyError::MaxPriceTooLow))
    );
    assert_eq!(p, before);
    // Cannot buy kitty if the buyer does not have the funds.
    assert_eq!(
        buy_kitty(&mut p, Origin::Signed(BOB), kitty_id, 1337, Err(PaymentError::Underflow)),
        Err(DispatchError::Payment(PaymentError::Underflow))
    );
    assert_eq!(p, before);
    // Cannot buy kitty if paying would kill the buyer's account.
    assert!(buy_kitty(&mut p, Origin::Signed(BOB), kitty_id, 1337, Err(PaymentError::NotExpendable))
        .is_err());
    assert_eq!(p, before);
    // When everything is right, it works.
    assert_eq!(buy_kitty(&mut p, Origin::Signed(BOB), kitty_id, 1337, Ok(())), Ok(()));
    // State is updated correctly.
    assert_eq!(p.kitties_owned_get(BOB), vec![kitty_id]);
    let kitty = p.kitties_get(kitty_id).unwrap();
    assert_eq!(kitty.owner, BOB);
    // Price is reset to `None`.
    assert_eq!(kitty.price, None);
}
