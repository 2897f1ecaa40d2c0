use vstd::prelude::*;
use crate::types::{Event, Kitty, KittyError, MAX_KITTIES_OWNED};

verus! {

/// The storage of the pallet seen as mathematical values: the kitties by DNA,
/// the list of kitty identifiers of each account that has one, the kitty
/// counter, the number of the current block, and the events recorded so far.
pub struct KittiesState {
    pub kitties: Map<[u8; 32], Kitty>,
    pub owned: Map<u64, Seq<[u8; 32]>>,
    pub count: u32,
    pub block_number: u64,
    pub events: Seq<Event>,
}

/// The events after depositing `e` in block `block_number`: events are not
/// recorded in the genesis block (number zero), and appended otherwise.
pub open spec fn deposit(events: Seq<Event>, block_number: u64, e: Event) -> Seq<Event> {
    if block_number == 0 {
        events
    } else {
        events.push(e)
    }
}

impl KittiesState {
    /// The kitties that `who` owns; an account never written holds none.
    pub open spec fn owned_by(self, who: u64) -> Seq<[u8; 32]> {
        if self.owned.dom().contains(who) {
            self.owned[who]
        } else {
            Seq::empty()
        }
    }
}

/// `i` is the first index of `x` in `s`.
pub open spec fn is_first_position(s: Seq<[u8; 32]>, x: [u8; 32], i: int) -> bool {
    &&& 0 <= i < s.len()
    &&& s[i] == x
    &&& forall|j: int| 0 <= j < i ==> s[j] != x
}

/// The first index of `x` in `s`, if `x` occurs in it.
pub open spec fn first_position(s: Seq<[u8; 32]>, x: [u8; 32]) -> Option<int> {
    if exists|i: int| is_first_position(s, x, i) {
        Some(choose|i: int| is_first_position(s, x, i))
    } else {
        None
    }
}

/// `s` without its element at `i`, whose place the last element takes.
pub open spec fn swap_remove(s: Seq<[u8; 32]>, i: int) -> Seq<[u8; 32]> {
    s.update(i, s.last()).drop_last()
}

/// What minting the kitty `dna` for `owner` does: it fails on a DNA already
/// in use, on a counter that cannot grow, and on an owner who owns the most
/// kitties allowed; otherwise it stores the kitty without a price, appends
/// it to the owner's list, increments the counter and deposits `Created`.
pub open spec fn mint_outcome(s: KittiesState, owner: u64, dna: [u8; 32]) -> Result<KittiesState, KittyError> {
    if s.kitties.dom().contains(dna) {
        Err(KittyError::DuplicateKitty)
    } else if s.count == u32::MAX {
        Err(KittyError::TooManyKitties)
    } else if s.owned_by(owner).len() >= MAX_KITTIES_OWNED {
        Err(KittyError::TooManyOwned)
    } else {
        Ok(KittiesState {
            kitties: s.kitties.insert(dna, Kitty { dna, owner, price: None }),
            owned: s.owned.insert(owner, s.owned_by(owner).push(dna)),
            count: (s.count + 1) as u32,
            block_number: s.block_number,
            events: deposit(s.events, s.block_number, Event::Created { owner }),
        })
    }
}

/// What transferring the kitty `kitty_id` from `from` to `to` does: it fails
/// when both are the same account, when there is no such kitty, when `from`
/// does not own it, when `to` owns the most kitties allowed, and when the
/// kitty is missing from the list of `from`; otherwise the kitty gets the new
/// owner and loses its price, is appended to the list of `to`, leaves the
/// list of `from` (its last element taking its place), and `Transferred` is
/// deposited.
pub open spec fn transfer_outcome(s: KittiesState, from: u64, to: u64, kitty_id: [u8; 32]) -> Result<
    KittiesState,
    KittyError,
> {
    if from == to {
        Err(KittyError::TransferToSelf)
    } else if !s.kitties.dom().contains(kitty_id) {
        Err(KittyError::NoKitty)
    } else if s.kitties[kitty_id].owner != from {
        Err(KittyError::NotOwner)
    } else if s.owned_by(to).len() >= MAX_KITTIES_OWNED {
        Err(KittyError::TooManyOwned)
    } else {
        match first_position(s.owned_by(from), kitty_id) {
            None => Err(KittyError::NoKitty),
            Some(i) => Ok(
                KittiesState {
                    kitties: s.kitties.insert(
                        kitty_id,
                        Kitty { dna: s.kitties[kitty_id].dna, owner: to, price: None },
                    ),
                    owned: s.owned.insert(to, s.owned_by(to).push(kitty_id)).insert(
                        from,
                        swap_remove(s.owned_by(from), i),
                    ),
                    count: s.count,
                    block_number: s.block_number,
                    events: deposit(s.events, s.block_number, Event::Transferred { from, to, kitty_id }),
                },
            ),
        }
    }
}

/// What setting the price of `kitty_id` to `new_price` on behalf of `caller`
/// does: it fails when there is no such kitty and when `caller` does not own
/// it; otherwise the kitty's price becomes `new_price` and `PriceSet` is
/// deposited.
pub open spec fn set_price_outcome(
    s: KittiesState,
    caller: u64,
    kitty_id: [u8; 32],
    new_price: Option<u64>,
) -> Result<KittiesState, KittyError> {
    if !s.kitties.dom().contains(kitty_id) {
        Err(KittyError::NoKitty)
    } else if s.kitties[kitty_id].owner != caller {
        Err(KittyError::NotOwner)
    } else {
        let k = s.kitties[kitty_id];
        Ok(
            KittiesState {
                kitties: s.kitties.insert(kitty_id, Kitty { dna: k.dna, owner: k.owner, price: new_price }),
                owned: s.owned,
                count: s.count,
                block_number: s.block_number,
                events: deposit(s.events, s.block_number, Event::PriceSet { owner: caller, kitty_id, new_price }),
            },
        )
    }
}

/// The seller and the price of a purchase of `kitty_id` by a buyer willing to
/// pay up to `max_price`: it fails when there is no such kitty, when it has
/// no price, and when its price exceeds `max_price`.
pub open spec fn purchase_terms(s: KittiesState, kitty_id: [u8; 32], max_price: u64) -> Result<
    (u64, u64),
    KittyError,
> {
    if !s.kitties.dom().contains(kitty_id) {
        Err(KittyError::NoKitty)
    } else {
        match s.kitties[kitty_id].price {
            None => Err(KittyError::NotForSale),
            Some(price) => if max_price < price {
                Err(KittyError::MaxPriceTooLow)
            } else {
                Ok((s.kitties[kitty_id].owner, price))
            },
        }
    }
}

/// What completing a paid purchase does: the kitty is transferred from
/// `seller` to `buyer` as `transfer_outcome` says, then `Sold` is deposited.
pub open spec fn sale_outcome(
    s: KittiesState,
    buyer: u64,
    seller: u64,
    kitty_id: [u8; 32],
    price: u64,
) -> Result<KittiesState, KittyError> {
    match transfer_outcome(s, seller, buyer, kitty_id) {
        Err(e) => Err(e),
        Ok(t) => Ok(
            KittiesState {
                kitties: t.kitties,
                owned: t.owned,
                count: t.count,
                block_number: t.block_number,
                events: deposit(t.events, t.block_number, Event::Sold { buyer, kitty_id, price }),
            },
        ),
    }
}

} // verus!

verus! {

/// The storage is consistent: the counter counts the kitties; every kitty is
/// stored under its own DNA and is listed by its owner; every listed kitty
/// exists and belongs to the account that lists it; no list holds an
/// identifier twice or more kitties than allowed.
pub open spec fn consistent(s: KittiesState) -> bool {
    &&& s.kitties.dom().finite()
    &&& s.count == s.kitties.dom().len()
    &&& forall|id: [u8; 32]| #[trigger]
        s.kitties.dom().contains(id) ==> s.kitties[id].dna == id && s.owned_by(
            s.kitties[id].owner,
        ).contains(id)
    &&& forall|a: u64, i: int|
        0 <= i < s.owned_by(a).len() ==> s.kitties.dom().contains(#[trigger] s.owned_by(a)[i])
            && s.kitties[s.owned_by(a)[i]].owner == a
    &&& forall|a: u64| #[trigger] s.owned_by(a).no_duplicates()
    &&& forall|a: u64| #[trigger] s.owned_by(a).len() <= MAX_KITTIES_OWNED
}

} // verus!
