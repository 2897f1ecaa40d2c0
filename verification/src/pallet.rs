use vstd::prelude::*;
use crate::laws::{
    lemma_genesis_consistent, lemma_mint_keeps_consistency, lemma_sale_keeps_consistency, lemma_set_price_keeps_consistency,
    lemma_transfer_keeps_consistency,
};
use crate::spec::{
    consistent, first_position, is_first_position, mint_outcome, purchase_terms, sale_outcome, set_price_outcome,
    transfer_outcome, deposit, KittiesState,
};
use crate::store::{
    entries_map, has_key, keys_unique, lemma_absent, lemma_entry_at, lemma_len, lemma_push, lemma_update,
};
use crate::dna::{blake2_256, blake2_256_digest, dna_payload, scale_encode_payload};
use crate::types::{
    ensure_signed, signer, ChainContext, DispatchError, Event, Kitty, KittyError, Origin, PaymentError,
    Purchase, MAX_KITTIES_OWNED,
};

verus! {

/// The storage of the kitties pallet.
#[derive(Clone, Debug, PartialEq, Eq)]
pub struct Pallet {
    /// The kitties, each under its identifier; no identifier occurs twice.
    kitties: Vec<([u8; 32], Kitty)>,
    /// For each account that has one, the identifiers of its kitties; no
    /// account occurs twice.
    kitties_owned: Vec<(u64, Vec<[u8; 32]>)>,
    /// The kitty counter.
    count_for_kitten: u32,
    /// The number of the current block.
    block_number: u64,
    /// The events recorded, oldest first.
    events: Vec<Event>,
}

/// Two DNAs are equal exactly when all their bytes are.
fn dna_eq(a: &[u8; 32], b: &[u8; 32]) -> (r: bool)
    ensures
        r == (*a == *b),
{
    let mut i: usize = 0;
    while i < 32
        invariant
            i <= 32,
            forall|j: int| 0 <= j < i ==> a[j] == b[j],
        decreases 32 - i,
    {
        if a[i] != b[i] {
            return false;
        }
        i += 1;
    }
    assert(*a =~= *b);
    true
}

/// A copy of a list of kitty identifiers.
fn copy_ids(v: &Vec<[u8; 32]>) -> (r: Vec<[u8; 32]>)
    ensures
        r@ == v@,
{
    let mut r: Vec<[u8; 32]> = Vec::new();
    let mut i: usize = 0;
    while i < v.len()
        invariant
            i <= v.len(),
            r@ == v@.subrange(0, i as int),
        decreases v.len() - i,
    {
        let x: [u8; 32] = v[i];
        r.push(x);
        i += 1;
    }
    assert(r@ =~= v@);
    r
}

/// The first index of `x` in `v`, as `Vec::iter().position` finds it.
fn position_of(v: &Vec<[u8; 32]>, x: &[u8; 32]) -> (r: Option<usize>)
    ensures
        match r {
            Some(i) => first_position(v@, *x) == Some(i as int),
            None => first_position(v@, *x) is None,
        },
{
    let mut i: usize = 0;
    while i < v.len()
        invariant
            i <= v.len(),
            forall|j: int| 0 <= j < i ==> v@[j] != *x,
        decreases v.len() - i,
    {
        if dna_eq(&v[i], x) {
            proof {
                assert(is_first_position(v@, *x, i as int));
                let c = choose|c: int| is_first_position(v@, *x, c);
                if c < i {
                    assert(v@[c] != *x);
                } else if c > i {
                    assert(v@[i as int] != *x);
                }
            }
            return Some(i);
        }
        i += 1;
    }
    proof {
        if exists|c: int| is_first_position(v@, *x, c) {
            let c = choose|c: int| is_first_position(v@, *x, c);
            assert(v@[c] != *x);
        }
    }
    None
}

impl Pallet {
    /// The per-account lists as mathematical values.
    pub closed spec fn owned_entries(self) -> Seq<(u64, Seq<[u8; 32]>)> {
        self.kitties_owned@.map_values(|e: (u64, Vec<[u8; 32]>)| (e.0, e.1@))
    }

    /// The storage is well formed: no kitty identifier and no account is
    /// stored twice.
    pub closed spec fn wf(self) -> bool {
        &&& keys_unique(self.kitties@)
        &&& keys_unique(self.owned_entries())
    }
}

impl View for Pallet {
    type V = KittiesState;

    closed spec fn view(&self) -> KittiesState {
        KittiesState {
            kitties: entries_map(self.kitties@),
            owned: entries_map(self.owned_entries()),
            count: self.count_for_kitten,
            block_number: self.block_number,
            events: self.events@,
        }
    }
}

/// The storage at genesis, from which every test starts.
pub fn new_test_ext() -> (r: Pallet)
    ensures
        r.wf(),
        r@.kitties == Map::<[u8; 32], Kitty>::empty(),
        r@.owned == Map::<u64, Seq<[u8; 32]>>::empty(),
        r@.count == 0,
        r@.block_number == 0,
        r@.events == Seq::<Event>::empty(),
        consistent(r@),
{
    Pallet::new()
}

impl Pallet {
    /// Empty storage: no kitty, no list, a zero counter and no event.
    pub fn new() -> (r: Pallet)
        ensures
            r.wf(),
            r@.kitties == Map::<[u8; 32], Kitty>::empty(),
            r@.owned == Map::<u64, Seq<[u8; 32]>>::empty(),
            r@.count == 0,
            r@.block_number == 0,
            r@.events == Seq::<Event>::empty(),
            consistent(r@),
    {
        let r = Pallet {
            kitties: Vec::new(),
            kitties_owned: Vec::new(),
            count_for_kitten: 0,
            block_number: 0,
            events: Vec::new(),
        };
        assert(r@.kitties =~= Map::<[u8; 32], Kitty>::empty());
        assert(r.owned_entries() =~= Seq::<(u64, Seq<[u8; 32]>)>::empty());
        assert(r@.owned =~= Map::<u64, Seq<[u8; 32]>>::empty());
        proof {
            lemma_genesis_consistent(r@);
        }
        r
    }

    /// The index of the kitty stored under `dna`, if there is one.
    fn find_kitty(&self, dna: &[u8; 32]) -> (r: Option<usize>)
        requires
            self.wf(),
        ensures
            match r {
                Some(i) => i < self.kitties@.len() && self.kitties@[i as int].0 == *dna
                    && self@.kitties.dom().contains(*dna) && self@.kitties[*dna] == self.kitties@[i as int].1,
                None => !self@.kitties.dom().contains(*dna) && !has_key(self.kitties@, *dna),
            },
    {
        let mut i: usize = 0;
        while i < self.kitties.len()
            invariant
                self.wf(),
                i <= self.kitties@.len(),
                forall|j: int| 0 <= j < i ==> #[trigger] self.kitties@[j].0 != *dna,
            decreases self.kitties@.len() - i,
        {
            if dna_eq(&self.kitties[i].0, dna) {
                proof {
                    lemma_entry_at(self.kitties@, i as int);
                }
                return Some(i);
            }
            i += 1;
        }
        proof {
            lemma_absent(self.kitties@, *dna);
        }
        None
    }

    /// The index of the list of `who`, if there is one.
    fn find_owner(&self, who: u64) -> (r: Option<usize>)
        requires
            self.wf(),
        ensures
            match r {
                Some(i) => i < self.kitties_owned@.len() && self.kitties_owned@[i as int].0 == who
                    && self@.owned.dom().contains(who) && self@.owned[who] == self.kitties_owned@[i as int].1@,
                None => !self@.owned.dom().contains(who) && !has_key(self.owned_entries(), who),
            },
    {
        let mut i: usize = 0;
        while i < self.kitties_owned.len()
            invariant
                self.wf(),
                i <= self.kitties_owned@.len(),
                forall|j: int| 0 <= j < i ==> #[trigger] self.kitties_owned@[j].0 != who,
            decreases self.kitties_owned@.len() - i,
        {
            if self.kitties_owned[i].0 == who {
                proof {
                    lemma_entry_at(self.owned_entries(), i as int);
                }
                return Some(i);
            }
            i += 1;
        }
        proof {
            assert forall|j: int| 0 <= j < self.owned_entries().len() implies #[trigger] self.owned_entries()[j].0 != who by {
                assert(self.kitties_owned@[j].0 != who);
            }
            lemma_absent(self.owned_entries(), who);
        }
        None
    }

    /// A copy of the list of `who` (empty for an account never written).
    fn owned_list(&self, who: u64) -> (r: Vec<[u8; 32]>)
        requires
            self.wf(),
        ensures
            r@ == self@.owned_by(who),
    {
        match self.find_owner(who) {
            Some(i) => copy_ids(&self.kitties_owned[i].1),
            None => Vec::new(),
        }
    }

    /// Stores `list` as the list of `who`.
    fn set_owned(&mut self, who: u64, list: Vec<[u8; 32]>)
        requires
            old(self).wf(),
        ensures
            final(self).wf(),
            final(self)@.owned == old(self)@.owned.insert(who, list@),
            final(self)@.kitties == old(self)@.kitties,
            final(self)@.count == old(self)@.count,
            final(self)@.block_number == old(self)@.block_number,
            final(self)@.events == old(self)@.events,
    {
        let ghost list_view = list@;
        match self.find_owner(who) {
            Some(i) => {
                proof {
                    lemma_update(self.owned_entries(), i as int, list_view);
                }
                let ghost before = self.owned_entries();
                self.kitties_owned[i] = (who, list);
                assert(self.owned_entries() =~= before.update(i as int, (before[i as int].0, list_view)));
            },
            None => {
                proof {
                    lemma_push(self.owned_entries(), who, list_view);
                }
                let ghost before = self.owned_entries();
                self.kitties_owned.push((who, list));
                assert(self.owned_entries() =~= before.push((who, list_view)));
            },
        }
    }
}


impl Pallet {
    /// Deposits the event `e`, which is recorded unless the current block is
    /// the genesis block.
    fn deposit_event(&mut self, e: Event)
        requires
            old(self).wf(),
        ensures
            final(self).wf(),
            final(self)@ == (KittiesState {
                events: deposit(old(self)@.events, old(self)@.block_number, e),
                ..old(self)@
            }),
    {
        if self.block_number != 0 {
            self.events.push(e);
        }
        assert(self.owned_entries() =~= old(self).owned_entries());
    }

    /// Stores `kitty` at index `i`, whose identifier it keeps.
    fn replace_kitty(&mut self, i: usize, kitty: Kitty)
        requires
            old(self).wf(),
            i < old(self).kitties@.len(),
        ensures
            final(self).wf(),
            final(self)@.kitties == old(self)@.kitties.insert(old(self).kitties@[i as int].0, kitty),
            final(self)@.owned == old(self)@.owned,
            final(self)@.count == old(self)@.count,
            final(self)@.block_number == old(self)@.block_number,
            final(self)@.events == old(self)@.events,
            final(self).kitties@[i as int].0 == old(self).kitties@[i as int].0,
    {
        let key: [u8; 32] = self.kitties[i].0;
        proof {
            lemma_update(self.kitties@, i as int, kitty);
        }
        self.kitties[i] = (key, kitty);
        assert(self.owned_entries() =~= old(self).owned_entries());
    }

    /// Mints the kitty `dna` for `owner`, as `mint_outcome` says; on an error
    /// the storage is left as it was.
    pub fn mint(&mut self, owner: u64, dna: [u8; 32]) -> (r: Result<(), DispatchError>)
        requires
            old(self).wf(),
        ensures
            final(self).wf(),
            consistent(old(self)@) ==> consistent(final(self)@),
            match mint_outcome(old(self)@, owner, dna) {
                Ok(s) => r == Ok::<(), DispatchError>(()) && final(self)@ == s,
                Err(e) => r == Err::<(), DispatchError>(DispatchError::Module(e)) && final(self)@
                    == old(self)@,
            },
    {
        if self.find_kitty(&dna).is_some() {
            return Err(DispatchError::Module(KittyError::DuplicateKitty));
        }
        let new_count = match self.count_for_kitten.checked_add(1) {
            Some(c) => c,
            None => {
                return Err(DispatchError::Module(KittyError::TooManyKitties));
            },
        };
        let mut list = self.owned_list(owner);
        if list.len() >= MAX_KITTIES_OWNED {
            return Err(DispatchError::Module(KittyError::TooManyOwned));
        }
        list.push(dna);
        let ghost pre = self@;
        let kitty = Kitty { dna, owner, price: None };
        proof {
            lemma_push(self.kitties@, dna, kitty);
        }
        self.kitties.push((dna, kitty));
        assert(self.owned_entries() =~= old(self).owned_entries());
        self.set_owned(owner, list);
        self.count_for_kitten = new_count;
        self.deposit_event(Event::Created { owner });
        proof {
            let s = mint_outcome(pre, owner, dna).unwrap();
            assert(self@.kitties == s.kitties);
            assert(self@.owned == s.owned);
            assert(self@.events == s.events);
            if consistent(pre) {
                lemma_mint_keeps_consistency(pre, owner, dna);
            }
        }
        Ok(())
    }

    /// The DNA of the next kitty: the BLAKE2b-256 hash of the encoded parent
    /// hash of `ctx`, the current block number, the extrinsic index of `ctx`
    /// and the kitty counter.
    pub fn gen_dna(&self, ctx: &ChainContext) -> (r: [u8; 32])
        ensures
            r@ == blake2_256(
                dna_payload(ctx.parent_hash, self@.block_number, ctx.extrinsic_index, self@.count),
            ),
    {
        let payload = scale_encode_payload(
            ctx.parent_hash,
            self.block_number,
            ctx.extrinsic_index,
            self.count_for_kitten,
        );
        blake2_256_digest(payload.as_slice())
    }

    /// Creates a kitty for the signer of `origin`, its DNA drawn from `ctx`
    /// and the counter by `gen_dna`; an unsigned or root call fails with
    /// `BadOrigin`. On an error the storage is left as it was.
    pub fn create_kitty(&mut self, origin: Origin, ctx: &ChainContext) -> (r: Result<(), DispatchError>)
        requires
            old(self).wf(),
        ensures
            final(self).wf(),
            consistent(old(self)@) ==> consistent(final(self)@),
            match signer(origin) {
                None => r == Err::<(), DispatchError>(DispatchError::BadOrigin) && final(self)@ == old(self)@,
                Some(who) => exists|dna: [u8; 32]|
                    dna@ == blake2_256(
                        dna_payload(ctx.parent_hash, old(self)@.block_number, ctx.extrinsic_index, old(self)@.count),
                    ) && match #[trigger] mint_outcome(old(self)@, who, dna) {
                        Ok(s) => r == Ok::<(), DispatchError>(()) && final(self)@ == s,
                        Err(e) => r == Err::<(), DispatchError>(DispatchError::Module(e)) && final(self)@
                            == old(self)@,
                    },
            },
    {
        let who = match ensure_signed(origin) {
            Ok(who) => who,
            Err(e) => {
                return Err(e);
            },
        };
        let dna = self.gen_dna(ctx);
        self.mint(who, dna)
    }

    /// Moves the kitty `kitty_id` from `from` to `to`, as `transfer_outcome`
    /// says; on an error the storage is left as it was.
    fn do_transfer(&mut self, from: u64, to: u64, kitty_id: [u8; 32]) -> (r: Result<(), KittyError>)
        requires
            old(self).wf(),
        ensures
            final(self).wf(),
            consistent(old(self)@) ==> consistent(final(self)@),
            match transfer_outcome(old(self)@, from, to, kitty_id) {
                Ok(s) => r == Ok::<(), KittyError>(()) && final(self)@ == s,
                Err(e) => r == Err::<(), KittyError>(e) && final(self)@ == old(self)@,
            },
    {
        if from == to {
            return Err(KittyError::TransferToSelf);
        }
        let idx = match self.find_kitty(&kitty_id) {
            Some(i) => i,
            None => {
                return Err(KittyError::NoKitty);
            },
        };
        let kitty: Kitty = self.kitties[idx].1;
        if kitty.owner != from {
            return Err(KittyError::NotOwner);
        }
        let mut to_owned = self.owned_list(to);
        if to_owned.len() >= MAX_KITTIES_OWNED {
            return Err(KittyError::TooManyOwned);
        }
        to_owned.push(kitty_id);
        let mut from_owned = self.owned_list(from);
        let pos = position_of(&from_owned, &kitty_id);
        match pos {
            Some(i) => {
                from_owned.swap_remove(i);
            },
            None => {
                return Err(KittyError::NoKitty);
            },
        }
        let ghost pre = self@;
        self.replace_kitty(idx, Kitty { dna: kitty.dna, owner: to, price: None });
        self.set_owned(to, to_owned);
        self.set_owned(from, from_owned);
        self.deposit_event(Event::Transferred { from, to, kitty_id });
        proof {
            let s = transfer_outcome(pre, from, to, kitty_id).unwrap();
            assert(self@.kitties == s.kitties);
            assert(self@.owned == s.owned);
            assert(self@.events == s.events);
            if consistent(pre) {
                lemma_transfer_keeps_consistency(pre, from, to, kitty_id);
            }
        }
        Ok(())
    }
}


impl Pallet {
    /// Transfers the kitty `kitty_id` from the signer of `origin` to `to`, as
    /// `transfer_outcome` says; an unsigned or root call fails with
    /// `BadOrigin`. On an error the storage is left as it was.
    pub fn transfer(&mut self, origin: Origin, to: u64, kitty_id: [u8; 32]) -> (r: Result<(), DispatchError>)
        requires
            old(self).wf(),
        ensures
            final(self).wf(),
            consistent(old(self)@) ==> consistent(final(self)@),
            match signer(origin) {
                None => r == Err::<(), DispatchError>(DispatchError::BadOrigin) && final(self)@ == old(self)@,
                Some(who) => match transfer_outcome(old(self)@, who, to, kitty_id) {
                    Ok(s) => r == Ok::<(), DispatchError>(()) && final(self)@ == s,
                    Err(e) => r == Err::<(), DispatchError>(DispatchError::Module(e)) && final(self)@
                        == old(self)@,
                },
            },
    {
        let who = match ensure_signed(origin) {
            Ok(who) => who,
            Err(e) => {
                return Err(e);
            },
        };
        match self.do_transfer(who, to, kitty_id) {
            Ok(()) => Ok(()),
            Err(e) => Err(DispatchError::Module(e)),
        }
    }

    /// Sets the price of the kitty `kitty_id` of the signer of `origin`, as
    /// `set_price_outcome` says; `None` takes it off sale. An unsigned or
    /// root call fails with `BadOrigin`. On an error the storage is left as
    /// it was.
    pub fn set_price(&mut self, origin: Origin, kitty_id: [u8; 32], new_price: Option<u64>) -> (r: Result<
        (),
        DispatchError,
    >)
        requires
            old(self).wf(),
        ensures
            final(self).wf(),
            consistent(old(self)@) ==> consistent(final(self)@),
            match signer(origin) {
                None => r == Err::<(), DispatchError>(DispatchError::BadOrigin) && final(self)@ == old(self)@,
                Some(who) => match set_price_outcome(old(self)@, who, kitty_id, new_price) {
                    Ok(s) => r == Ok::<(), DispatchError>(()) && final(self)@ == s,
                    Err(e) => r == Err::<(), DispatchError>(DispatchError::Module(e)) && final(self)@
                        == old(self)@,
                },
            },
    {
        let who = match ensure_signed(origin) {
            Ok(who) => who,
            Err(e) => {
                return Err(e);
            },
        };
        let idx = match self.find_kitty(&kitty_id) {
            Some(i) => i,
            None => {
                return Err(DispatchError::Module(KittyError::NoKitty));
            },
        };
        let kitty: Kitty = self.kitties[idx].1;
        if kitty.owner != who {
            return Err(DispatchError::Module(KittyError::NotOwner));
        }
        let ghost pre = self@;
        self.replace_kitty(idx, Kitty { dna: kitty.dna, owner: kitty.owner, price: new_price });
        self.deposit_event(Event::PriceSet { owner: who, kitty_id, new_price });
        proof {
            let s = set_price_outcome(pre, who, kitty_id, new_price).unwrap();
            assert(self@.kitties == s.kitties);
            assert(self@.events == s.events);
            if consistent(pre) {
                lemma_set_price_keeps_consistency(pre, who, kitty_id, new_price);
            }
        }
        Ok(())
    }

    /// The first half of buying the kitty `kitty_id` for at most `max_price`:
    /// the checks that come before the payment, as `purchase_terms` says. An
    /// unsigned or root call fails with `BadOrigin`. On success the buyer is
    /// the signer, and the seller and the price are the kitty's owner and
    /// price; the storage is not changed either way.
    pub fn buy_kitty_quote(&self, origin: Origin, kitty_id: [u8; 32], max_price: u64) -> (r: Result<
        Purchase,
        DispatchError,
    >)
        requires
            self.wf(),
        ensures
            match signer(origin) {
                None => r == Err::<Purchase, DispatchError>(DispatchError::BadOrigin),
                Some(who) => match purchase_terms(self@, kitty_id, max_price) {
                    Ok((seller, price)) => r == Ok::<Purchase, DispatchError>(
                        Purchase { buyer: who, seller, kitty_id, price },
                    ),
                    Err(e) => r == Err::<Purchase, DispatchError>(DispatchError::Module(e)),
                },
            },
    {
        let who = match ensure_signed(origin) {
            Ok(who) => who,
            Err(e) => {
                return Err(e);
            },
        };
        let idx = match self.find_kitty(&kitty_id) {
            Some(i) => i,
            None => {
                return Err(DispatchError::Module(KittyError::NoKitty));
            },
        };
        let kitty: Kitty = self.kitties[idx].1;
        let price = match kitty.price {
            Some(p) => p,
            None => {
                return Err(DispatchError::Module(KittyError::NotForSale));
            },
        };
        if max_price < price {
            return Err(DispatchError::Module(KittyError::MaxPriceTooLow));
        }
        Ok(Purchase { buyer: who, seller: kitty.owner, kitty_id, price })
    }

    /// The second half of buying a kitty, once the currency layer has tried
    /// to move `purchase.price` from the buyer to the seller with `payment`
    /// as its outcome: a failed payment is returned as it is; after a paid
    /// one the kitty goes from the seller to the buyer as `sale_outcome`
    /// says. On an error the storage of the pallet is left as it was.
    pub fn buy_kitty_settle(&mut self, purchase: Purchase, payment: Result<(), PaymentError>) -> (r: Result<
        (),
        DispatchError,
    >)
        requires
            old(self).wf(),
        ensures
            final(self).wf(),
            consistent(old(self)@) ==> consistent(final(self)@),
            match payment {
                Err(e) => r == Err::<(), DispatchError>(DispatchError::Payment(e)) && final(self)@ == old(
                    self,
                )@,
                Ok(()) => match sale_outcome(
                    old(self)@,
                    purchase.buyer,
                    purchase.seller,
                    purchase.kitty_id,
                    purchase.price,
                ) {
                    Ok(s) => r == Ok::<(), DispatchError>(()) && final(self)@ == s,
                    Err(e) => r == Err::<(), DispatchError>(DispatchError::Module(e)) && final(self)@
                        == old(self)@,
                },
            },
    {
        match payment {
            Err(e) => {
                return Err(DispatchError::Payment(e));
            },
            Ok(()) => {},
        }
        let ghost pre = self@;
        match self.do_transfer(purchase.seller, purchase.buyer, purchase.kitty_id) {
            Ok(()) => {},
            Err(e) => {
                return Err(DispatchError::Module(e));
            },
        }
        self.deposit_event(Event::Sold { buyer: purchase.buyer, kitty_id: purchase.kitty_id, price: purchase.price });
        proof {
            if consistent(pre) {
                lemma_sale_keeps_consistency(pre, purchase.buyer, purchase.seller, purchase.kitty_id, purchase.price);
                let u = sale_outcome(pre, purchase.buyer, purchase.seller, purchase.kitty_id, purchase.price).unwrap();
                assert(self@.kitties == u.kitties);
            }
        }
        Ok(())
    }
}


impl Pallet {
    /// The kitty counter.
    pub fn count_for_kitten(&self) -> (r: u32)
        ensures
            r == self@.count,
    {
        self.count_for_kitten
    }

    /// Overwrites the kitty counter with `value`.
    pub fn set_count_for_kitten(&mut self, value: u32)
        requires
            old(self).wf(),
        ensures
            final(self).wf(),
            final(self)@ == (KittiesState { count: value, ..old(self)@ }),
    {
        self.count_for_kitten = value;
        assert(self.owned_entries() =~= old(self).owned_entries());
    }

    /// The number of the current block.
    pub fn block_number(&self) -> (r: u64)
        ensures
            r == self@.block_number,
    {
        self.block_number
    }

    /// Sets the number of the current block to `number`.
    pub fn set_block_number(&mut self, number: u64)
        requires
            old(self).wf(),
        ensures
            final(self).wf(),
            final(self)@ == (KittiesState { block_number: number, ..old(self)@ }),
    {
        self.block_number = number;
        assert(self.owned_entries() =~= old(self).owned_entries());
    }

    /// Whether a kitty is stored under `dna`.
    pub fn kitties_contains_key(&self, dna: [u8; 32]) -> (r: bool)
        requires
            self.wf(),
        ensures
            r == self@.kitties.dom().contains(dna),
    {
        self.find_kitty(&dna).is_some()
    }

    /// The kitty stored under `dna`, if any.
    pub fn kitties_get(&self, dna: [u8; 32]) -> (r: Option<Kitty>)
        requires
            self.wf(),
        ensures
            r == self@.kitties.get(dna),
    {
        match self.find_kitty(&dna) {
            Some(i) => Some(self.kitties[i].1),
            None => None,
        }
    }

    /// Stores `kitty` under `dna`, replacing what was there; the lists and
    /// the counter are not touched.
    pub fn kitties_insert(&mut self, dna: [u8; 32], kitty: Kitty)
        requires
            old(self).wf(),
        ensures
            final(self).wf(),
            final(self)@ == (KittiesState { kitties: old(self)@.kitties.insert(dna, kitty), ..old(self)@ }),
    {
        match self.find_kitty(&dna) {
            Some(i) => {
                self.replace_kitty(i, kitty);
            },
            None => {
                proof {
                    lemma_push(self.kitties@, dna, kitty);
                }
                self.kitties.push((dna, kitty));
                assert(self.owned_entries() =~= old(self).owned_entries());
            },
        }
    }

    /// Every stored kitty with its identifier, each once, in storage order.
    pub fn kitties_iter(&self) -> (r: Vec<([u8; 32], Kitty)>)
        requires
            self.wf(),
        ensures
            keys_unique(r@),
            entries_map(r@) == self@.kitties,
            r@.len() == self@.kitties.dom().len(),
    {
        let mut r: Vec<([u8; 32], Kitty)> = Vec::new();
        let mut i: usize = 0;
        while i < self.kitties.len()
            invariant
                i <= self.kitties@.len(),
                r@ == self.kitties@.subrange(0, i as int),
            decreases self.kitties@.len() - i,
        {
            let e: ([u8; 32], Kitty) = self.kitties[i];
            r.push(e);
            i += 1;
        }
        assert(r@ =~= self.kitties@);
        proof {
            lemma_len(self.kitties@);
        }
        r
    }

    /// The identifiers of the kitties of `who`, in the order of its list.
    pub fn kitties_owned_get(&self, who: u64) -> (r: Vec<[u8; 32]>)
        requires
            self.wf(),
        ensures
            r@ == self@.owned_by(who),
    {
        self.owned_list(who)
    }

    /// The last event deposited, if any.
    pub fn last_event(&self) -> (r: Option<Event>)
        ensures
            r == (if self@.events.len() > 0 {
                Some(self@.events.last())
            } else {
                None
            }),
    {
        if self.events.len() > 0 {
            Some(self.events[self.events.len() - 1])
        } else {
            None
        }
    }
}

} // verus!
