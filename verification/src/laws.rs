use vstd::prelude::*;
use crate::spec::{
    consistent, first_position, is_first_position, mint_outcome, swap_remove, transfer_outcome,
    purchase_terms, sale_outcome, set_price_outcome, KittiesState,
};
use crate::dna::{dna_payload, le_bytes, option_u32_bytes};
use crate::types::{Event, Kitty, KittyError, MAX_KITTIES_OWNED};

verus! {

/// Removing by `swap_remove` the element at `i` of a sequence without
/// duplicates leaves exactly the other elements, still without duplicates.
pub proof fn lemma_swap_remove(s: Seq<[u8; 32]>, i: int)
    requires
        s.no_duplicates(),
        0 <= i < s.len(),
    ensures
        swap_remove(s, i).len() == s.len() - 1,
        swap_remove(s, i).no_duplicates(),
        forall|y: [u8; 32]| #[trigger] swap_remove(s, i).contains(y) <==> (s.contains(y) && y != s[i]),
{
    let t = swap_remove(s, i);
    let n = s.len() - 1;
    assert forall|a: int| 0 <= a < t.len() implies #[trigger] t[a] == (if a == i { s[n] } else { s[a] }) by {}
    assert forall|a: int, b: int| 0 <= a < t.len() && 0 <= b < t.len() && a != b implies t[a] != t[b] by {
        let ia = if a == i { n } else { a };
        let ib = if b == i { n } else { b };
        assert(t[a] == s[ia]);
        assert(t[b] == s[ib]);
    }
    assert forall|y: [u8; 32]| #[trigger] t.contains(y) <==> (s.contains(y) && y != s[i]) by {
        if t.contains(y) {
            let a = choose|a: int| 0 <= a < t.len() && t[a] == y;
            let ia = if a == i { n } else { a };
            assert(s[ia] == y);
        }
        if s.contains(y) && y != s[i] {
            let b = choose|b: int| 0 <= b < s.len() && s[b] == y;
            if b == n {
                assert(t[i] == y);
            } else {
                assert(t[b] == y);
            }
        }
    }
}

/// Minting keeps the storage consistent.
pub proof fn lemma_mint_keeps_consistency(s: KittiesState, owner: u64, dna: [u8; 32])
    requires
        consistent(s),
        mint_outcome(s, owner, dna) is Ok,
    ensures
        consistent(mint_outcome(s, owner, dna).unwrap()),
{
    let t = mint_outcome(s, owner, dna).unwrap();
    let old_list = s.owned_by(owner);
    let new_list = old_list.push(dna);
    assert(t.owned_by(owner) == new_list);
    assert(!old_list.contains(dna)) by {
        if old_list.contains(dna) {
            let i = choose|i: int| 0 <= i < old_list.len() && old_list[i] == dna;
            assert(s.kitties.dom().contains(s.owned_by(owner)[i]));
        }
    }
    assert(t.kitties.dom() == s.kitties.dom().insert(dna));
    assert forall|id: [u8; 32]| #[trigger] t.kitties.dom().contains(id) implies t.kitties[id].dna == id
        && t.owned_by(t.kitties[id].owner).contains(id) by {
        if id == dna {
            assert(new_list[new_list.len() - 1] == dna);
        } else {
            let b = s.kitties[id].owner;
            assert(s.owned_by(b).contains(id));
            if b == owner {
                let j = choose|j: int| 0 <= j < old_list.len() && old_list[j] == id;
                assert(new_list[j] == id);
            }
        }
    }
    assert forall|a: u64, i: int| 0 <= i < t.owned_by(a).len() implies t.kitties.dom().contains(
        #[trigger] t.owned_by(a)[i],
    ) && t.kitties[t.owned_by(a)[i]].owner == a by {
        if a == owner {
            if i < old_list.len() {
                assert(new_list[i] == s.owned_by(a)[i]);
                assert(s.kitties.dom().contains(s.owned_by(a)[i]));
            }
        } else {
            assert(s.kitties.dom().contains(s.owned_by(a)[i]));
        }
    }
    assert forall|a: u64| #[trigger] t.owned_by(a).no_duplicates() by {
        if a == owner {
            assert(s.owned_by(owner).no_duplicates());
            assert forall|x: int, y: int| 0 <= x < new_list.len() && 0 <= y < new_list.len() && x != y
                implies new_list[x] != new_list[y] by {
                if x == old_list.len() {
                    assert(old_list[y] != dna);
                } else if y == old_list.len() {
                    assert(old_list[x] != dna);
                }
            }
        } else {
            assert(s.owned_by(a).no_duplicates());
        }
    }
    assert forall|a: u64| #[trigger] t.owned_by(a).len() <= MAX_KITTIES_OWNED by {
        assert(s.owned_by(a).len() <= MAX_KITTIES_OWNED);
    }
}


/// Transferring keeps the storage consistent.
pub proof fn lemma_transfer_keeps_consistency(s: KittiesState, from: u64, to: u64, kitty_id: [u8; 32])
    requires
        consistent(s),
        transfer_outcome(s, from, to, kitty_id) is Ok,
    ensures
        consistent(transfer_outcome(s, from, to, kitty_id).unwrap()),
{
    let t = transfer_outcome(s, from, to, kitty_id).unwrap();
    let lf = s.owned_by(from);
    let lt = s.owned_by(to);
    let i = first_position(lf, kitty_id).unwrap();
    assert(is_first_position(lf, kitty_id, i)) by {
        assert(exists|c: int| is_first_position(lf, kitty_id, c));
    }
    let nf = swap_remove(lf, i);
    let nt = lt.push(kitty_id);
    assert(lf.no_duplicates());
    assert(lt.no_duplicates());
    lemma_swap_remove(lf, i);
    assert(t.owned_by(from) == nf);
    assert(t.owned_by(to) == nt);
    assert(!lt.contains(kitty_id)) by {
        if lt.contains(kitty_id) {
            let j = choose|j: int| 0 <= j < lt.len() && lt[j] == kitty_id;
            assert(s.kitties[s.owned_by(to)[j]].owner == to);
        }
    }
    assert(t.kitties.dom() =~= s.kitties.dom());
    assert forall|id: [u8; 32]| #[trigger] t.kitties.dom().contains(id) implies t.kitties[id].dna == id
        && t.owned_by(t.kitties[id].owner).contains(id) by {
        if id == kitty_id {
            assert(nt[nt.len() - 1] == kitty_id);
        } else {
            let b = s.kitties[id].owner;
            assert(s.owned_by(b).contains(id));
            if b == to {
                let j = choose|j: int| 0 <= j < lt.len() && lt[j] == id;
                assert(nt[j] == id);
            } else if b == from {
                assert(nf.contains(id));
            }
        }
    }
    assert forall|a: u64, j: int| 0 <= j < t.owned_by(a).len() implies t.kitties.dom().contains(
        #[trigger] t.owned_by(a)[j],
    ) && t.kitties[t.owned_by(a)[j]].owner == a by {
        if a == to {
            if j < lt.len() {
                assert(nt[j] == s.owned_by(a)[j]);
                assert(s.kitties.dom().contains(s.owned_by(a)[j]));
                assert(s.owned_by(a)[j] != kitty_id);
            }
        } else if a == from {
            let y = nf[j];
            assert(nf.contains(y));
            assert(lf.contains(y) && y != kitty_id);
            let m = choose|m: int| 0 <= m < lf.len() && lf[m] == y;
            assert(s.kitties.dom().contains(s.owned_by(a)[m]));
        } else {
            assert(s.kitties.dom().contains(s.owned_by(a)[j]));
            if s.owned_by(a)[j] == kitty_id {
                assert(s.kitties[s.owned_by(a)[j]].owner == a);
            }
        }
    }
    assert forall|a: u64| #[trigger] t.owned_by(a).no_duplicates() by {
        if a == to {
            assert forall|x: int, y: int| 0 <= x < nt.len() && 0 <= y < nt.len() && x != y
                implies nt[x] != nt[y] by {
                if x == lt.len() {
                    assert(lt[y] != kitty_id);
                } else if y == lt.len() {
                    assert(lt[x] != kitty_id);
                }
            }
        } else if a != from {
            assert(s.owned_by(a).no_duplicates());
        }
    }
    assert forall|a: u64| #[trigger] t.owned_by(a).len() <= MAX_KITTIES_OWNED by {
        assert(s.owned_by(a).len() <= MAX_KITTIES_OWNED);
    }
}


/// The empty storage at genesis is consistent.
pub proof fn lemma_genesis_consistent(s: KittiesState)
    requires
        s.kitties == Map::<[u8; 32], Kitty>::empty(),
        s.owned == Map::<u64, Seq<[u8; 32]>>::empty(),
        s.count == 0,
    ensures
        consistent(s),
{
    assert(s.kitties.dom() =~= Set::<[u8; 32]>::empty());
}

/// Setting a price keeps the storage consistent.
pub proof fn lemma_set_price_keeps_consistency(
    s: KittiesState,
    caller: u64,
    kitty_id: [u8; 32],
    new_price: Option<u64>,
)
    requires
        consistent(s),
        set_price_outcome(s, caller, kitty_id, new_price) is Ok,
    ensures
        consistent(set_price_outcome(s, caller, kitty_id, new_price).unwrap()),
{
    let t = set_price_outcome(s, caller, kitty_id, new_price).unwrap();
    assert(t.kitties.dom() =~= s.kitties.dom());
    assert forall|a: u64| #[trigger] t.owned_by(a) == s.owned_by(a) by {}
    assert forall|id: [u8; 32]| #[trigger] t.kitties.dom().contains(id) implies t.kitties[id].dna == id
        && t.owned_by(t.kitties[id].owner).contains(id) by {
        assert(s.owned_by(s.kitties[id].owner).contains(id));
    }
    assert forall|a: u64, j: int| 0 <= j < t.owned_by(a).len() implies t.kitties.dom().contains(
        #[trigger] t.owned_by(a)[j],
    ) && t.kitties[t.owned_by(a)[j]].owner == a by {
        assert(s.kitties.dom().contains(s.owned_by(a)[j]));
    }
    assert forall|a: u64| #[trigger] t.owned_by(a).no_duplicates() by {
        assert(s.owned_by(a).no_duplicates());
    }
    assert forall|a: u64| #[trigger] t.owned_by(a).len() <= MAX_KITTIES_OWNED by {
        assert(s.owned_by(a).len() <= MAX_KITTIES_OWNED);
    }
}

/// Completing a paid purchase keeps the storage consistent.
pub proof fn lemma_sale_keeps_consistency(
    s: KittiesState,
    buyer: u64,
    seller: u64,
    kitty_id: [u8; 32],
    price: u64,
)
    requires
        consistent(s),
        sale_outcome(s, buyer, seller, kitty_id, price) is Ok,
    ensures
        consistent(sale_outcome(s, buyer, seller, kitty_id, price).unwrap()),
{
    lemma_transfer_keeps_consistency(s, seller, buyer, kitty_id);
    let t = transfer_outcome(s, seller, buyer, kitty_id).unwrap();
    let u = sale_outcome(s, buyer, seller, kitty_id, price).unwrap();
    assert forall|a: u64| #[trigger] u.owned_by(a) == t.owned_by(a) by {}
}

/// In consistent storage a kitty is listed by one account only.
pub proof fn lemma_single_owner(s: KittiesState, a: u64, b: u64, kitty_id: [u8; 32])
    requires
        consistent(s),
        s.owned_by(a).contains(kitty_id),
        s.owned_by(b).contains(kitty_id),
    ensures
        a == b,
        s.kitties.dom().contains(kitty_id),
        s.kitties[kitty_id].owner == a,
{
    let i = choose|i: int| 0 <= i < s.owned_by(a).len() && s.owned_by(a)[i] == kitty_id;
    let j = choose|j: int| 0 <= j < s.owned_by(b).len() && s.owned_by(b)[j] == kitty_id;
    assert(s.kitties[s.owned_by(a)[i]].owner == a);
    assert(s.kitties[s.owned_by(b)[j]].owner == b);
}

/// In consistent storage a transfer fails only when the accounts are the
/// same, the kitty does not exist, the sender does not own it, or the
/// receiver owns the most kitties allowed.
pub proof fn lemma_transfer_succeeds(s: KittiesState, from: u64, to: u64, kitty_id: [u8; 32])
    requires
        consistent(s),
    ensures
        transfer_outcome(s, from, to, kitty_id) is Ok <==> (from != to && s.kitties.dom().contains(kitty_id)
            && s.kitties[kitty_id].owner == from && s.owned_by(to).len() < MAX_KITTIES_OWNED),
{
    if from != to && s.kitties.dom().contains(kitty_id) && s.kitties[kitty_id].owner == from
        && s.owned_by(to).len() < MAX_KITTIES_OWNED {
        let lf = s.owned_by(from);
        assert(lf.contains(kitty_id));
        let m = choose|m: int| 0 <= m < lf.len() && lf[m] == kitty_id;
        assert(lf.no_duplicates());
        assert(is_first_position(lf, kitty_id, m));
    }
}

/// A transfer keeps the set of kitties and the counter, gives the kitty to
/// the receiver without a price, and leaves every other kitty as it was.
pub proof fn lemma_transfer_moves_one_kitty(s: KittiesState, from: u64, to: u64, kitty_id: [u8; 32])
    requires
        transfer_outcome(s, from, to, kitty_id) is Ok,
    ensures
        ({
            let t = transfer_outcome(s, from, to, kitty_id).unwrap();
            &&& t.kitties.dom() == s.kitties.dom()
            &&& t.count == s.count
            &&& t.kitties[kitty_id] == (Kitty { dna: s.kitties[kitty_id].dna, owner: to, price: None })
            &&& forall|id: [u8; 32]| id != kitty_id ==> #[trigger] t.kitties.get(id) == s.kitties.get(id)
        }),
{
    let t = transfer_outcome(s, from, to, kitty_id).unwrap();
    assert(t.kitties.dom() =~= s.kitties.dom());
}

/// Buying goes through with the terms that the quote gave: once the price
/// is paid, the buyer owns the kitty, it is off sale, the price paid is the
/// price the seller set and at most what the buyer offered, in every block;
/// the kitty leaves the seller's list for the buyer's; and, outside the
/// genesis block, `Sold` is the last event.
pub proof fn lemma_purchase(s: KittiesState, buyer: u64, kitty_id: [u8; 32], max_price: u64)
    requires
        consistent(s),
        purchase_terms(s, kitty_id, max_price) is Ok,
        buyer != s.kitties[kitty_id].owner,
        s.owned_by(buyer).len() < MAX_KITTIES_OWNED,
    ensures
        ({
            let (seller, price) = purchase_terms(s, kitty_id, max_price).unwrap();
            &&& seller == s.kitties[kitty_id].owner
            &&& s.kitties[kitty_id].price == Some(price)
            &&& price <= max_price
            &&& sale_outcome(s, buyer, seller, kitty_id, price) is Ok
            &&& sale_outcome(s, buyer, seller, kitty_id, price).unwrap().kitties[kitty_id].owner == buyer
            &&& sale_outcome(s, buyer, seller, kitty_id, price).unwrap().kitties[kitty_id].price is None
            &&& sale_outcome(s, buyer, seller, kitty_id, price).unwrap().owned_by(buyer).contains(kitty_id)
            &&& !sale_outcome(s, buyer, seller, kitty_id, price).unwrap().owned_by(seller).contains(kitty_id)
            &&& s.block_number != 0 ==> sale_outcome(s, buyer, seller, kitty_id, price).unwrap().events.last()
                == (Event::Sold { buyer, kitty_id, price })
        }),
{
    let (seller, price) = purchase_terms(s, kitty_id, max_price).unwrap();
    lemma_transfer_succeeds(s, seller, buyer, kitty_id);
    lemma_sale_keeps_consistency(s, buyer, seller, kitty_id, price);
    let u = sale_outcome(s, buyer, seller, kitty_id, price).unwrap();
    assert(u.kitties.dom().contains(kitty_id));
    assert(u.owned_by(buyer).contains(kitty_id));
    if u.owned_by(seller).contains(kitty_id) {
        lemma_single_owner(u, seller, buyer, kitty_id);
    }
}

/// Setting a price puts the kitty on sale at that price: a buyer offering at
/// least that much is quoted the owner and that price.
pub proof fn lemma_price_is_quoted(s: KittiesState, owner: u64, kitty_id: [u8; 32], price: u64, max_price: u64)
    requires
        set_price_outcome(s, owner, kitty_id, Some(price)) is Ok,
        price <= max_price,
    ensures
        purchase_terms(set_price_outcome(s, owner, kitty_id, Some(price)).unwrap(), kitty_id, max_price)
            == Ok::<(u64, u64), KittyError>((owner, price)),
{
}

/// Taking a kitty off sale makes every purchase of it fail with `NotForSale`.
pub proof fn lemma_off_sale_not_bought(s: KittiesState, owner: u64, kitty_id: [u8; 32], max_price: u64)
    requires
        set_price_outcome(s, owner, kitty_id, None) is Ok,
    ensures
        purchase_terms(set_price_outcome(s, owner, kitty_id, None).unwrap(), kitty_id, max_price)
            == Err::<(u64, u64), KittyError>(KittyError::NotForSale),
{
}


/// Transferring a kitty back undoes a transfer: in consistent storage, after
/// `from` gives the kitty to `to` and `to` gives it back, the kitties are as
/// before except that this one is off sale, the receiver's list is exactly
/// as before, every list holds the same kitties as before, and the counter
/// is unchanged.
pub proof fn lemma_transfer_back(s: KittiesState, from: u64, to: u64, kitty_id: [u8; 32])
    requires
        consistent(s),
        transfer_outcome(s, from, to, kitty_id) is Ok,
    ensures
        transfer_outcome(transfer_outcome(s, from, to, kitty_id).unwrap(), to, from, kitty_id) is Ok,
        ({
            let u = transfer_outcome(transfer_outcome(s, from, to, kitty_id).unwrap(), to, from, kitty_id).unwrap();
            &&& u.kitties == s.kitties.insert(
                kitty_id,
                Kitty { dna: s.kitties[kitty_id].dna, owner: from, price: None },
            )
            &&& u.owned_by(to) == s.owned_by(to)
            &&& forall|x: u64| #[trigger] u.owned_by(x).to_set() == s.owned_by(x).to_set()
            &&& u.count == s.count
        }),
{
    let t = transfer_outcome(s, from, to, kitty_id).unwrap();
    lemma_transfer_keeps_consistency(s, from, to, kitty_id);
    lemma_transfer_succeeds(t, to, from, kitty_id);
    assert(t.owned_by(from).len() == s.owned_by(from).len() - 1) by {
        let i = first_position(s.owned_by(from), kitty_id).unwrap();
        assert(is_first_position(s.owned_by(from), kitty_id, i)) by {
            assert(exists|c: int| is_first_position(s.owned_by(from), kitty_id, c));
        }
        assert(s.owned_by(from).no_duplicates());
        lemma_swap_remove(s.owned_by(from), i);
    }
    assert(s.owned_by(from).len() <= MAX_KITTIES_OWNED);
    let u = transfer_outcome(t, to, from, kitty_id).unwrap();
    let lf = s.owned_by(from);
    let lt = s.owned_by(to);
    let i = first_position(lf, kitty_id).unwrap();
    assert(is_first_position(lf, kitty_id, i)) by {
        assert(exists|c: int| is_first_position(lf, kitty_id, c));
    }
    assert(lf.no_duplicates());
    lemma_swap_remove(lf, i);
    assert(!lt.contains(kitty_id)) by {
        if lt.contains(kitty_id) {
            let j = choose|j: int| 0 <= j < lt.len() && lt[j] == kitty_id;
            assert(s.kitties[s.owned_by(to)[j]].owner == to);
        }
    }
    let nt = lt.push(kitty_id);
    assert(t.owned_by(to) == nt);
    let k = first_position(nt, kitty_id).unwrap();
    assert(is_first_position(nt, kitty_id, k)) by {
        assert(exists|c: int| is_first_position(nt, kitty_id, c));
    }
    assert(k == lt.len()) by {
        if k < lt.len() {
            assert(lt[k] == kitty_id);
        }
    }
    assert(u.owned_by(to) =~= lt);
    let nf = swap_remove(lf, i);
    assert(u.owned_by(from) == nf.push(kitty_id));
    assert(u.owned_by(from).to_set() =~= lf.to_set()) by {
        assert forall|y: [u8; 32]| #[trigger] lf.to_set().contains(y) implies u.owned_by(from).to_set().contains(y) by {
            if y == kitty_id {
                assert(nf.push(kitty_id)[nf.len() as int] == y);
            } else {
                assert(lf.contains(y));
                assert(nf.contains(y));
                let m = choose|m: int| 0 <= m < nf.len() && nf[m] == y;
                assert(nf.push(kitty_id)[m] == y);
            }
        }
        assert forall|y: [u8; 32]| #[trigger] u.owned_by(from).to_set().contains(y) implies lf.to_set().contains(y) by {
            assert(u.owned_by(from).contains(y));
            let m = choose|m: int| 0 <= m < nf.len() + 1 && nf.push(kitty_id)[m] == y;
            if m < nf.len() {
                assert(nf.contains(y));
            } else {
                assert(lf[i] == y);
            }
        }
    }
    assert forall|x: u64| #[trigger] u.owned_by(x).to_set() == s.owned_by(x).to_set() by {
        if x != from && x != to {
            assert(u.owned_by(x) == s.owned_by(x));
        }
    }
    assert(u.kitties =~= s.kitties.insert(kitty_id, Kitty { dna: s.kitties[kitty_id].dna, owner: from, price: None }));
}


/// `256` to the power `n`.
pub open spec fn pow256(n: nat) -> nat
    decreases n,
{
    if n == 0 {
        1
    } else {
        256 * pow256((n - 1) as nat)
    }
}

/// Numbers below `256^n` have different `n`-byte little-endian encodings
/// when they differ.
pub proof fn lemma_le_bytes_injective(x: nat, y: nat, n: nat)
    requires
        x < pow256(n),
        y < pow256(n),
        le_bytes(x, n) == le_bytes(y, n),
    ensures
        x == y,
    decreases n,
{
    if n > 0 {
        let m = (n - 1) as nat;
        let bx = seq![(x % 256) as u8];
        let by = seq![(y % 256) as u8];
        assert(le_bytes(x, n) == bx + le_bytes(x / 256, m));
        assert(le_bytes(y, n) == by + le_bytes(y / 256, m));
        assert((bx + le_bytes(x / 256, m))[0] == bx[0]);
        assert((by + le_bytes(y / 256, m))[0] == by[0]);
        assert(((x % 256) as u8) == ((y % 256) as u8));
        assert(x % 256 == y % 256);
        assert(le_bytes(x / 256, m) =~= le_bytes(x, n).drop_first());
        assert(le_bytes(y / 256, m) =~= le_bytes(y, n).drop_first());
        assert(x / 256 < pow256(m));
        assert(y / 256 < pow256(m));
        lemma_le_bytes_injective(x / 256, y / 256, m);
    }
}

/// The bytes that a DNA is hashed from differ whenever the kitty counter
/// differs, the chain context being the same: successive kitties are drawn
/// from different inputs to the hash.
pub proof fn lemma_payload_differs_with_count(
    parent_hash: [u8; 32],
    block_number: u64,
    extrinsic_index: Option<u32>,
    count1: u32,
    count2: u32,
)
    requires
        count1 != count2,
    ensures
        dna_payload(parent_hash, block_number, extrinsic_index, count1) != dna_payload(
            parent_hash,
            block_number,
            extrinsic_index,
            count2,
        ),
{
    let prefix = parent_hash@ + le_bytes(block_number as nat, 8) + option_u32_bytes(extrinsic_index);
    let p1 = dna_payload(parent_hash, block_number, extrinsic_index, count1);
    let p2 = dna_payload(parent_hash, block_number, extrinsic_index, count2);
    assert(p1 == prefix + le_bytes(count1 as nat, 4));
    assert(p2 == prefix + le_bytes(count2 as nat, 4));
    lemma_le_bytes_len(count1 as nat, 4);
    lemma_le_bytes_len(count2 as nat, 4);
    if p1 == p2 {
        let n = prefix.len() as int;
        assert(p1.subrange(n, n + 4) =~= le_bytes(count1 as nat, 4));
        assert(p2.subrange(n, n + 4) =~= le_bytes(count2 as nat, 4));
        assert(pow256(4) == 0x1_0000_0000) by {
            reveal_with_fuel(pow256, 5);
        }
        lemma_le_bytes_injective(count1 as nat, count2 as nat, 4);
    }
}

/// An `n`-byte little-endian encoding has `n` bytes.
pub proof fn lemma_le_bytes_len(x: nat, n: nat)
    ensures
        le_bytes(x, n).len() == n,
    decreases n,
{
    if n > 0 {
        lemma_le_bytes_len(x / 256, (n - 1) as nat);
    }
}


/// The owner of a kitty may always set its price, whether or not it is on
/// sale already, and only the owner may: setting succeeds exactly when the
/// kitty exists and the caller owns it. The kitty then keeps its DNA and
/// owner and has the new price; every other kitty, every list, the counter
/// and the block number are unchanged.
pub proof fn lemma_set_price_by_owner(s: KittiesState, caller: u64, kitty_id: [u8; 32], new_price: Option<u64>)
    ensures
        set_price_outcome(s, caller, kitty_id, new_price) is Ok <==> (s.kitties.dom().contains(kitty_id)
            && s.kitties[kitty_id].owner == caller),
        set_price_outcome(s, caller, kitty_id, new_price) is Ok ==> ({
            let t = set_price_outcome(s, caller, kitty_id, new_price).unwrap();
            &&& t.kitties.dom() == s.kitties.dom()
            &&& t.kitties[kitty_id] == (Kitty { dna: s.kitties[kitty_id].dna, owner: caller, price: new_price })
            &&& forall|id: [u8; 32]| id != kitty_id ==> #[trigger] t.kitties.get(id) == s.kitties.get(id)
            &&& t.owned == s.owned
            &&& t.count == s.count
            &&& t.block_number == s.block_number
        }),
{
    if set_price_outcome(s, caller, kitty_id, new_price) is Ok {
        let t = set_price_outcome(s, caller, kitty_id, new_price).unwrap();
        assert(t.kitties.dom() =~= s.kitties.dom());
    }
}

/// Minting succeeds exactly when the DNA is unused, the counter can grow and
/// the owner has room. A minted kitty carries its DNA, belongs to the owner
/// and is not on sale, whatever the owner held before; it is appended to the
/// owner's list, the counter grows by one, and every other kitty and every
/// other account's list are unchanged.
pub proof fn lemma_mint_new_kitty(s: KittiesState, owner: u64, dna: [u8; 32])
    ensures
        mint_outcome(s, owner, dna) is Ok <==> (!s.kitties.dom().contains(dna) && s.count < u32::MAX
            && s.owned_by(owner).len() < MAX_KITTIES_OWNED),
        mint_outcome(s, owner, dna) is Ok ==> ({
            let t = mint_outcome(s, owner, dna).unwrap();
            &&& t.kitties.dom() == s.kitties.dom().insert(dna)
            &&& t.kitties[dna] == (Kitty { dna, owner, price: None })
            &&& forall|id: [u8; 32]| id != dna ==> #[trigger] t.kitties.get(id) == s.kitties.get(id)
            &&& t.owned_by(owner) == s.owned_by(owner).push(dna)
            &&& forall|a: u64| a != owner ==> #[trigger] t.owned_by(a) == s.owned_by(a)
            &&& t.count == s.count + 1
            &&& t.block_number == s.block_number
        }),
{
    if mint_outcome(s, owner, dna) is Ok {
        let t = mint_outcome(s, owner, dna).unwrap();
        assert(t.kitties.dom() =~= s.kitties.dom().insert(dna));
    }
}

/// The terms of a purchase depend on the kitty alone: it is quoted exactly
/// when it exists, has a price and that price is at most the buyer's
/// maximum, and then the seller is its owner and the price is its price.
pub proof fn lemma_purchase_terms_by_price(s: KittiesState, kitty_id: [u8; 32], max_price: u64)
    ensures
        purchase_terms(s, kitty_id, max_price) is Ok <==> (s.kitties.dom().contains(kitty_id)
            && s.kitties[kitty_id].price is Some && s.kitties[kitty_id].price.unwrap() <= max_price),
        purchase_terms(s, kitty_id, max_price) is Ok ==> purchase_terms(s, kitty_id, max_price).unwrap() == (
        s.kitties[kitty_id].owner, s.kitties[kitty_id].price.unwrap()),
{
}

/// What a call does to the kitties, the lists and the counter, and whether
/// it succeeds, depends on those alone: neither the events recorded so far
/// nor the block number change it.
pub proof fn lemma_history_is_irrelevant(
    s1: KittiesState,
    s2: KittiesState,
    who: u64,
    other: u64,
    kitty_id: [u8; 32],
    new_price: Option<u64>,
    price: u64,
    max_price: u64,
)
    requires
        s1.kitties == s2.kitties,
        s1.owned == s2.owned,
        s1.count == s2.count,
    ensures
        purchase_terms(s1, kitty_id, max_price) == purchase_terms(s2, kitty_id, max_price),
        (mint_outcome(s1, who, kitty_id) is Ok) == (mint_outcome(s2, who, kitty_id) is Ok),
        mint_outcome(s1, who, kitty_id) is Ok ==> same_storage(
            mint_outcome(s1, who, kitty_id).unwrap(),
            mint_outcome(s2, who, kitty_id).unwrap(),
        ),
        mint_outcome(s1, who, kitty_id) is Err ==> mint_outcome(s1, who, kitty_id) == mint_outcome(s2, who, kitty_id),
        (transfer_outcome(s1, who, other, kitty_id) is Ok) == (transfer_outcome(s2, who, other, kitty_id) is Ok),
        transfer_outcome(s1, who, other, kitty_id) is Ok ==> same_storage(
            transfer_outcome(s1, who, other, kitty_id).unwrap(),
            transfer_outcome(s2, who, other, kitty_id).unwrap(),
        ),
        transfer_outcome(s1, who, other, kitty_id) is Err ==> transfer_outcome(s1, who, other, kitty_id)
            == transfer_outcome(s2, who, other, kitty_id),
        (set_price_outcome(s1, who, kitty_id, new_price) is Ok) == (set_price_outcome(s2, who, kitty_id, new_price) is Ok),
        set_price_outcome(s1, who, kitty_id, new_price) is Ok ==> same_storage(
            set_price_outcome(s1, who, kitty_id, new_price).unwrap(),
            set_price_outcome(s2, who, kitty_id, new_price).unwrap(),
        ),
        set_price_outcome(s1, who, kitty_id, new_price) is Err ==> set_price_outcome(s1, who, kitty_id, new_price)
            == set_price_outcome(s2, who, kitty_id, new_price),
        (sale_outcome(s1, who, other, kitty_id, price) is Ok) == (sale_outcome(s2, who, other, kitty_id, price) is Ok),
        sale_outcome(s1, who, other, kitty_id, price) is Ok ==> same_storage(
            sale_outcome(s1, who, other, kitty_id, price).unwrap(),
            sale_outcome(s2, who, other, kitty_id, price).unwrap(),
        ),
        sale_outcome(s1, who, other, kitty_id, price) is Err ==> sale_outcome(s1, who, other, kitty_id, price)
            == sale_outcome(s2, who, other, kitty_id, price),
{
    assert forall|a: u64| #[trigger] s1.owned_by(a) == s2.owned_by(a) by {}
}

/// Two states hold the same kitties, lists and counter.
pub open spec fn same_storage(s1: KittiesState, s2: KittiesState) -> bool {
    &&& s1.kitties == s2.kitties
    &&& s1.owned == s2.owned
    &&& s1.count == s2.count
}


/// In consistent storage a transfer appends the kitty to the receiver's
/// list, removes it from the sender's list, which keeps all its other
/// kitties and shrinks by one, and leaves every other account's list as it
/// was.
pub proof fn lemma_transfer_lists(s: KittiesState, from: u64, to: u64, kitty_id: [u8; 32])
    requires
        consistent(s),
        transfer_outcome(s, from, to, kitty_id) is Ok,
    ensures
        ({
            let t = transfer_outcome(s, from, to, kitty_id).unwrap();
            &&& t.owned_by(to) == s.owned_by(to).push(kitty_id)
            &&& t.owned_by(from).len() + 1 == s.owned_by(from).len()
            &&& forall|id: [u8; 32]| #[trigger] t.owned_by(from).contains(id) <==> (s.owned_by(from).contains(id)
                && id != kitty_id)
            &&& forall|a: u64| a != from && a != to ==> #[trigger] t.owned_by(a) == s.owned_by(a)
        }),
{
    let lf = s.owned_by(from);
    let i = first_position(lf, kitty_id).unwrap();
    assert(is_first_position(lf, kitty_id, i)) by {
        assert(exists|c: int| is_first_position(lf, kitty_id, c));
    }
    assert(lf.no_duplicates());
    lemma_swap_remove(lf, i);
}

/// Outside the genesis block each successful call records exactly its own
/// event after the earlier ones: `Created` with the owner, `Transferred`
/// with both accounts and the kitty, `PriceSet` with the owner, kitty and
/// price, and, for a sale, `Transferred` then `Sold` with the buyer, kitty
/// and price. In the genesis block no event is recorded.
pub proof fn lemma_events_recorded(
    s: KittiesState,
    who: u64,
    other: u64,
    kitty_id: [u8; 32],
    new_price: Option<u64>,
    price: u64,
)
    ensures
        mint_outcome(s, who, kitty_id) is Ok ==> mint_outcome(s, who, kitty_id).unwrap().events == (if s.block_number
            == 0 {
            s.events
        } else {
            s.events.push(Event::Created { owner: who })
        }),
        transfer_outcome(s, who, other, kitty_id) is Ok ==> transfer_outcome(s, who, other, kitty_id).unwrap().events
            == (if s.block_number == 0 {
            s.events
        } else {
            s.events.push(Event::Transferred { from: who, to: other, kitty_id })
        }),
        set_price_outcome(s, who, kitty_id, new_price) is Ok ==> set_price_outcome(
            s,
            who,
            kitty_id,
            new_price,
        ).unwrap().events == (if s.block_number == 0 {
            s.events
        } else {
            s.events.push(Event::PriceSet { owner: who, kitty_id, new_price })
        }),
        sale_outcome(s, who, other, kitty_id, price) is Ok ==> sale_outcome(s, who, other, kitty_id, price).unwrap().events
            == (if s.block_number == 0 {
            s.events
        } else {
            s.events.push(Event::Transferred { from: other, to: who, kitty_id }).push(
                Event::Sold { buyer: who, kitty_id, price },
            )
        }),
{
}

/// Why calls fail, in the order the checks are made: minting a used DNA is a
/// duplicate, then a full counter and a full owner are refused; a transfer
/// to oneself is refused first, then one of a missing kitty, then one by an
/// account that does not own the kitty, then one to a full account; setting
/// a price of a missing kitty, or of someone else's, is refused; a purchase
/// of a missing kitty, of a kitty not on sale, or above the buyer's maximum
/// is refused.
pub proof fn lemma_error_reasons(
    s: KittiesState,
    who: u64,
    other: u64,
    kitty_id: [u8; 32],
    new_price: Option<u64>,
    max_price: u64,
)
    ensures
        s.kitties.dom().contains(kitty_id) ==> mint_outcome(s, who, kitty_id) == Err::<KittiesState, KittyError>(
            KittyError::DuplicateKitty,
        ),
        !s.kitties.dom().contains(kitty_id) && s.count == u32::MAX ==> mint_outcome(s, who, kitty_id) == Err::<
            KittiesState,
            KittyError,
        >(KittyError::TooManyKitties),
        !s.kitties.dom().contains(kitty_id) && s.count < u32::MAX && s.owned_by(who).len() >= MAX_KITTIES_OWNED
            ==> mint_outcome(s, who, kitty_id) == Err::<KittiesState, KittyError>(KittyError::TooManyOwned),
        who == other ==> transfer_outcome(s, who, other, kitty_id) == Err::<KittiesState, KittyError>(
            KittyError::TransferToSelf,
        ),
        who != other && !s.kitties.dom().contains(kitty_id) ==> transfer_outcome(s, who, other, kitty_id) == Err::<
            KittiesState,
            KittyError,
        >(KittyError::NoKitty),
        who != other && s.kitties.dom().contains(kitty_id) && s.kitties[kitty_id].owner != who ==> transfer_outcome(
            s,
            who,
            other,
            kitty_id,
        ) == Err::<KittiesState, KittyError>(KittyError::NotOwner),
        who != other && s.kitties.dom().contains(kitty_id) && s.kitties[kitty_id].owner == who && s.owned_by(
            other,
        ).len() >= MAX_KITTIES_OWNED ==> transfer_outcome(s, who, other, kitty_id) == Err::<KittiesState, KittyError>(
            KittyError::TooManyOwned,
        ),
        !s.kitties.dom().contains(kitty_id) ==> set_price_outcome(s, who, kitty_id, new_price) == Err::<
            KittiesState,
            KittyError,
        >(KittyError::NoKitty),
        s.kitties.dom().contains(kitty_id) && s.kitties[kitty_id].owner != who ==> set_price_outcome(
            s,
            who,
            kitty_id,
            new_price,
        ) == Err::<KittiesState, KittyError>(KittyError::NotOwner),
        !s.kitties.dom().contains(kitty_id) ==> purchase_terms(s, kitty_id, max_price) == Err::<(u64, u64), KittyError>(
            KittyError::NoKitty,
        ),
        s.kitties.dom().contains(kitty_id) && s.kitties[kitty_id].price is None ==> purchase_terms(s, kitty_id, max_price)
            == Err::<(u64, u64), KittyError>(KittyError::NotForSale),
        s.kitties.dom().contains(kitty_id) && s.kitties[kitty_id].price is Some && max_price < s.kitties[kitty_id].price.unwrap()
            ==> purchase_terms(s, kitty_id, max_price) == Err::<(u64, u64), KittyError>(KittyError::MaxPriceTooLow),
{
}

} // verus!
