use vstd::prelude::*;

verus! {

/// How many kitties one account may own at most.
pub const MAX_KITTIES_OWNED: usize = 100;

/// A kitty: its DNA (also its identifier), its owner and, when it is for
/// sale, its price.
#[derive(Clone, Copy, Debug, PartialEq, Eq)]
pub struct Kitty {
    pub dna: [u8; 32],
    pub owner: u64,
    pub price: Option<u64>,
}

/// The errors of the pallet itself.
#[derive(Clone, Copy, Debug, PartialEq, Eq)]
pub enum KittyError {
    /// The kitty counter cannot be incremented any further.
    TooManyKitties,
    /// A kitty with this DNA already exists.
    DuplicateKitty,
    /// The account already owns the largest number of kitties allowed.
    TooManyOwned,
    /// A kitty cannot be transferred to its own owner.
    TransferToSelf,
    /// No kitty has this identifier.
    NoKitty,
    /// The caller does not own the kitty.
    NotOwner,
    /// The kitty has no price, so it cannot be bought.
    NotForSale,
    /// The buyer's maximum price is below the kitty's price.
    MaxPriceTooLow,
}

/// Why the currency layer refused to move the price of a kitty from the
/// buyer to the seller.
#[derive(Clone, Copy, Debug, PartialEq, Eq)]
pub enum PaymentError {
    /// The payer's balance is smaller than the amount.
    Underflow,
    /// The payee's balance would overflow.
    Overflow,
    /// The payer's funds are not available (held or frozen).
    FundsUnavailable,
    /// The payment would take the payer's account below what keeps it alive.
    NotExpendable,
    /// The payee's balance would stay below the minimum an account may hold.
    BelowMinimum,
    /// Any other refusal.
    Other,
}

/// The error of a dispatched call.
#[derive(Clone, Copy, Debug, PartialEq, Eq)]
pub enum DispatchError {
    /// The call needs a signed origin.
    BadOrigin,
    /// An error of the pallet.
    Module(KittyError),
    /// The payment of a purchase failed.
    Payment(PaymentError),
}

/// Who dispatched a call.
#[derive(Clone, Copy, Debug, PartialEq, Eq)]
pub enum Origin {
    /// The root (governance) origin.
    Root,
    /// A call signed by an account.
    Signed(u64),
    /// An unsigned call.
    Unsigned,
}

/// The events the pallet deposits.
#[derive(Clone, Copy, Debug, PartialEq, Eq)]
pub enum Event {
    /// A kitty was created for `owner`.
    Created { owner: u64 },
    /// A kitty changed hands.
    Transferred { from: u64, to: u64, kitty_id: [u8; 32] },
    /// The owner of a kitty set its price.
    PriceSet { owner: u64, kitty_id: [u8; 32], new_price: Option<u64> },
    /// A kitty was sold to `buyer` for `price`.
    Sold { buyer: u64, kitty_id: [u8; 32], price: u64 },
}

/// What the chain tells about the block being built when a DNA is drawn,
/// besides its number: the hash of the parent block and the index of the
/// current extrinsic within the block, if any.
#[derive(Clone, Copy, Debug, PartialEq, Eq)]
pub struct ChainContext {
    pub parent_hash: [u8; 32],
    pub extrinsic_index: Option<u32>,
}

/// The terms of a purchase that passed the pallet's checks: the buyer pays
/// `price` to `seller`, then receives the kitty `kitty_id`.
#[derive(Clone, Copy, Debug, PartialEq, Eq)]
pub struct Purchase {
    pub buyer: u64,
    pub seller: u64,
    pub kitty_id: [u8; 32],
    pub price: u64,
}

/// The account that signed a call, if it was signed.
pub open spec fn signer(origin: Origin) -> Option<u64> {
    match origin {
        Origin::Signed(who) => Some(who),
        _ => None,
    }
}

/// The account that signed a call, or `BadOrigin`.
pub fn ensure_signed(origin: Origin) -> (r: Result<u64, DispatchError>)
    ensures
        match signer(origin) {
            Some(who) => r == Ok::<u64, DispatchError>(who),
            None => r == Err::<u64, DispatchError>(DispatchError::BadOrigin),
        },
{
    match origin {
        Origin::Signed(who) => Ok(who),
        _ => Err(DispatchError::BadOrigin),
    }
}

} // verus!
