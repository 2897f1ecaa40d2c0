//! A verified model of the kitties pallet: storage of kitties keyed by their
//! DNA, the per-account lists of owned kitties, and the counter of kitties,
//! together with the dispatchable operations that change them.
pub mod dna;
pub mod laws;
pub mod pallet;
pub mod spec;
pub mod store;
pub mod types;
