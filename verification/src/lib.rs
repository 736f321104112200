//! An NFT registry: a ledger that tracks ownership, transfer, delegation,
//! freezing and lifecycle of uniquely identified asset records, plus grouping
//! of records into collections.
//!
//! The host execution environment authenticates a caller and invokes one
//! operation (mint, burn, transfer, approve, create_collection, freeze, thaw)
//! on the [`pallet::Pallet`]; each operation either fully applies its mutation
//! or fails with an [`nft::Error`] and leaves the state unchanged.

pub mod laws;
pub mod nft;
pub mod pallet;
