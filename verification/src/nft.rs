//! Core data model: identifiers, errors, events, the bounded offchain-data
//! buffer, and the NFT record itself.

use vstd::prelude::*;

verus! {

/// Identifier of an NFT record. Allocated strictly increasing starting at 0
/// and never reused, even after the record is burned.
pub type NFTId = u32;

/// Identifier of a collection. Allocated strictly increasing starting at 0,
/// by a counter independent of the NFT counter.
pub type CollectionId = u32;

/// An authenticated account identity, supplied by the host environment and
/// treated as opaque by the registry.
pub type AccountId = u64;

/// The caller-visible error kinds. Every failing operation returns one of
/// these and leaves the registry unchanged.
#[derive(Clone, Copy, PartialEq, Eq, Structural, Debug)]
pub enum Error {
    /// The referenced NFT id has no record.
    NFTNotFound,
    /// The caller lacks the required authorization for the action.
    NotTheNFTOwner,
    /// A transfer's recipient equals the NFT's current owner.
    CannotTransferNFTsToYourself,
    /// The record is frozen, which blocks transfer, approval change and burn.
    NFTIsFrozen,
    /// Offchain data exceeds the configured length limit.
    OffchainDataTooLarge,
}

/// Notifications emitted after each successful mutation, decoupled from the
/// operation's return value.
#[derive(Clone, Copy, PartialEq, Eq, Structural, Debug)]
pub enum Event {
    Minted { nft_id: NFTId, owner: AccountId },
    Burned { nft_id: NFTId, owner: AccountId },
    Transferred { nft_id: NFTId, from: AccountId, to: AccountId },
    Approved { nft_id: NFTId, owner: AccountId, delegate: AccountId },
    Frozen { nft_id: NFTId, owner: AccountId },
    Thawed { nft_id: NFTId, owner: AccountId },
    CollectionCreated { collection_id: CollectionId, owner: AccountId },
}

/// A byte sequence whose maximum length is enforced at construction time.
pub struct BoundedBytes {
    bytes: Vec<u8>,
}

impl View for BoundedBytes {
    type V = Seq<u8>;

    closed spec fn view(&self) -> Seq<u8> {
        self.bytes@
    }
}

impl BoundedBytes {
    /// Accepts `bytes` exactly when its length is at most `limit`; rejects
    /// longer input with `OffchainDataTooLarge` before any state is touched.
    pub fn try_new(bytes: Vec<u8>, limit: u32) -> (r: Result<BoundedBytes, Error>)
        ensures
            r is Ok <==> bytes@.len() <= limit,
            r is Ok ==> r->Ok_0@ == bytes@,
            r is Err ==> r->Err_0 == Error::OffchainDataTooLarge,
    {
        if bytes.len() <= limit as usize {
            Ok(BoundedBytes { bytes })
        } else {
            Err(Error::OffchainDataTooLarge)
        }
    }

    /// The number of bytes held.
    pub fn len(&self) -> (n: usize)
        ensures
            n == self@.len(),
    {
        self.bytes.len()
    }

    /// Read access to the bytes held.
    pub fn as_bytes(&self) -> (r: &Vec<u8>)
        ensures
            r@ == self@,
    {
        &self.bytes
    }
}

/// The stored record of one NFT.
pub struct NFTData {
    /// Current controlling account.
    pub owner: AccountId,
    /// Original minter; immutable after creation.
    pub creator: AccountId,
    /// Opaque bounded byte blob; immutable after mint.
    pub offchain_data: BoundedBytes,
    /// Collection tag set at mint time, if any; immutable thereafter.
    pub collection: Option<CollectionId>,
    /// While true, transfer, approval change and burn are blocked.
    pub frozen: bool,
    /// Single outstanding transfer-approval grant; cleared on any ownership
    /// change.
    pub delegate: Option<AccountId>,
}

/// The mathematical value of an [`NFTData`] record.
#[verifier::ext_equal]
pub ghost struct NFTView {
    pub owner: AccountId,
    pub creator: AccountId,
    pub offchain_data: Seq<u8>,
    pub collection: Option<CollectionId>,
    pub frozen: bool,
    pub delegate: Option<AccountId>,
}

impl View for NFTData {
    type V = NFTView;

    open spec fn view(&self) -> NFTView {
        NFTView {
            owner: self.owner,
            creator: self.creator,
            offchain_data: self.offchain_data@,
            collection: self.collection,
            frozen: self.frozen,
            delegate: self.delegate,
        }
    }
}

} // verus!
