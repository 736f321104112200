//! Laws of the registry that relate several operations, proved once and for
//! all over the transition functions of [`crate::pallet`]. Each executable
//! operation's contract says that its outcome equals the corresponding
//! transition function, so these laws hold of every call sequence.

use vstd::prelude::*;

use crate::nft::{AccountId, CollectionId, Error, NFTId};
use crate::pallet::{
    approve_spec, burn_spec, create_collection_spec, freeze_spec, mint_spec, thaw_spec,
    transfer_spec, wf, PalletView,
};

verus! {

/// No operation ever lowers the NFT allocator counter, and only mint raises
/// it: the allocator never rewinds, whatever is interleaved.
pub proof fn lemma_allocator_never_rewinds(
    pre: PalletView,
    caller: AccountId,
    nft_id: NFTId,
    account: AccountId,
    data: Seq<u8>,
    collection: Option<CollectionId>,
)
    requires
        pre.next_nft_id < u32::MAX,
    ensures
        mint_spec(pre, caller, data, collection).0.next_nft_id >= pre.next_nft_id,
        burn_spec(pre, caller, nft_id).0.next_nft_id == pre.next_nft_id,
        transfer_spec(pre, caller, nft_id, account).0.next_nft_id == pre.next_nft_id,
        approve_spec(pre, caller, nft_id, account).0.next_nft_id == pre.next_nft_id,
        freeze_spec(pre, caller, nft_id).0.next_nft_id == pre.next_nft_id,
        thaw_spec(pre, caller, nft_id).0.next_nft_id == pre.next_nft_id,
        create_collection_spec(pre, caller).0.next_nft_id == pre.next_nft_id,
{
}

/// Minted ids strictly increase across any interleaving of operations: a mint
/// returns the allocator counter and advances it, no operation ever lowers
/// the counter, so a later mint returns a strictly larger id.
pub proof fn lemma_minted_ids_strictly_increase(
    pre1: PalletView,
    caller1: AccountId,
    data1: Seq<u8>,
    col1: Option<CollectionId>,
    pre2: PalletView,
    caller2: AccountId,
    data2: Seq<u8>,
    col2: Option<CollectionId>,
)
    requires
        pre1.next_nft_id < u32::MAX,
        mint_spec(pre1, caller1, data1, col1).1 is Ok,
        pre2.next_nft_id >= mint_spec(pre1, caller1, data1, col1).0.next_nft_id,
        mint_spec(pre2, caller2, data2, col2).1 is Ok,
    ensures
        mint_spec(pre2, caller2, data2, col2).1->Ok_0
            > mint_spec(pre1, caller1, data1, col1).1->Ok_0,
{
}

/// A minted id never repeats an id already in the store: in a well-formed
/// state every stored id is below the counter, and mint returns the counter.
pub proof fn lemma_minted_id_is_fresh(
    pre: PalletView,
    caller: AccountId,
    data: Seq<u8>,
    collection: Option<CollectionId>,
)
    requires
        wf(pre),
        mint_spec(pre, caller, data, collection).1 is Ok,
    ensures
        !pre.nfts.dom().contains(mint_spec(pre, caller, data, collection).1->Ok_0),
{
}

/// A successful mint stores, under the returned id, a record whose owner and
/// creator are both the caller, not frozen and with no delegate; an immediate
/// lookup of that id therefore returns exactly this record.
pub proof fn lemma_mint_stores_callers_record(
    pre: PalletView,
    caller: AccountId,
    data: Seq<u8>,
    collection: Option<CollectionId>,
)
    requires
        data.len() <= pre.limit as nat,
    ensures
        ({
            let (post, res) = mint_spec(pre, caller, data, collection);
            &&& res is Ok
            &&& post.nfts.dom().contains(res->Ok_0)
            &&& post.nfts[res->Ok_0].owner == caller
            &&& post.nfts[res->Ok_0].creator == caller
            &&& post.nfts[res->Ok_0].offchain_data == data
            &&& post.nfts[res->Ok_0].collection == collection
            &&& post.nfts[res->Ok_0].frozen == false
            &&& post.nfts[res->Ok_0].delegate is None
        }),
{
}

/// A transfer whose recipient is the current owner always fails with
/// `CannotTransferNFTsToYourself` and changes nothing, whatever the frozen
/// state and whatever delegate is outstanding.
pub proof fn lemma_transfer_to_self_fails(pre: PalletView, caller: AccountId, nft_id: NFTId)
    requires
        pre.nfts.dom().contains(nft_id),
        caller == pre.nfts[nft_id].owner,
    ensures
        transfer_spec(pre, caller, nft_id, caller).0 == pre,
        transfer_spec(pre, caller, nft_id, caller).1
            == Err::<(), Error>(Error::CannotTransferNFTsToYourself),
{
}

/// Freezing blocks transfer: after the owner freezes, the same transfer that
/// would have succeeded fails with `NFTIsFrozen` and ownership is unchanged;
/// after the owner thaws again, that transfer succeeds and moves ownership.
pub proof fn lemma_freeze_blocks_transfer_thaw_restores(
    pre: PalletView,
    owner: AccountId,
    nft_id: NFTId,
    other: AccountId,
)
    requires
        pre.nfts.dom().contains(nft_id),
        owner == pre.nfts[nft_id].owner,
        other != owner,
    ensures
        ({
            let (frozen, r1) = freeze_spec(pre, owner, nft_id);
            let (s2, r2) = transfer_spec(frozen, owner, nft_id, other);
            let (thawed, r3) = thaw_spec(s2, owner, nft_id);
            let (s4, r4) = transfer_spec(thawed, owner, nft_id, other);
            &&& r1 is Ok
            &&& r2 == Err::<(), Error>(Error::NFTIsFrozen)
            &&& s2 == frozen
            &&& s2.nfts[nft_id].owner == owner
            &&& r3 is Ok
            &&& r4 is Ok
            &&& s4.nfts[nft_id].owner == other
        }),
{
}

/// An approved delegate may transfer once: the transfer succeeds and clears
/// the grant, so a second transfer by the same delegate fails with
/// `NotTheNFTOwner`, whoever the second recipient would be.
pub proof fn lemma_delegate_transfers_exactly_once(
    pre: PalletView,
    owner: AccountId,
    nft_id: NFTId,
    delegate: AccountId,
    recipient: AccountId,
    recipient2: AccountId,
)
    requires
        pre.nfts.dom().contains(nft_id),
        owner == pre.nfts[nft_id].owner,
        !pre.nfts[nft_id].frozen,
        recipient != owner,
        delegate != recipient,
    ensures
        ({
            let (approved, r1) = approve_spec(pre, owner, nft_id, delegate);
            let (moved, r2) = transfer_spec(approved, delegate, nft_id, recipient);
            let (s3, r3) = transfer_spec(moved, delegate, nft_id, recipient2);
            &&& r1 is Ok
            &&& approved.nfts[nft_id].delegate == Some(delegate)
            &&& r2 is Ok
            &&& moved.nfts[nft_id].owner == recipient
            &&& moved.nfts[nft_id].delegate is None
            &&& r3 == Err::<(), Error>(Error::NotTheNFTOwner)
            &&& s3 == moved
        }),
{
}

/// Burning removes the record, and every later operation aimed at the burned
/// id fails with `NFTNotFound` and changes nothing.
pub proof fn lemma_burn_retires_the_id(
    pre: PalletView,
    owner: AccountId,
    nft_id: NFTId,
    caller: AccountId,
    account: AccountId,
)
    requires
        pre.nfts.dom().contains(nft_id),
        owner == pre.nfts[nft_id].owner,
        !pre.nfts[nft_id].frozen,
    ensures
        ({
            let (post, res) = burn_spec(pre, owner, nft_id);
            &&& res is Ok
            &&& !post.nfts.dom().contains(nft_id)
            &&& transfer_spec(post, caller, nft_id, account)
                == (post, Err::<(), Error>(Error::NFTNotFound))
            &&& approve_spec(post, caller, nft_id, account)
                == (post, Err::<(), Error>(Error::NFTNotFound))
            &&& freeze_spec(post, caller, nft_id)
                == (post, Err::<(), Error>(Error::NFTNotFound))
            &&& thaw_spec(post, caller, nft_id)
                == (post, Err::<(), Error>(Error::NFTNotFound))
            &&& burn_spec(post, caller, nft_id)
                == (post, Err::<(), Error>(Error::NFTNotFound))
        }),
{
}

/// Oversized offchain data is rejected before anything happens: the state is
/// untouched, and in particular no NFT id is consumed, so the id the next
/// mint returns is unaffected by the failed attempt.
pub proof fn lemma_oversized_mint_consumes_no_id(
    pre: PalletView,
    caller: AccountId,
    data: Seq<u8>,
    collection: Option<CollectionId>,
)
    requires
        data.len() > pre.limit as nat,
    ensures
        mint_spec(pre, caller, data, collection).0 == pre,
        mint_spec(pre, caller, data, collection).1
            == Err::<NFTId, Error>(Error::OffchainDataTooLarge),
{
}

} // verus!
