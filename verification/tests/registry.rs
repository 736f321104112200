use nft_registry::nft::{BoundedBytes, Error, Event};
use nft_registry::pallet::Pallet;

const ALICE: u64 = 1;
const BOB: u64 = 2;
const CHARLIE: u64 = 3;
const DAVE: u64 = 4;

#[test]
fn mint_then_get_returns_callers_record() {
    let mut p = Pallet::new(16);
    let id = p.mint(ALICE, vec![10, 20, 30], None).unwrap();
    let rec = p.get(id).unwrap();
    assert_eq!(rec.owner, ALICE);
    assert_eq!(rec.creator, ALICE);
    assert!(!rec.frozen);
    assert_eq!(rec.delegate, None);
    assert_eq!(rec.collection, None);
    assert_eq!(rec.offchain_data.as_bytes(), &vec![10, 20, 30]);
}

#[test]
fn mint_ids_strictly_increase_even_interleaved_with_burns() {
    let mut p = Pallet::new(16);
    let a = p.mint(ALICE, vec![1], None).unwrap();
    let b = p.mint(ALICE, vec![2], None).unwrap();
    assert!(b > a);
    p.burn(ALICE, b).unwrap();
    p.burn(ALICE, a).unwrap();
    let c = p.mint(BOB, vec![3], None).unwrap();
    assert!(c > b);
    assert_eq!((a, b, c), (0, 1, 2));
}

#[test]
fn transfer_to_self_fails_regardless_of_frozen_state() {
    let mut p = Pallet::new(16);
    let id = p.mint(ALICE, vec![1], None).unwrap();
    assert_eq!(
        p.transfer(ALICE, id, ALICE),
        Err(Error::CannotTransferNFTsToYourself)
    );
    p.freeze(ALICE, id).unwrap();
    assert_eq!(
        p.transfer(ALICE, id, ALICE),
        Err(Error::CannotTransferNFTsToYourself)
    );
    let rec = p.get(id).unwrap();
    assert_eq!(rec.owner, ALICE);
    assert!(rec.frozen);
}

#[test]
fn freeze_blocks_transfer_and_thaw_restores_it() {
    let mut p = Pallet::new(16);
    let id = p.mint(ALICE, vec![1], None).unwrap();
    p.freeze(ALICE, id).unwrap();
    assert_eq!(p.transfer(ALICE, id, BOB), Err(Error::NFTIsFrozen));
    assert_eq!(p.get(id).unwrap().owner, ALICE);
    p.thaw(ALICE, id).unwrap();
    assert_eq!(p.transfer(ALICE, id, BOB), Ok(()));
    assert_eq!(p.get(id).unwrap().owner, BOB);
}

#[test]
fn freeze_blocks_burn_and_approve() {
    let mut p = Pallet::new(16);
    let id = p.mint(ALICE, vec![1], None).unwrap();
    p.freeze(ALICE, id).unwrap();
    assert_eq!(p.burn(ALICE, id), Err(Error::NFTIsFrozen));
    assert_eq!(p.approve(ALICE, id, BOB), Err(Error::NFTIsFrozen));
    assert!(p.get(id).is_some());
}

#[test]
fn approved_delegate_transfers_exactly_once() {
    let mut p = Pallet::new(16);
    let id = p.mint(ALICE, vec![1], None).unwrap();
    p.approve(ALICE, id, BOB).unwrap();
    assert_eq!(p.get(id).unwrap().delegate, Some(BOB));
    assert_eq!(p.transfer(BOB, id, CHARLIE), Ok(()));
    let rec = p.get(id).unwrap();
    assert_eq!(rec.owner, CHARLIE);
    assert_eq!(rec.delegate, None);
    assert_eq!(p.transfer(BOB, id, DAVE), Err(Error::NotTheNFTOwner));
    assert_eq!(p.get(id).unwrap().owner, CHARLIE);
}

#[test]
fn approve_replaces_earlier_grant() {
    let mut p = Pallet::new(16);
    let id = p.mint(ALICE, vec![1], None).unwrap();
    p.approve(ALICE, id, BOB).unwrap();
    p.approve(ALICE, id, CHARLIE).unwrap();
    assert_eq!(p.get(id).unwrap().delegate, Some(CHARLIE));
    assert_eq!(p.transfer(BOB, id, DAVE), Err(Error::NotTheNFTOwner));
    assert_eq!(p.transfer(CHARLIE, id, DAVE), Ok(()));
}

#[test]
fn burn_removes_record_and_retires_the_id() {
    let mut p = Pallet::new(16);
    let id = p.mint(ALICE, vec![1], None).unwrap();
    assert_eq!(p.burn(ALICE, id), Ok(()));
    assert!(p.get(id).is_none());
    assert_eq!(p.transfer(ALICE, id, BOB), Err(Error::NFTNotFound));
    assert_eq!(p.approve(ALICE, id, BOB), Err(Error::NFTNotFound));
    assert_eq!(p.freeze(ALICE, id), Err(Error::NFTNotFound));
    assert_eq!(p.thaw(ALICE, id), Err(Error::NFTNotFound));
    assert_eq!(p.burn(ALICE, id), Err(Error::NFTNotFound));
}

#[test]
fn oversized_mint_is_rejected_and_consumes_no_id() {
    let mut p = Pallet::new(4);
    let id0 = p.mint(ALICE, vec![1, 2, 3, 4], None).unwrap();
    assert_eq!(id0, 0);
    assert_eq!(p.get(id0).unwrap().owner, ALICE);
    assert_eq!(
        p.mint(ALICE, vec![1, 2, 3, 4, 5], None),
        Err(Error::OffchainDataTooLarge)
    );
    assert_eq!(p.next_nft_id(), 1);
    let id1 = p.mint(ALICE, vec![9], None).unwrap();
    assert_eq!(id1, 1);
}

#[test]
fn only_the_owner_may_mutate() {
    let mut p = Pallet::new(16);
    let id = p.mint(ALICE, vec![1], None).unwrap();
    assert_eq!(p.transfer(BOB, id, CHARLIE), Err(Error::NotTheNFTOwner));
    assert_eq!(p.approve(BOB, id, CHARLIE), Err(Error::NotTheNFTOwner));
    assert_eq!(p.freeze(BOB, id), Err(Error::NotTheNFTOwner));
    assert_eq!(p.thaw(BOB, id), Err(Error::NotTheNFTOwner));
    assert_eq!(p.burn(BOB, id), Err(Error::NotTheNFTOwner));
    let rec = p.get(id).unwrap();
    assert_eq!(rec.owner, ALICE);
    assert!(!rec.frozen);
    assert_eq!(rec.delegate, None);
}

#[test]
fn operations_on_unknown_id_fail_with_not_found() {
    let mut p = Pallet::new(16);
    assert!(p.get(42).is_none());
    assert_eq!(p.transfer(ALICE, 42, BOB), Err(Error::NFTNotFound));
    assert_eq!(p.approve(ALICE, 42, BOB), Err(Error::NFTNotFound));
    assert_eq!(p.freeze(ALICE, 42), Err(Error::NFTNotFound));
    assert_eq!(p.thaw(ALICE, 42), Err(Error::NFTNotFound));
    assert_eq!(p.burn(ALICE, 42), Err(Error::NFTNotFound));
}

#[test]
fn freeze_and_thaw_are_idempotent_for_the_owner() {
    let mut p = Pallet::new(16);
    let id = p.mint(ALICE, vec![1], None).unwrap();
    assert_eq!(p.thaw(ALICE, id), Ok(()));
    assert!(!p.get(id).unwrap().frozen);
    p.freeze(ALICE, id).unwrap();
    assert_eq!(p.freeze(ALICE, id), Ok(()));
    assert!(p.get(id).unwrap().frozen);
}

#[test]
fn collections_use_an_independent_counter() {
    let mut p = Pallet::new(16);
    let n0 = p.mint(ALICE, vec![1], None).unwrap();
    let c0 = p.create_collection(BOB);
    let c1 = p.create_collection(CHARLIE);
    assert_eq!(n0, 0);
    assert_eq!((c0, c1), (0, 1));
    assert_eq!(p.collection_owner(c0), Some(BOB));
    assert_eq!(p.collection_owner(c1), Some(CHARLIE));
    assert_eq!(p.collection_owner(2), None);
    assert_eq!(p.next_collection_id(), 2);
    assert_eq!(p.next_nft_id(), 1);
}

#[test]
fn mint_may_tag_a_collection() {
    let mut p = Pallet::new(16);
    let c = p.create_collection(ALICE);
    let id = p.mint(ALICE, vec![1], Some(c)).unwrap();
    assert_eq!(p.get(id).unwrap().collection, Some(c));
    // The engine does not validate collection existence at mint time.
    let id2 = p.mint(ALICE, vec![2], Some(99)).unwrap();
    assert_eq!(p.get(id2).unwrap().collection, Some(99));
}

#[test]
fn events_record_each_successful_mutation_in_order() {
    let mut p = Pallet::new(16);
    let id = p.mint(ALICE, vec![1], None).unwrap();
    p.freeze(ALICE, id).unwrap();
    p.thaw(ALICE, id).unwrap();
    p.approve(ALICE, id, BOB).unwrap();
    p.transfer(BOB, id, CHARLIE).unwrap();
    let c = p.create_collection(CHARLIE);
    p.burn(CHARLIE, id).unwrap();
    // A failing operation emits nothing.
    assert_eq!(p.burn(CHARLIE, id), Err(Error::NFTNotFound));
    assert_eq!(
        p.events(),
        &vec![
            Event::Minted { nft_id: id, owner: ALICE },
            Event::Frozen { nft_id: id, owner: ALICE },
            Event::Thawed { nft_id: id, owner: ALICE },
            Event::Approved { nft_id: id, owner: ALICE, delegate: BOB },
            Event::Transferred { nft_id: id, from: ALICE, to: CHARLIE },
            Event::CollectionCreated { collection_id: c, owner: CHARLIE },
            Event::Burned { nft_id: id, owner: CHARLIE },
        ]
    );
}

#[test]
fn bounded_bytes_enforces_the_limit_at_construction() {
    assert!(BoundedBytes::try_new(vec![1, 2, 3], 3).is_ok());
    assert_eq!(
        BoundedBytes::try_new(vec![1, 2, 3, 4], 3).err(),
        Some(Error::OffchainDataTooLarge)
    );
    let empty = BoundedBytes::try_new(Vec::new(), 0).unwrap();
    assert_eq!(empty.len(), 0);
    assert_eq!(
        BoundedBytes::try_new(vec![1], 0).err(),
        Some(Error::OffchainDataTooLarge)
    );
}

#[test]
fn zero_limit_registry_accepts_only_empty_data() {
    let mut p = Pallet::new(0);
    assert_eq!(p.mint(ALICE, vec![1], None), Err(Error::OffchainDataTooLarge));
    assert_eq!(p.next_nft_id(), 0);
    let id = p.mint(ALICE, Vec::new(), None).unwrap();
    assert_eq!(id, 0);
    assert_eq!(p.get(id).unwrap().offchain_data.len(), 0);
    assert_eq!(p.offchain_data_limit(), 0);
}
