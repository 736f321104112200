//! The registry itself: the id allocators, the record store, and the
//! ownership & authorization engine, together with the transition functions
//! that give each operation its meaning.

use vstd::prelude::*;

use crate::nft::{AccountId, BoundedBytes, CollectionId, Error, Event, NFTData, NFTId, NFTView};

verus! {

/// The mathematical value of the whole registry.
#[verifier::ext_equal]
pub ghost struct PalletView {
    /// Configured maximum offchain-data length.
    pub limit: u32,
    /// Next NFT id to be allocated; also the number of ids handed out so far.
    pub next_nft_id: NFTId,
    /// Next collection id to be allocated.
    pub next_collection_id: CollectionId,
    /// The record store for NFTs.
    pub nfts: Map<NFTId, NFTView>,
    /// The record store for collections, as a map from id to owner.
    pub collections: Map<CollectionId, AccountId>,
    /// All events emitted so far, oldest first.
    pub events: Seq<Event>,
}

/// Well-formedness of a registry state: every stored id was allocated before
/// the corresponding counter reached its current value (so a fresh id can
/// never collide with a stored one), and every stored blob respects the limit.
pub open spec fn wf(v: PalletView) -> bool {
    &&& (forall|id: NFTId| #[trigger] v.nfts.dom().contains(id) ==> id < v.next_nft_id)
    &&& (forall|id: NFTId| #[trigger] v.nfts.dom().contains(id)
            ==> v.nfts[id].offchain_data.len() <= v.limit as nat)
    &&& (forall|id: CollectionId| #[trigger] v.collections.dom().contains(id)
            ==> id < v.next_collection_id)
}

/// The record stored by a successful `mint`.
pub open spec fn minted_record(
    caller: AccountId,
    offchain_data: Seq<u8>,
    collection: Option<CollectionId>,
) -> NFTView {
    NFTView {
        owner: caller,
        creator: caller,
        offchain_data: offchain_data,
        collection: collection,
        frozen: false,
        delegate: None,
    }
}

/// Meaning of `mint`: reject oversized data without touching anything (in
/// particular without consuming an id); otherwise allocate the next id and
/// store a fresh record owned and created by the caller.
pub open spec fn mint_spec(
    pre: PalletView,
    caller: AccountId,
    offchain_data: Seq<u8>,
    collection: Option<CollectionId>,
) -> (PalletView, Result<NFTId, Error>) {
    if offchain_data.len() > pre.limit as nat {
        (pre, Err(Error::OffchainDataTooLarge))
    } else {
        let id = pre.next_nft_id;
        let post = PalletView {
            next_nft_id: (id + 1) as NFTId,
            nfts: pre.nfts.insert(id, minted_record(caller, offchain_data, collection)),
            events: pre.events.push(Event::Minted { nft_id: id, owner: caller }),
            ..pre
        };
        (post, Ok(id))
    }
}

/// Meaning of `transfer`: the record must exist, the caller must be its owner
/// or its delegate, the recipient must differ from the current owner (checked
/// before the frozen flag, so a self-transfer fails the same way frozen or
/// not), and the record must not be frozen; then ownership moves to the
/// recipient and any delegate grant is cleared.
pub open spec fn transfer_spec(
    pre: PalletView,
    caller: AccountId,
    nft_id: NFTId,
    recipient: AccountId,
) -> (PalletView, Result<(), Error>) {
    if !pre.nfts.dom().contains(nft_id) {
        (pre, Err(Error::NFTNotFound))
    } else {
        let rec = pre.nfts[nft_id];
        if caller != rec.owner && Some(caller) != rec.delegate {
            (pre, Err(Error::NotTheNFTOwner))
        } else if recipient == rec.owner {
            (pre, Err(Error::CannotTransferNFTsToYourself))
        } else if rec.frozen {
            (pre, Err(Error::NFTIsFrozen))
        } else {
            let post = PalletView {
                nfts: pre.nfts.insert(
                    nft_id,
                    NFTView { owner: recipient, delegate: None, ..rec },
                ),
                events: pre.events.push(
                    Event::Transferred { nft_id, from: rec.owner, to: recipient },
                ),
                ..pre
            };
            (post, Ok(()))
        }
    }
}

/// Meaning of `burn`: the record must exist, the caller must be its owner and
/// the record must not be frozen; then the record is removed and its id is
/// retired (the allocator never rewinds).
pub open spec fn burn_spec(
    pre: PalletView,
    caller: AccountId,
    nft_id: NFTId,
) -> (PalletView, Result<(), Error>) {
    if !pre.nfts.dom().contains(nft_id) {
        (pre, Err(Error::NFTNotFound))
    } else {
        let rec = pre.nfts[nft_id];
        if caller != rec.owner {
            (pre, Err(Error::NotTheNFTOwner))
        } else if rec.frozen {
            (pre, Err(Error::NFTIsFrozen))
        } else {
            let post = PalletView {
                nfts: pre.nfts.remove(nft_id),
                events: pre.events.push(Event::Burned { nft_id, owner: rec.owner }),
                ..pre
            };
            (post, Ok(()))
        }
    }
}

/// Meaning of `approve`: the record must exist, the caller must be its owner
/// and the record must not be frozen (no approval change out of the frozen
/// state); then the delegate grant is set to the given account.
pub open spec fn approve_spec(
    pre: PalletView,
    caller: AccountId,
    nft_id: NFTId,
    delegate: AccountId,
) -> (PalletView, Result<(), Error>) {
    if !pre.nfts.dom().contains(nft_id) {
        (pre, Err(Error::NFTNotFound))
    } else {
        let rec = pre.nfts[nft_id];
        if caller != rec.owner {
            (pre, Err(Error::NotTheNFTOwner))
        } else if rec.frozen {
            (pre, Err(Error::NFTIsFrozen))
        } else {
            let post = PalletView {
                nfts: pre.nfts.insert(nft_id, NFTView { delegate: Some(delegate), ..rec }),
                events: pre.events.push(
                    Event::Approved { nft_id, owner: rec.owner, delegate },
                ),
                ..pre
            };
            (post, Ok(()))
        }
    }
}

/// Meaning of `freeze`: the record must exist and the caller must be its
/// owner; then the frozen flag is set.
pub open spec fn freeze_spec(
    pre: PalletView,
    caller: AccountId,
    nft_id: NFTId,
) -> (PalletView, Result<(), Error>) {
    if !pre.nfts.dom().contains(nft_id) {
        (pre, Err(Error::NFTNotFound))
    } else {
        let rec = pre.nfts[nft_id];
        if caller != rec.owner {
            (pre, Err(Error::NotTheNFTOwner))
        } else {
            let post = PalletView {
                nfts: pre.nfts.insert(nft_id, NFTView { frozen: true, ..rec }),
                events: pre.events.push(Event::Frozen { nft_id, owner: rec.owner }),
                ..pre
            };
            (post, Ok(()))
        }
    }
}

/// Meaning of `thaw`: the record must exist and the caller must be its owner;
/// then the frozen flag is cleared.
pub open spec fn thaw_spec(
    pre: PalletView,
    caller: AccountId,
    nft_id: NFTId,
) -> (PalletView, Result<(), Error>) {
    if !pre.nfts.dom().contains(nft_id) {
        (pre, Err(Error::NFTNotFound))
    } else {
        let rec = pre.nfts[nft_id];
        if caller != rec.owner {
            (pre, Err(Error::NotTheNFTOwner))
        } else {
            let post = PalletView {
                nfts: pre.nfts.insert(nft_id, NFTView { frozen: false, ..rec }),
                events: pre.events.push(Event::Thawed { nft_id, owner: rec.owner }),
                ..pre
            };
            (post, Ok(()))
        }
    }
}

/// Meaning of `create_collection`: allocate the next collection id and record
/// the caller as the collection's owner.
pub open spec fn create_collection_spec(
    pre: PalletView,
    caller: AccountId,
) -> (PalletView, CollectionId) {
    let id = pre.next_collection_id;
    let post = PalletView {
        next_collection_id: (id + 1) as CollectionId,
        collections: pre.collections.insert(id, caller),
        events: pre.events.push(Event::CollectionCreated { collection_id: id, owner: caller }),
        ..pre
    };
    (post, id)
}

/// The registry. All state lives here and is mutated only through the
/// operations below; each operation performs all of its precondition checks
/// before any mutation, so a failing call leaves the state unchanged.
pub struct Pallet {
    limit: u32,
    next_nft: NFTId,
    next_collection: CollectionId,
    nfts: Vec<(NFTId, NFTData)>,
    collection_owners: Vec<AccountId>,
    events: Vec<Event>,
}

/// The map held by an association list of NFT records.
spec fn nft_map_of(s: Seq<(NFTId, NFTData)>) -> Map<NFTId, NFTView>
    decreases s.len(),
{
    if s.len() == 0 {
        Map::empty()
    } else {
        nft_map_of(s.drop_last()).insert(s.last().0, s.last().1@)
    }
}

/// No NFT id occurs twice in the association list.
spec fn distinct_keys(s: Seq<(NFTId, NFTData)>) -> bool {
    forall|i: int, j: int| 0 <= i < j < s.len() ==> (#[trigger] s[i]).0 != (#[trigger] s[j]).0
}

/// A key occurs in the association list exactly when the map it holds
/// contains that key.
proof fn lemma_map_of_dom(s: Seq<(NFTId, NFTData)>, id: NFTId)
    ensures
        nft_map_of(s).dom().contains(id) <==> exists|i: int| 0 <= i < s.len() && (#[trigger] s[i]).0 == id,
    decreases s.len(),
{
    if s.len() > 0 {
        lemma_map_of_dom(s.drop_last(), id);
        if s.last().0 == id {
            assert(s[s.len() - 1].0 == id);
        } else if nft_map_of(s).dom().contains(id) {
            let i = choose|i: int| 0 <= i < s.drop_last().len() && (#[trigger] s.drop_last()[i]).0 == id;
            assert(s[i].0 == id);
        } else {
            assert forall|i: int| 0 <= i < s.len() implies (#[trigger] s[i]).0 != id by {
                if i < s.len() - 1 {
                    assert(s.drop_last()[i] == s[i]);
                }
            }
        }
    }
}

/// With distinct keys, the map holds at each listed key the record stored at
/// its index.
proof fn lemma_map_of_index(s: Seq<(NFTId, NFTData)>, i: int)
    requires
        distinct_keys(s),
        0 <= i < s.len(),
    ensures
        nft_map_of(s).dom().contains(s[i].0),
        nft_map_of(s)[s[i].0] == s[i].1@,
    decreases s.len(),
{
    if i < s.len() - 1 {
        assert(distinct_keys(s.drop_last()));
        assert(s.drop_last()[i] == s[i]);
        lemma_map_of_index(s.drop_last(), i);
        assert(s.last().0 != s[i].0);
    }
}

/// Appending an entry inserts its record into the held map.
proof fn lemma_map_of_push(s: Seq<(NFTId, NFTData)>, e: (NFTId, NFTData))
    ensures
        nft_map_of(s.push(e)) == nft_map_of(s).insert(e.0, e.1@),
{
    assert(s.push(e).drop_last() =~= s);
    assert(s.push(e).last() == e);
}

/// Removing the entry at an index removes its key from the held map, and
/// keeps the remaining keys distinct.
proof fn lemma_map_of_remove(s: Seq<(NFTId, NFTData)>, i: int)
    requires
        distinct_keys(s),
        0 <= i < s.len(),
    ensures
        nft_map_of(s.remove(i)) == nft_map_of(s).remove(s[i].0),
        distinct_keys(s.remove(i)),
    decreases s.len(),
{
    let k = s[i].0;
    assert forall|a: int, b: int| 0 <= a < b < s.remove(i).len()
        implies (#[trigger] s.remove(i)[a]).0 != (#[trigger] s.remove(i)[b]).0 by {
        let a0: int = if a < i { a } else { a + 1 };
        let b0: int = if b < i { b } else { b + 1 };
        assert(s.remove(i)[a] == s[a0]);
        assert(s.remove(i)[b] == s[b0]);
    }
    if i == s.len() - 1 {
        assert(s.remove(i) =~= s.drop_last());
        lemma_map_of_dom(s.drop_last(), k);
        assert forall|j: int| 0 <= j < s.drop_last().len()
            implies (#[trigger] s.drop_last()[j]).0 != k by {
            assert(s.drop_last()[j] == s[j]);
        }
        assert(!nft_map_of(s.drop_last()).dom().contains(k));
        assert(nft_map_of(s).remove(k) =~= nft_map_of(s.drop_last()));
    } else {
        let dl = s.drop_last();
        assert(distinct_keys(dl));
        assert(dl[i] == s[i]);
        lemma_map_of_remove(dl, i);
        assert(s.remove(i) =~= dl.remove(i).push(s.last()));
        lemma_map_of_push(dl.remove(i), s.last());
        assert(s.last().0 != k);
        assert(nft_map_of(dl).remove(k).insert(s.last().0, s.last().1@)
            =~= nft_map_of(dl).insert(s.last().0, s.last().1@).remove(k));
    }
}

/// Taking the entry at an index out and appending a replacement with the same
/// key and the same offchain data updates that key's record in the held map,
/// keeps the keys distinct, and keeps every listed key and blob one of those
/// already listed.
proof fn lemma_reinsert(s: Seq<(NFTId, NFTData)>, i: int, e: (NFTId, NFTData))
    requires
        distinct_keys(s),
        0 <= i < s.len(),
        e.0 == s[i].0,
        e.1.offchain_data@ == s[i].1.offchain_data@,
    ensures
        distinct_keys(s.remove(i).push(e)),
        nft_map_of(s.remove(i).push(e)) == nft_map_of(s).insert(e.0, e.1@),
        forall|j: int| 0 <= j < s.remove(i).push(e).len()
            ==> exists|j0: int| 0 <= j0 < s.len()
                && (#[trigger] s.remove(i).push(e)[j]).0 == s[j0].0
                && s.remove(i).push(e)[j].1.offchain_data@ == s[j0].1.offchain_data@,
{
    let k = s[i].0;
    let t = s.remove(i).push(e);
    lemma_map_of_remove(s, i);
    lemma_map_of_push(s.remove(i), e);
    assert(nft_map_of(s).remove(k).insert(e.0, e.1@) =~= nft_map_of(s).insert(e.0, e.1@));
    assert forall|a: int, b: int| 0 <= a < b < t.len()
        implies (#[trigger] t[a]).0 != (#[trigger] t[b]).0 by {
        if b < t.len() - 1 {
            assert(t[a] == s.remove(i)[a]);
            assert(t[b] == s.remove(i)[b]);
        } else {
            let a0: int = if a < i { a } else { a + 1 };
            assert(t[a] == s.remove(i)[a]);
            assert(s.remove(i)[a] == s[a0]);
        }
    }
    assert forall|j: int| 0 <= j < t.len()
        implies exists|j0: int| 0 <= j0 < s.len()
            && (#[trigger] t[j]).0 == s[j0].0
            && t[j].1.offchain_data@ == s[j0].1.offchain_data@ by {
        if j < t.len() - 1 {
            let j0: int = if j < i { j } else { j + 1 };
            assert(t[j] == s.remove(i)[j]);
            assert(s.remove(i)[j] == s[j0]);
            assert((#[trigger] t[j]).0 == s[j0].0
                && t[j].1.offchain_data@ == s[j0].1.offchain_data@);
        } else {
            assert(t[j] == e);
            assert(t[j].0 == s[i].0 && t[j].1.offchain_data@ == s[i].1.offchain_data@);
        }
    }
}

impl View for Pallet {
    type V = PalletView;

    closed spec fn view(&self) -> PalletView {
        PalletView {
            limit: self.limit,
            next_nft_id: self.next_nft,
            next_collection_id: self.next_collection,
            nfts: nft_map_of(self.nfts@),
            collections: Map::new(
                |id: CollectionId| (id as int) < self.collection_owners@.len(),
                |id: CollectionId| self.collection_owners@[id as int],
            ),
            events: self.events@,
        }
    }
}

impl Pallet {
    /// Validity of the registry's representation. Constructors establish it
    /// and every operation preserves it.
    pub closed spec fn inv(&self) -> bool {
        &&& distinct_keys(self.nfts@)
        &&& (forall|j: int| 0 <= j < self.nfts@.len()
                ==> (#[trigger] self.nfts@[j]).0 < self.next_nft)
        &&& (forall|j: int| 0 <= j < self.nfts@.len()
                ==> (#[trigger] self.nfts@[j]).1.offchain_data@.len() <= self.limit as nat)
        &&& self.collection_owners@.len() == self.next_collection as int
    }

    /// An empty registry. The maximum offchain-data length is configured
    /// here, once, at construction.
    pub fn new(offchain_data_limit: u32) -> (p: Pallet)
        ensures
            p.inv(),
            wf(p@),
            p@ == (PalletView {
                limit: offchain_data_limit,
                next_nft_id: 0,
                next_collection_id: 0,
                nfts: Map::empty(),
                collections: Map::empty(),
                events: Seq::empty(),
            }),
    {
        let p = Pallet {
            limit: offchain_data_limit,
            next_nft: 0,
            next_collection: 0,
            nfts: Vec::new(),
            collection_owners: Vec::new(),
            events: Vec::new(),
        };
        proof {
            assert(p@.collections =~= Map::empty());
            assert(p@ =~= (PalletView {
                limit: offchain_data_limit,
                next_nft_id: 0,
                next_collection_id: 0,
                nfts: Map::empty(),
                collections: Map::empty(),
                events: Seq::empty(),
            }));
        }
        p
    }

    /// A valid representation always views to a well-formed state.
    proof fn lemma_inv_wf(&self)
        requires
            self.inv(),
        ensures
            wf(self@),
    {
        assert forall|id: NFTId| #[trigger] self@.nfts.dom().contains(id)
            implies id < self@.next_nft_id
                && self@.nfts[id].offchain_data.len() <= self@.limit as nat by {
            lemma_map_of_dom(self.nfts@, id);
            let i = choose|i: int| 0 <= i < self.nfts@.len() && (#[trigger] self.nfts@[i]).0 == id;
            lemma_map_of_index(self.nfts@, i);
        }
    }

    /// Looks a record up by id; `None` exactly when no record has that id.
    fn find_nft(&self, nft_id: NFTId) -> (r: Option<usize>)
        ensures
            (match r {
                Some(i) => i < self.nfts@.len() && self.nfts@[i as int].0 == nft_id,
                None => forall|j: int| 0 <= j < self.nfts@.len()
                    ==> (#[trigger] self.nfts@[j]).0 != nft_id,
            }),
    {
        let mut i: usize = 0;
        while i < self.nfts.len()
            invariant
                i <= self.nfts@.len(),
                forall|j: int| 0 <= j < i ==> (#[trigger] self.nfts@[j]).0 != nft_id,
            decreases self.nfts@.len() - i,
        {
            if self.nfts[i].0 == nft_id {
                return Some(i);
            }
            i = i + 1;
        }
        None
    }

    /// Reads the record stored under `nft_id`, if any. Lookups like this are
    /// the only way records are read; there is no secondary index.
    pub fn get(&self, nft_id: NFTId) -> (r: Option<&NFTData>)
        requires
            self.inv(),
        ensures
            (match r {
                Some(d) => self@.nfts.dom().contains(nft_id) && d@ == self@.nfts[nft_id],
                None => !self@.nfts.dom().contains(nft_id),
            }),
    {
        let idx = self.find_nft(nft_id);
        proof {
            lemma_map_of_dom(self.nfts@, nft_id);
        }
        match idx {
            Some(i) => {
                proof {
                    lemma_map_of_index(self.nfts@, i as int);
                }
                Some(&self.nfts[i].1)
            },
            None => None,
        }
    }

    /// Reads the owner of the collection stored under `collection_id`, if any.
    pub fn collection_owner(&self, collection_id: CollectionId) -> (r: Option<AccountId>)
        ensures
            (match r {
                Some(a) => self@.collections.dom().contains(collection_id)
                    && a == self@.collections[collection_id],
                None => !self@.collections.dom().contains(collection_id),
            }),
    {
        if (collection_id as usize) < self.collection_owners.len() {
            Some(self.collection_owners[collection_id as usize])
        } else {
            None
        }
    }

    /// Mint a new NFT holding the provided offchain data, optionally tagged
    /// with a collection id (whose existence or ownership this engine does not
    /// validate). A fresh id is allocated only after the data passes the
    /// length check; the caller becomes owner and creator of the new record.
    ///
    /// Allocator overflow would be an unrecoverable id-space exhaustion, so a
    /// state in which an id would be allocated at the counter's maximum is
    /// excluded rather than handled.
    pub fn mint(
        &mut self,
        caller: AccountId,
        offchain_data: Vec<u8>,
        collection: Option<CollectionId>,
    ) -> (r: Result<NFTId, Error>)
        requires
            old(self).inv(),
            offchain_data@.len() <= old(self)@.limit as nat
                ==> old(self)@.next_nft_id < u32::MAX,
        ensures
            final(self).inv(),
            wf(final(self)@),
            ({
                let (post, res) = mint_spec(old(self)@, caller, offchain_data@, collection);
                final(self)@ == post && r == res
            }),
    {
        let ghost pre = self@;
        let ghost data = offchain_data@;
        let bounded = match BoundedBytes::try_new(offchain_data, self.limit) {
            Ok(b) => b,
            Err(e) => {
                proof {
                    self.lemma_inv_wf();
                }
                return Err(e);
            },
        };
        let nft_id = self.get_next_nft_id();
        let record = NFTData {
            owner: caller,
            creator: caller,
            offchain_data: bounded,
            collection: collection,
            frozen: false,
            delegate: None,
        };
        proof {
            lemma_map_of_push(self.nfts@, (nft_id, record));
        }
        self.nfts.push((nft_id, record));
        self.events.push(Event::Minted { nft_id, owner: caller });
        proof {
            assert forall|a: int, b: int| 0 <= a < b < self.nfts@.len()
                implies (#[trigger] self.nfts@[a]).0 != (#[trigger] self.nfts@[b]).0 by {
                if b < self.nfts@.len() - 1 {
                    assert(self.nfts@[a] == old(self).nfts@[a]);
                    assert(self.nfts@[b] == old(self).nfts@[b]);
                } else {
                    assert(self.nfts@[a] == old(self).nfts@[a]);
                }
            }
            self.lemma_inv_wf();
            assert(self@ =~= mint_spec(pre, caller, data, collection).0);
        }
        Ok(nft_id)
    }

    /// Returns the current NFT counter value and advances the counter by one.
    /// The counter never rewinds, so no two calls ever return the same id.
    /// Exhausting the id space would make silent wraparound allow id reuse,
    /// so a call at the counter's maximum is excluded rather than handled.
    fn get_next_nft_id(&mut self) -> (id: NFTId)
        requires
            old(self).inv(),
            old(self).next_nft < u32::MAX,
        ensures
            final(self).inv(),
            id == old(self).next_nft,
            final(self).next_nft == old(self).next_nft + 1,
            final(self).limit == old(self).limit,
            final(self).next_collection == old(self).next_collection,
            final(self).nfts == old(self).nfts,
            final(self).collection_owners == old(self).collection_owners,
            final(self).events == old(self).events,
    {
        let nft_id = self.next_nft;
        self.next_nft = self.next_nft + 1;
        nft_id
    }

    /// Transfer the NFT `nft_id` to `recipient`. The caller must be the
    /// record's owner or its delegate; the recipient must differ from the
    /// current owner (a self-transfer fails whatever the frozen state, so a
    /// stale delegate cannot reset the grant through a degenerate transfer);
    /// the record must not be frozen. On success ownership moves to the
    /// recipient and the delegate grant is cleared; on failure nothing
    /// changes.
    pub fn transfer(
        &mut self,
        caller: AccountId,
        nft_id: NFTId,
        recipient: AccountId,
    ) -> (r: Result<(), Error>)
        requires
            old(self).inv(),
        ensures
            final(self).inv(),
            wf(final(self)@),
            ({
                let (post, res) = transfer_spec(old(self)@, caller, nft_id, recipient);
                final(self)@ == post && r == res
            }),
    {
        let ghost pre = self@;
        let idx = self.find_nft(nft_id);
        proof {
            lemma_map_of_dom(self.nfts@, nft_id);
            self.lemma_inv_wf();
        }
        let i = match idx {
            Some(i) => i,
            None => {
                return Err(Error::NFTNotFound);
            },
        };
        proof {
            lemma_map_of_index(self.nfts@, i as int);
        }
        let owner = self.nfts[i].1.owner;
        let delegated = match self.nfts[i].1.delegate {
            Some(d) => d == caller,
            None => false,
        };
        if caller != owner && !delegated {
            return Err(Error::NotTheNFTOwner);
        }
        if recipient == owner {
            return Err(Error::CannotTransferNFTsToYourself);
        }
        if self.nfts[i].1.frozen {
            return Err(Error::NFTIsFrozen);
        }
        let mut entry = self.nfts.remove(i);
        entry.1.owner = recipient;
        entry.1.delegate = None;
        proof {
            lemma_reinsert(old(self).nfts@, i as int, entry);
        }
        self.nfts.push(entry);
        self.events.push(Event::Transferred { nft_id, from: owner, to: recipient });
        proof {
            self.lemma_update_inv(old(self));
            self.lemma_inv_wf();
            assert(entry.1@ =~= (NFTView { owner: recipient, delegate: None, ..pre.nfts[nft_id] }));
            assert(self@ =~= transfer_spec(pre, caller, nft_id, recipient).0);
        }
        Ok(())
    }

    /// Grant `delegate` the right to transfer the NFT `nft_id` on the owner's
    /// behalf. Only the owner may grant it, and not while the record is
    /// frozen; the grant replaces any earlier one and is cleared by the next
    /// ownership change.
    pub fn approve(
        &mut self,
        caller: AccountId,
        nft_id: NFTId,
        delegate: AccountId,
    ) -> (r: Result<(), Error>)
        requires
            old(self).inv(),
        ensures
            final(self).inv(),
            wf(final(self)@),
            ({
                let (post, res) = approve_spec(old(self)@, caller, nft_id, delegate);
                final(self)@ == post && r == res
            }),
    {
        let ghost pre = self@;
        let idx = self.find_nft(nft_id);
        proof {
            lemma_map_of_dom(self.nfts@, nft_id);
            self.lemma_inv_wf();
        }
        let i = match idx {
            Some(i) => i,
            None => {
                return Err(Error::NFTNotFound);
            },
        };
        proof {
            lemma_map_of_index(self.nfts@, i as int);
        }
        let owner = self.nfts[i].1.owner;
        if caller != owner {
            return Err(Error::NotTheNFTOwner);
        }
        if self.nfts[i].1.frozen {
            return Err(Error::NFTIsFrozen);
        }
        let mut entry = self.nfts.remove(i);
        entry.1.delegate = Some(delegate);
        proof {
            lemma_reinsert(old(self).nfts@, i as int, entry);
        }
        self.nfts.push(entry);
        self.events.push(Event::Approved { nft_id, owner, delegate });
        proof {
            self.lemma_update_inv(old(self));
            self.lemma_inv_wf();
            assert(entry.1@ =~= (NFTView { delegate: Some(delegate), ..pre.nfts[nft_id] }));
            assert(self@ =~= approve_spec(pre, caller, nft_id, delegate).0);
        }
        Ok(())
    }

    /// Set the frozen flag of the NFT `nft_id`, blocking transfer, approval
    /// change and burn until thawed. Only the owner may freeze.
    pub fn freeze(&mut self, caller: AccountId, nft_id: NFTId) -> (r: Result<(), Error>)
        requires
            old(self).inv(),
        ensures
            final(self).inv(),
            wf(final(self)@),
            ({
                let (post, res) = freeze_spec(old(self)@, caller, nft_id);
                final(self)@ == post && r == res
            }),
    {
        let ghost pre = self@;
        let idx = self.find_nft(nft_id);
        proof {
            lemma_map_of_dom(self.nfts@, nft_id);
            self.lemma_inv_wf();
        }
        let i = match idx {
            Some(i) => i,
            None => {
                return Err(Error::NFTNotFound);
            },
        };
        proof {
            lemma_map_of_index(self.nfts@, i as int);
        }
        let owner = self.nfts[i].1.owner;
        if caller != owner {
            return Err(Error::NotTheNFTOwner);
        }
        let mut entry = self.nfts.remove(i);
        entry.1.frozen = true;
        proof {
            lemma_reinsert(old(self).nfts@, i as int, entry);
        }
        self.nfts.push(entry);
        self.events.push(Event::Frozen { nft_id, owner });
        proof {
            self.lemma_update_inv(old(self));
            self.lemma_inv_wf();
            assert(entry.1@ =~= (NFTView { frozen: true, ..pre.nfts[nft_id] }));
            assert(self@ =~= freeze_spec(pre, caller, nft_id).0);
        }
        Ok(())
    }

    /// Clear the frozen flag of the NFT `nft_id`. Only the owner may thaw;
    /// this is the one transition defined out of the frozen state.
    pub fn thaw(&mut self, caller: AccountId, nft_id: NFTId) -> (r: Result<(), Error>)
        requires
            old(self).inv(),
        ensures
            final(self).inv(),
            wf(final(self)@),
            ({
                let (post, res) = thaw_spec(old(self)@, caller, nft_id);
                final(self)@ == post && r == res
            }),
    {
        let ghost pre = self@;
        let idx = self.find_nft(nft_id);
        proof {
            lemma_map_of_dom(self.nfts@, nft_id);
            self.lemma_inv_wf();
        }
        let i = match idx {
            Some(i) => i,
            None => {
                return Err(Error::NFTNotFound);
            },
        };
        proof {
            lemma_map_of_index(self.nfts@, i as int);
        }
        let owner = self.nfts[i].1.owner;
        if caller != owner {
            return Err(Error::NotTheNFTOwner);
        }
        let mut entry = self.nfts.remove(i);
        entry.1.frozen = false;
        proof {
            lemma_reinsert(old(self).nfts@, i as int, entry);
        }
        self.nfts.push(entry);
        self.events.push(Event::Thawed { nft_id, owner });
        proof {
            self.lemma_update_inv(old(self));
            self.lemma_inv_wf();
            assert(entry.1@ =~= (NFTView { frozen: false, ..pre.nfts[nft_id] }));
            assert(self@ =~= thaw_spec(pre, caller, nft_id).0);
        }
        Ok(())
    }

    /// Remove the NFT `nft_id` from the store. Only the owner may burn, and
    /// not while the record is frozen. The id is retired: the allocator never
    /// rewinds, so the id can never reappear.
    pub fn burn(&mut self, caller: AccountId, nft_id: NFTId) -> (r: Result<(), Error>)
        requires
            old(self).inv(),
        ensures
            final(self).inv(),
            wf(final(self)@),
            ({
                let (post, res) = burn_spec(old(self)@, caller, nft_id);
                final(self)@ == post && r == res
            }),
    {
        let ghost pre = self@;
        let idx = self.find_nft(nft_id);
        proof {
            lemma_map_of_dom(self.nfts@, nft_id);
            self.lemma_inv_wf();
        }
        let i = match idx {
            Some(i) => i,
            None => {
                return Err(Error::NFTNotFound);
            },
        };
        proof {
            lemma_map_of_index(self.nfts@, i as int);
        }
        let owner = self.nfts[i].1.owner;
        if caller != owner {
            return Err(Error::NotTheNFTOwner);
        }
        if self.nfts[i].1.frozen {
            return Err(Error::NFTIsFrozen);
        }
        proof {
            lemma_map_of_remove(self.nfts@, i as int);
        }
        let _entry = self.nfts.remove(i);
        self.events.push(Event::Burned { nft_id, owner });
        proof {
            assert forall|j: int| 0 <= j < self.nfts@.len()
                implies exists|j0: int| 0 <= j0 < old(self).nfts@.len()
                    && (#[trigger] self.nfts@[j]).0 == old(self).nfts@[j0].0
                    && self.nfts@[j].1.offchain_data@ == old(self).nfts@[j0].1.offchain_data@ by {
                let j0: int = if j < i { j } else { j + 1 };
                assert(self.nfts@[j] == old(self).nfts@[j0]);
            }
            self.lemma_update_inv(old(self));
            self.lemma_inv_wf();
            assert(self@ =~= burn_spec(pre, caller, nft_id).0);
        }
        Ok(())
    }

    /// Create a new collection owned by the caller and return its id.
    ///
    /// Collection-id exhaustion would be unrecoverable, so a state in which
    /// the counter stands at its maximum is excluded rather than handled.
    pub fn create_collection(&mut self, caller: AccountId) -> (r: CollectionId)
        requires
            old(self).inv(),
            old(self)@.next_collection_id < u32::MAX,
        ensures
            final(self).inv(),
            wf(final(self)@),
            ({
                let (post, id) = create_collection_spec(old(self)@, caller);
                final(self)@ == post && r == id
            }),
    {
        let ghost pre = self@;
        let id = self.next_collection;
        self.next_collection = self.next_collection + 1;
        self.collection_owners.push(caller);
        self.events.push(Event::CollectionCreated { collection_id: id, owner: caller });
        proof {
            self.lemma_inv_wf();
            assert(self@.collections =~= pre.collections.insert(id, caller));
            assert(self@ =~= create_collection_spec(pre, caller).0);
        }
        id
    }

    /// After a take-out-and-append of an entry whose key and blob were
    /// already listed, the representation is valid again.
    proof fn lemma_update_inv(&self, pre: &Pallet)
        requires
            pre.inv(),
            distinct_keys(self.nfts@),
            self.limit == pre.limit,
            self.next_nft == pre.next_nft,
            self.next_collection == pre.next_collection,
            self.collection_owners@ == pre.collection_owners@,
            forall|j: int| 0 <= j < self.nfts@.len()
                ==> exists|j0: int| 0 <= j0 < pre.nfts@.len()
                    && (#[trigger] self.nfts@[j]).0 == pre.nfts@[j0].0
                    && self.nfts@[j].1.offchain_data@ == pre.nfts@[j0].1.offchain_data@,
        ensures
            self.inv(),
    {
        assert forall|j: int| 0 <= j < self.nfts@.len()
            implies (#[trigger] self.nfts@[j]).0 < self.next_nft
                && self.nfts@[j].1.offchain_data@.len() <= self.limit as nat by {
            let j0 = choose|j0: int| 0 <= j0 < pre.nfts@.len()
                && (#[trigger] self.nfts@[j]).0 == pre.nfts@[j0].0
                && self.nfts@[j].1.offchain_data@ == pre.nfts@[j0].1.offchain_data@;
            assert(pre.nfts@[j0].0 < pre.next_nft);
        }
    }

    /// The configured maximum offchain-data length.
    pub fn offchain_data_limit(&self) -> (r: u32)
        ensures
            r == self@.limit,
    {
        self.limit
    }

    /// The next NFT id the allocator will hand out.
    pub fn next_nft_id(&self) -> (r: NFTId)
        ensures
            r == self@.next_nft_id,
    {
        self.next_nft
    }

    /// The next collection id the allocator will hand out.
    pub fn next_collection_id(&self) -> (r: CollectionId)
        ensures
            r == self@.next_collection_id,
    {
        self.next_collection
    }

    /// All events emitted so far, oldest first.
    pub fn events(&self) -> (r: &Vec<Event>)
        ensures
            r@ == self@.events,
    {
        &self.events
    }
}

} // verus!
