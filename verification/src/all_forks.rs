//! *All-forks* header syncing.
//!
//! This state machine keeps every plausible fork above the latest finalized
//! block. It composes the disjoint set of blocks of unknown ancestry, the
//! source registry and the request table with the tree of verified
//! non-finalized blocks, and carries up to two pending finality proofs per
//! source.
//!
//! Consensus verification itself is external: the engine selects what to
//! verify, and the caller reports the verdict of each verification as a
//! plain value. The engine is correct for every possible verdict.

use vstd::prelude::*;

use crate::bytes::{bytes_eq, clone_bytes, HASH_LEN};
use crate::finality_slot::{FinalityProof, FinalityProofs, SourcePendingJustificationProofs};
use crate::pending_blocks::{
    block_idx, block_matches, count_reqs, has_block_in, has_source_in, knows_in, source_idx,
    BlockEntry, KnownBlock, PendingBlocks, RequestId, RequestParams, SourceId,
    UnverifiedBlockState,
};
use crate::tree::{has_hash_in, hash_idx, NonFinalizedTree, TreeBlock};

verus! {

/// A block header as decoded by the external codec: the fields the engine
/// reads, together with the header's hash as computed externally.
pub struct Header {
    pub number: u64,
    pub hash: Vec<u8>,
    pub parent_hash: Vec<u8>,
}

impl Header {
    /// Both hashes have the expected length.
    pub open spec fn valid(self) -> bool {
        self.hash@.len() == HASH_LEN && self.parent_hash@.len() == HASH_LEN
    }
}

/// Configuration for the [`AllForksSync`].
pub struct Config {
    /// Height of the latest finalized block.
    pub finalized_block_height: u64,
    /// Hash of the latest finalized block.
    pub finalized_block_hash: Vec<u8>,
    /// Number of bytes used when encoding/decoding block numbers.
    pub block_number_bytes: u64,
    /// If false, blocks using an unknown consensus engine fail to verify.
    pub allow_unknown_consensus_engines: bool,
    /// Pre-allocated capacity for the number of sources.
    pub sources_capacity: u64,
    /// Pre-allocated capacity for the number of non-finalized blocks.
    pub blocks_capacity: u64,
    /// Bound on the number of blocks of unknown ancestry kept in memory.
    pub max_disjoint_headers: usize,
    /// Maximum number of simultaneous requests towards the same block.
    pub max_requests_per_block: u64,
    /// If true, block bodies are also synchronized.
    pub full: bool,
    /// Hashes of blocks known to be bad, never downloaded nor verified.
    pub banned_blocks: Vec<Vec<u8>>,
}

/// The two finality-proof slots of one source, parallel to the source
/// registry: proofs ready for verification, and proofs checked once and
/// found not verifiable yet.
pub struct SourceSlots {
    pub unverified_finality_proofs: SourcePendingJustificationProofs,
    pub pending_finality_proofs: SourcePendingJustificationProofs,
}

/// The *all-forks* syncing state machine.
pub struct AllForksSync<TBl, TRq, TSrc> {
    /// Tree of verified non-finalized blocks.
    pub chain: NonFinalizedTree<TBl>,
    /// Disjoint set, sources and requests.
    pub inner: PendingBlocks<TBl, TRq, TSrc>,
    /// Finality-proof slots, one pair per source, in registry order.
    pub finality_slots: Vec<SourceSlots>,
    /// Same value as [`Config::banned_blocks`].
    pub banned_blocks: Vec<Vec<u8>>,
    /// See [`Config::block_number_bytes`].
    pub block_number_bytes: u64,
    /// See [`Config::allow_unknown_consensus_engines`].
    pub allow_unknown_consensus_engines: bool,
    /// See [`Config::full`].
    pub full: bool,
}

/// Some banned-blocks entry holds these bytes.
pub open spec fn banned_in(banned: Seq<Vec<u8>>, hash: Seq<u8>) -> bool {
    exists|i: int| 0 <= i < banned.len() && banned[i]@ == hash
}

impl<TBl, TRq, TSrc> AllForksSync<TBl, TRq, TSrc> {
    /// The tree and the shared structures agree on the finalized block; the
    /// slots run parallel to the source registry; the disjoint set stays
    /// within its configured bound.
    pub open spec fn wf(self) -> bool {
        &&& self.chain.wf()
        &&& self.inner.wf()
        &&& self.chain.finalized_height == self.inner.finalized_height
        &&& self.finality_slots@.len() == self.inner.sources@.len()
        &&& forall|i: int|
            0 <= i < self.finality_slots@.len() ==> (
            #[trigger] self.finality_slots@[i]).unverified_finality_proofs.wf()
                && self.finality_slots@[i].pending_finality_proofs.wf()
        &&& self.inner.blocks@.len() <= self.inner.max_disjoint
    }

    /// Initializes the state machine.
    pub fn new(config: Config) -> (r: AllForksSync<TBl, TRq, TSrc>)
        ensures
            r.wf(),
            r.chain.finalized_height == config.finalized_block_height,
            r.chain.finalized_hash@ == config.finalized_block_hash@,
            r.chain.blocks@.len() == 0,
            r.inner.blocks@.len() == 0,
            r.inner.sources@.len() == 0,
            r.inner.requests@.len() == 0,
            r.inner.max_disjoint == config.max_disjoint_headers,
            r.inner.max_requests_per_block == config.max_requests_per_block,
            r.banned_blocks@ == config.banned_blocks@,
    {
        AllForksSync {
            chain: NonFinalizedTree::new(
                config.finalized_block_height,
                config.finalized_block_hash,
            ),
            inner: PendingBlocks::new(
                config.finalized_block_height,
                config.max_disjoint_headers,
                config.max_requests_per_block,
            ),
            finality_slots: Vec::new(),
            banned_blocks: config.banned_blocks,
            block_number_bytes: config.block_number_bytes,
            allow_unknown_consensus_engines: config.allow_unknown_consensus_engines,
            full: config.full,
        }
    }

    /// Height of the latest finalized block.
    pub fn finalized_block_height(&self) -> (r: u64)
        ensures
            r == self.chain.finalized_height,
    {
        self.chain.finalized_height
    }

    /// Hash of the latest finalized block.
    pub fn finalized_block_hash(&self) -> (r: Vec<u8>)
        ensures
            r@ == self.chain.finalized_hash@,
    {
        clone_bytes(&self.chain.finalized_hash)
    }

    /// Height of the best block.
    pub fn best_block_number(&self) -> (r: u64)
        requires
            self.wf(),
        ensures
            r == self.chain.spec_best_height(),
    {
        self.chain.best_block_height()
    }

    /// Hash of the best block.
    pub fn best_block_hash(&self) -> (r: Vec<u8>)
        requires
            self.wf(),
        ensures
            r@ == self.chain.spec_best_hash(),
    {
        self.chain.best_block_hash()
    }

    /// Heights and hashes of the non-finalized blocks, parents before
    /// children.
    pub fn non_finalized_blocks_ancestry_order(&self) -> (r: Vec<(u64, Vec<u8>)>)
        ensures
            r@.len() == self.chain.blocks@.len(),
            forall|i: int|
                0 <= i < r@.len() ==> (#[trigger] r@[i]).0 == self.chain.blocks@[i].height
                    && r@[i].1@ == self.chain.blocks@[i].hash@,
    {
        let mut r: Vec<(u64, Vec<u8>)> = Vec::new();
        let mut i: usize = 0;
        while i < self.chain.len()
            invariant
                i <= self.chain.blocks@.len(),
                r@.len() == i,
                forall|j: int|
                    0 <= j < i ==> (#[trigger] r@[j]).0 == self.chain.blocks@[j].height && r@[j].1@
                        == self.chain.blocks@[j].hash@,
            decreases self.chain.blocks@.len() - i,
        {
            let b = self.chain.block_at(i);
            r.push((b.height, clone_bytes(&b.hash)));
            i = i + 1;
        }
        r
    }

    /// Heights and hashes of the non-finalized blocks, in no promised
    /// order: callers must not rely on how the entries are arranged.
    pub fn non_finalized_blocks_unordered(&self) -> (r: Vec<(u64, Vec<u8>)>)
        ensures
            r@.len() == self.chain.blocks@.len(),
            forall|i: int|
                0 <= i < r@.len() ==> (#[trigger] r@[i]).0 == self.chain.blocks@[i].height
                    && r@[i].1@ == self.chain.blocks@[i].hash@,
    {
        self.non_finalized_blocks_ancestry_order()
    }

    /// Number of blocks in the disjoint set.
    pub fn num_unverified_blocks(&self) -> (r: usize)
        ensures
            r == self.inner.blocks@.len(),
    {
        self.inner.num_unverified_blocks()
    }

    /// Identifiers of the registered sources, in registration order.
    pub fn sources(&self) -> (r: Vec<SourceId>)
        ensures
            r@.len() == self.inner.sources@.len(),
            forall|i: int| 0 <= i < r@.len() ==> r@[i].0 == self.inner.sources@[i].id,
    {
        self.inner.sources()
    }

    /// True if the source has announced this block or one of its descendants.
    ///
    /// The height must be above the finalized height: finalized blocks are
    /// intentionally not tracked.
    pub fn source_knows_non_finalized_block(
        &self,
        source_id: SourceId,
        height: u64,
        hash: &Vec<u8>,
    ) -> (r: bool)
        requires
            self.wf(),
            self.inner.has_source(source_id.0),
            height > self.inner.finalized_height,
        ensures
            r == knows_in(
                self.inner.sources@[source_idx(self.inner.sources@, source_id.0)].known@,
                height,
                hash@,
            ),
    {
        self.inner.source_knows_non_finalized_block(source_id, height, hash)
    }

    /// Identifiers of all the sources believed to know this block.
    pub fn knows_non_finalized_block(&self, height: u64, hash: &Vec<u8>) -> (r: Vec<SourceId>)
        requires
            self.wf(),
            height > self.inner.finalized_height,
        ensures
            forall|k: int|
                0 <= k < r@.len() ==> self.inner.has_source(#[trigger] r@[k].0) && knows_in(
                    self.inner.sources@[source_idx(self.inner.sources@, r@[k].0)].known@,
                    height,
                    hash@,
                ),
            forall|i: int|
                0 <= i < self.inner.sources@.len() && knows_in(
                    #[trigger] self.inner.sources@[i].known@,
                    height,
                    hash@,
                ) ==> r@.contains(SourceId(self.inner.sources@[i].id)),
    {
        self.inner.knows_non_finalized_block(height, hash)
    }

    /// Registers that a source knows a block. Has no effect if the height is
    /// at or below the finalized height or if the block is already known to
    /// be known: repeating the call changes nothing.
    pub fn add_known_block_to_source(&mut self, source_id: SourceId, height: u64, hash: Vec<u8>)
        requires
            old(self).wf(),
            old(self).inner.has_source(source_id.0),
        ensures
            final(self).wf(),
            final(self).chain == old(self).chain,
            final(self).finality_slots == old(self).finality_slots,
            final(self).inner.blocks@ == old(self).inner.blocks@,
            final(self).inner.requests@ == old(self).inner.requests@,
            final(self).inner.has_source(source_id.0),
            ({
                let si = source_idx(old(self).inner.sources@, source_id.0);
                let s = old(self).inner.sources@[si];
                if height <= old(self).inner.finalized_height || knows_in(
                    s.known@,
                    height,
                    hash@,
                ) {
                    final(self).inner.sources@ == old(self).inner.sources@
                } else {
                    &&& final(self).inner.sources@.len() == old(self).inner.sources@.len()
                    &&& forall|j: int|
                        0 <= j < old(self).inner.sources@.len() && j != si
                            ==> final(self).inner.sources@[j] == old(self).inner.sources@[j]
                    &&& ({
                        let t = final(self).inner.sources@[si];
                        &&& t.id == s.id
                        &&& t.user_data == s.user_data
                        &&& t.best_height == s.best_height
                        &&& t.best_hash == s.best_hash
                        &&& t.num_requests == s.num_requests
                        &&& t.known@ == s.known@.push((KnownBlock { height, hash }))
                    })
                }
            }),
    {
        let ghost si = source_idx(old(self).inner.sources@, source_id.0);
        self.inner.add_known_block_to_source(source_id, height, hash);
        proof {
            assert(old(self).inner.sources@[si].id == source_id.0);
            assert(final(self).inner.sources@[si].id == source_id.0);
            assert(has_source_in(final(self).inner.sources@, source_id.0));
        }
    }

    /// The source's current best block.
    pub fn source_best_block(&self, source_id: SourceId) -> (r: (u64, Vec<u8>))
        requires
            self.wf(),
            self.inner.has_source(source_id.0),
        ensures
            ({
                let s = self.inner.sources@[source_idx(self.inner.sources@, source_id.0)];
                r.0 == s.best_height && r.1@ == s.best_hash@
            }),
    {
        self.inner.source_best_block(source_id)
    }

    /// Number of ongoing requests that name this source. Always equal to the
    /// number of entries of the request table that name it.
    pub fn source_num_ongoing_requests(&self, source_id: SourceId) -> (r: usize)
        requires
            self.wf(),
            self.inner.has_source(source_id.0),
        ensures
            r == count_reqs(self.inner.requests@, source_id.0),
    {
        self.inner.source_num_ongoing_requests(source_id)
    }

    /// Read access to a source's opaque user data.
    pub fn source_user_data(&self, source_id: SourceId) -> (r: &TSrc)
        requires
            self.wf(),
            self.inner.has_source(source_id.0),
        ensures
            *r == self.inner.sources@[source_idx(self.inner.sources@, source_id.0)].user_data,
    {
        self.inner.source_user_data(source_id)
    }

    /// Exchanges a source's opaque user data with the given value.
    pub fn swap_source_user_data(&mut self, source_id: SourceId, user_data: &mut TSrc)
        requires
            old(self).wf(),
            old(self).inner.has_source(source_id.0),
        ensures
            final(self).wf(),
            final(self).chain == old(self).chain,
            final(self).finality_slots == old(self).finality_slots,
            final(self).inner.blocks@ == old(self).inner.blocks@,
            final(self).inner.requests@ == old(self).inner.requests@,
            ({
                let si = source_idx(old(self).inner.sources@, source_id.0);
                *final(user_data) == old(self).inner.sources@[si].user_data
            }),
    {
        self.inner.swap_source_user_data(source_id, user_data);
    }

    /// Starts a request towards a source.
    pub fn add_request(&mut self, source_id: SourceId, detail: RequestParams, user_data: TRq) -> (r:
        RequestId)
        requires
            old(self).wf(),
            old(self).inner.has_source(source_id.0),
            old(self).inner.next_request_id < u64::MAX,
            old(self).inner.requests@.len() < usize::MAX,
        ensures
            final(self).wf(),
            final(self).chain == old(self).chain,
            final(self).finality_slots == old(self).finality_slots,
            r.0 == old(self).inner.next_request_id,
            !old(self).inner.has_request(r.0),
            final(self).inner.has_request(r.0),
            final(self).inner.requests@ == old(self).inner.requests@.push(
                (crate::pending_blocks::RequestEntry {
                    id: r.0,
                    source: source_id.0,
                    params: detail,
                    user_data,
                }),
            ),
    {
        self.inner.add_request(source_id, detail, user_data)
    }

    /// Identifiers of the requests whose outcome is no longer desired: the
    /// block they were started for left the disjoint set or went bad.
    pub fn obsolete_requests(&self) -> (r: Vec<RequestId>)
        requires
            self.wf(),
        ensures
            forall|x: int|
                0 <= x < r@.len() ==> self.inner.has_request(#[trigger] r@[x].0)
                    && self.inner.request_is_obsolete(
                    crate::pending_blocks::request_idx(self.inner.requests@, r@[x].0),
                ),
            forall|i: int|
                0 <= i < self.inner.requests@.len() && self.inner.request_is_obsolete(i)
                    ==> exists|x: int|
                    0 <= x < r@.len() && #[trigger] r@[x].0 == self.inner.requests@[i].id,
    {
        self.inner.obsolete_requests()
    }

    /// Removes a source. Every request that names it is cancelled and handed
    /// back; afterwards no request references the source, and its finality
    /// slots are dropped with it.
    pub fn remove_source(&mut self, source_id: SourceId) -> (r: (
        TSrc,
        Vec<(RequestId, RequestParams, TRq)>,
    ))
        requires
            old(self).wf(),
            old(self).inner.has_source(source_id.0),
        ensures
            final(self).wf(),
            final(self).chain == old(self).chain,
            final(self).inner.blocks@ == old(self).inner.blocks@,
            !final(self).inner.has_source(source_id.0),
            final(self).inner.sources@ == old(self).inner.sources@.remove(
                source_idx(old(self).inner.sources@, source_id.0),
            ),
            forall|i: int|
                0 <= i < final(self).inner.requests@.len()
                    ==> #[trigger] final(self).inner.requests@[i].source != source_id.0,
            final(self).inner.requests@ == old(self).inner.requests@.filter(
                |rq: crate::pending_blocks::RequestEntry<TRq>| rq.source != source_id.0,
            ),
            r.1@ == old(self).inner.requests@.filter(
                |rq: crate::pending_blocks::RequestEntry<TRq>| rq.source == source_id.0,
            ).map_values(
                |rq: crate::pending_blocks::RequestEntry<TRq>| (
                    RequestId(rq.id),
                    rq.params,
                    rq.user_data,
                ),
            ),
            r.0 == old(self).inner.sources@[source_idx(
                old(self).inner.sources@,
                source_id.0,
            )].user_data,
    {
        let ghost si = source_idx(old(self).inner.sources@, source_id.0);
        let i = self.inner.find_source(source_id.0).unwrap();
        self.finality_slots.remove(i);
        let r = self.inner.remove_source(source_id);
        r
    }
}

impl<TBl, TRq, TSrc> AllForksSync<TBl, TRq, TSrc> {
    /// Trims the disjoint set down to its configured bound by evicting the
    /// highest entries, smallest hash first among equals. The highest entry
    /// never has a child in the set, so nothing that is needed to bridge a
    /// lower block to the finalized chain is lost. Sources' knowledge of an
    /// evicted block is withdrawn with it.
    fn collect_disjoint_overflow(&mut self)
        requires
            old(self).inner.wf(),
        ensures
            final(self).inner.wf(),
            final(self).chain == old(self).chain,
            final(self).finality_slots == old(self).finality_slots,
            final(self).banned_blocks == old(self).banned_blocks,
            final(self).inner.blocks@.len() <= final(self).inner.max_disjoint,
            final(self).inner.requests@ == old(self).inner.requests@,
            final(self).inner.finalized_height == old(self).inner.finalized_height,
            final(self).inner.max_disjoint == old(self).inner.max_disjoint,
            final(self).inner.max_requests_per_block == old(self).inner.max_requests_per_block,
            final(self).inner.next_source_id == old(self).inner.next_source_id,
            final(self).inner.next_request_id == old(self).inner.next_request_id,
            final(self).inner.sources@.len() == old(self).inner.sources@.len(),
            forall|j: int|
                0 <= j < old(self).inner.sources@.len() ==> {
                    let s = old(self).inner.sources@[j];
                    let t = #[trigger] final(self).inner.sources@[j];
                    t.id == s.id && t.user_data == s.user_data && t.best_height == s.best_height
                        && t.best_hash == s.best_hash && t.num_requests == s.num_requests
                },
            old(self).inner.blocks@.len() < old(self).inner.max_disjoint ==> final(self).inner
                == old(self).inner,
            forall|j: int, h: u64, hs: Seq<u8>|
                #![trigger knows_in(final(self).inner.sources@[j].known@, h, hs)]
                0 <= j < old(self).inner.sources@.len() && has_block_in(
                    old(self).inner.blocks@,
                    h,
                    hs,
                ) && !has_block_in(final(self).inner.blocks@, h, hs) ==> !knows_in(
                    final(self).inner.sources@[j].known@,
                    h,
                    hs,
                ),
            forall|h: u64, hs: Seq<u8>|
                #[trigger] has_block_in(final(self).inner.blocks@, h, hs) ==> has_block_in(
                    old(self).inner.blocks@,
                    h,
                    hs,
                ),
    {
        while self.inner.num_unverified_blocks() >= self.inner.max_disjoint
            && self.inner.num_unverified_blocks() > 0
            invariant
                self.inner.wf(),
                self.chain == old(self).chain,
                self.finality_slots == old(self).finality_slots,
                self.banned_blocks == old(self).banned_blocks,
                self.inner.requests@ == old(self).inner.requests@,
                self.inner.finalized_height == old(self).inner.finalized_height,
                self.inner.max_disjoint == old(self).inner.max_disjoint,
                self.inner.max_requests_per_block == old(self).inner.max_requests_per_block,
                self.inner.next_source_id == old(self).inner.next_source_id,
                self.inner.next_request_id == old(self).inner.next_request_id,
                self.inner.sources@.len() == old(self).inner.sources@.len(),
                forall|j: int|
                    0 <= j < old(self).inner.sources@.len() ==> {
                        let s = old(self).inner.sources@[j];
                        let t = #[trigger] self.inner.sources@[j];
                        t.id == s.id && t.user_data == s.user_data && t.best_height
                            == s.best_height && t.best_hash == s.best_hash && t.num_requests
                            == s.num_requests
                    },
                old(self).inner.blocks@.len() < old(self).inner.max_disjoint ==> self.inner
                    == old(self).inner,
                forall|j: int, h: u64, hs: Seq<u8>|
                    #![trigger knows_in(self.inner.sources@[j].known@, h, hs)]
                    0 <= j < old(self).inner.sources@.len() && has_block_in(
                        old(self).inner.blocks@,
                        h,
                        hs,
                    ) && !has_block_in(self.inner.blocks@, h, hs) ==> !knows_in(
                        self.inner.sources@[j].known@,
                        h,
                        hs,
                    ),
                forall|h: u64, hs: Seq<u8>|
                    #[trigger] has_block_in(self.inner.blocks@, h, hs) ==> has_block_in(
                        old(self).inner.blocks@,
                        h,
                        hs,
                    ),
            decreases self.inner.blocks@.len(),
        {
            let victim = self.inner.highest_block_index().unwrap();
            let height = self.inner.block_at(victim).height;
            let hash = clone_bytes(&self.inner.block_at(victim).hash);
            proof {
                assert(block_matches(self.inner.blocks@[victim as int], height, hash@));
                assert(has_block_in(self.inner.blocks@, height, hash@));
            }
            let ghost mid0 = self.inner;
            self.remove_knowledge_of_block(height, &hash);
            let ghost mid1 = self.inner;
            self.inner.remove_unverified_block(height, &hash);
            proof {
                let vi = block_idx(mid1.blocks@, height, hash@);
                // the removal takes away exactly the victim's key
                assert forall|h: u64, hs: Seq<u8>|
                    #[trigger] has_block_in(self.inner.blocks@, h, hs) implies has_block_in(
                    old(self).inner.blocks@,
                    h,
                    hs,
                ) by {
                    let w = choose|w: int|
                        0 <= w < self.inner.blocks@.len() && block_matches(
                            self.inner.blocks@[w],
                            h,
                            hs,
                        );
                    let w2 = if w < vi {
                        w
                    } else {
                        w + 1
                    };
                    assert(self.inner.blocks@[w] == mid1.blocks@[w2]);
                    assert(has_block_in(mid0.blocks@, h, hs));
                }
                assert forall|j: int, h: u64, hs: Seq<u8>|
                    #![trigger knows_in(self.inner.sources@[j].known@, h, hs)]
                    0 <= j < old(self).inner.sources@.len() && has_block_in(
                        old(self).inner.blocks@,
                        h,
                        hs,
                    ) && !has_block_in(self.inner.blocks@, h, hs) implies !knows_in(
                    self.inner.sources@[j].known@,
                    h,
                    hs,
                ) by {
                    if h == height && hs == hash@ {
                        // the victim's own knowledge was just withdrawn
                        assert(!knows_in(mid1.sources@[j].known@, h, hs));
                    } else if has_block_in(mid0.blocks@, h, hs) {
                        // still present before this eviction, so it must
                        // still be present after removing only the victim
                        let w = choose|w: int|
                            0 <= w < mid1.blocks@.len() && block_matches(
                                mid1.blocks@[w],
                                h,
                                hs,
                            );
                        assert(w != vi);
                        let w2 = if w < vi {
                            w
                        } else {
                            w - 1
                        };
                        assert(self.inner.blocks@[w2] == mid1.blocks@[w]);
                        assert(has_block_in(self.inner.blocks@, h, hs));
                        assert(false);
                    } else {
                        // already evicted earlier; the knowledge withdrawal
                        // of the victim leaves other keys as they were
                        assert(!knows_in(mid0.sources@[j].known@, h, hs));
                        assert(knows_in(mid1.sources@[j].known@, h, hs) == knows_in(
                            mid0.sources@[j].known@,
                            h,
                            hs,
                        ));
                    }
                }
            }
        }
    }

    /// Withdraws every source's belief that it knows this block.
    fn remove_knowledge_of_block(&mut self, height: u64, hash: &Vec<u8>)
        requires
            old(self).inner.wf(),
        ensures
            final(self).inner.wf(),
            final(self).chain == old(self).chain,
            final(self).finality_slots == old(self).finality_slots,
            final(self).banned_blocks == old(self).banned_blocks,
            final(self).inner.blocks@ == old(self).inner.blocks@,
            final(self).inner.requests@ == old(self).inner.requests@,
            final(self).inner.finalized_height == old(self).inner.finalized_height,
            final(self).inner.max_disjoint == old(self).inner.max_disjoint,
            final(self).inner.max_requests_per_block == old(self).inner.max_requests_per_block,
            final(self).inner.next_source_id == old(self).inner.next_source_id,
            final(self).inner.next_request_id == old(self).inner.next_request_id,
            final(self).inner.sources@.len() == old(self).inner.sources@.len(),
            forall|j: int|
                0 <= j < old(self).inner.sources@.len() ==> {
                    let s = old(self).inner.sources@[j];
                    let t = #[trigger] final(self).inner.sources@[j];
                    t.id == s.id && t.user_data == s.user_data && t.best_height == s.best_height
                        && t.best_hash == s.best_hash && t.num_requests == s.num_requests
                },
            forall|j: int|
                0 <= j < old(self).inner.sources@.len() ==> !knows_in(
                    (#[trigger] final(self).inner.sources@[j]).known@,
                    height,
                    hash@,
                ),
            forall|j: int, h2: u64, hs2: Seq<u8>|
                #![trigger knows_in(final(self).inner.sources@[j].known@, h2, hs2)]
                0 <= j < old(self).inner.sources@.len() && !(h2 == height && hs2 == hash@)
                    ==> knows_in(final(self).inner.sources@[j].known@, h2, hs2) == knows_in(
                    old(self).inner.sources@[j].known@,
                    h2,
                    hs2,
                ),
    {
        let n = self.inner.sources.len();
        let mut i: usize = 0;
        while i < n
            invariant
                n == old(self).inner.sources@.len(),
                i <= n,
                self.inner.wf(),
                self.chain == old(self).chain,
                self.finality_slots == old(self).finality_slots,
                self.banned_blocks == old(self).banned_blocks,
                self.inner.blocks@ == old(self).inner.blocks@,
                self.inner.requests@ == old(self).inner.requests@,
                self.inner.finalized_height == old(self).inner.finalized_height,
                self.inner.max_disjoint == old(self).inner.max_disjoint,
                self.inner.max_requests_per_block == old(self).inner.max_requests_per_block,
                self.inner.next_source_id == old(self).inner.next_source_id,
                self.inner.next_request_id == old(self).inner.next_request_id,
                self.inner.sources@.len() == n,
                forall|j: int|
                    0 <= j < n ==> {
                        let s = old(self).inner.sources@[j];
                        let t = #[trigger] self.inner.sources@[j];
                        t.id == s.id && t.user_data == s.user_data && t.best_height
                            == s.best_height && t.best_hash == s.best_hash && t.num_requests
                            == s.num_requests
                    },
                forall|j: int|
                    0 <= j < i ==> !knows_in(
                        (#[trigger] self.inner.sources@[j]).known@,
                        height,
                        hash@,
                    ),
                forall|j: int, h2: u64, hs2: Seq<u8>|
                    #![trigger knows_in(self.inner.sources@[j].known@, h2, hs2)]
                    0 <= j < n && !(h2 == height && hs2 == hash@) ==> knows_in(
                        self.inner.sources@[j].known@,
                        h2,
                        hs2,
                    ) == knows_in(old(self).inner.sources@[j].known@, h2, hs2),
            decreases n - i,
        {
            let sid = SourceId(self.inner.sources[i].id);
            proof {
                assert(self.inner.sources@[i as int].id == sid.0);
                assert(has_source_in(self.inner.sources@, sid.0));
            }
            self.inner.remove_known_block_of_source(sid, height, hash);
            i = i + 1;
        }
    }

    /// Registers a new source with its declared best block, giving it empty
    /// finality-proof slots.
    fn register_source(&mut self, user_data: TSrc, best_height: u64, best_hash: Vec<u8>) -> (r:
        SourceId)
        requires
            old(self).wf(),
            old(self).inner.next_source_id < u64::MAX,
        ensures
            final(self).wf(),
            final(self).chain == old(self).chain,
            final(self).banned_blocks == old(self).banned_blocks,
            final(self).inner.blocks@ == old(self).inner.blocks@,
            final(self).inner.requests@ == old(self).inner.requests@,
            final(self).inner.finalized_height == old(self).inner.finalized_height,
            final(self).inner.max_disjoint == old(self).inner.max_disjoint,
            final(self).inner.max_requests_per_block == old(self).inner.max_requests_per_block,
            final(self).inner.next_request_id == old(self).inner.next_request_id,
            r.0 == old(self).inner.next_source_id,
            !old(self).inner.has_source(r.0),
            final(self).inner.has_source(r.0),
            final(self).inner.sources@.len() == old(self).inner.sources@.len() + 1,
            forall|j: int|
                0 <= j < old(self).inner.sources@.len() ==> final(self).inner.sources@[j] == old(
                    self,
                ).inner.sources@[j],
            ({
                let e = final(self).inner.sources@.last();
                &&& e.id == r.0
                &&& e.user_data == user_data
                &&& e.best_height == best_height
                &&& e.best_hash@ == best_hash@
                &&& e.num_requests == 0
            }),
            forall|j: int|
                0 <= j < old(self).finality_slots@.len() ==> final(self).finality_slots@[j] == old(
                    self,
                ).finality_slots@[j],
            final(self).finality_slots@.len() == old(self).finality_slots@.len() + 1,
            final(self).finality_slots@.last().unverified_finality_proofs.count() == 0,
            final(self).finality_slots@.last().pending_finality_proofs.count() == 0,
            best_height > old(self).inner.finalized_height ==> knows_in(
                final(self).inner.sources@.last().known@,
                best_height,
                best_hash@,
            ),
    {
        let id = self.inner.add_source(user_data, best_height, best_hash);
        self.finality_slots.push(
            SourceSlots {
                unverified_finality_proofs: SourcePendingJustificationProofs::Empty,
                pending_finality_proofs: SourcePendingJustificationProofs::Empty,
            },
        );
        proof {
            let e = self.inner.sources@.last();
            if best_height > old(self).inner.finalized_height {
                assert(crate::pending_blocks::known_matches(e.known@[0], best_height, best_hash@));
            }
        }
        id
    }
}

/// See [`AllForksSync::prepare_add_source`].
pub enum AddSource {
    /// The declared best block is at or below the local finalized block.
    OldBestBlock(AddSourceOldBlock),
    /// The declared best block has already been verified.
    BestBlockAlreadyVerified(AddSourceKnown),
    /// The declared best block is known but not verified yet.
    BestBlockPendingVerification(AddSourceKnown),
    /// The declared best block is unknown and needs to be inserted.
    UnknownBestBlock(AddSourceUnknown),
}

/// See [`AddSource::OldBestBlock`].
pub struct AddSourceOldBlock {
    pub best_block_number: u64,
    pub best_block_hash: Vec<u8>,
}

/// See [`AddSource::BestBlockAlreadyVerified`] and
/// [`AddSource::BestBlockPendingVerification`].
pub struct AddSourceKnown {
    pub best_block_number: u64,
    pub best_block_hash: Vec<u8>,
}

/// See [`AddSource::UnknownBestBlock`].
pub struct AddSourceUnknown {
    pub best_block_number: u64,
    pub best_block_hash: Vec<u8>,
}

impl<TBl, TRq, TSrc> AllForksSync<TBl, TRq, TSrc> {
    /// Classifies the declared best block of a source about to be added,
    /// without changing the state: the returned value says how to complete
    /// the insertion.
    pub fn prepare_add_source(&self, best_block_number: u64, best_block_hash: Vec<u8>) -> (r:
        AddSource)
        requires
            self.wf(),
        ensures
            match r {
                AddSource::OldBestBlock(t) => best_block_number <= self.chain.finalized_height
                    && t.best_block_number == best_block_number && t.best_block_hash@
                    == best_block_hash@,
                AddSource::BestBlockAlreadyVerified(t) => best_block_number
                    > self.chain.finalized_height && has_hash_in(
                    self.chain.blocks@,
                    best_block_hash@,
                ) && t.best_block_number == best_block_number && t.best_block_hash@
                    == best_block_hash@,
                AddSource::BestBlockPendingVerification(t) => best_block_number
                    > self.chain.finalized_height && !has_hash_in(
                    self.chain.blocks@,
                    best_block_hash@,
                ) && has_block_in(self.inner.blocks@, best_block_number, best_block_hash@)
                    && t.best_block_number == best_block_number && t.best_block_hash@
                    == best_block_hash@,
                AddSource::UnknownBestBlock(t) => best_block_number > self.chain.finalized_height
                    && !has_hash_in(self.chain.blocks@, best_block_hash@) && !has_block_in(
                    self.inner.blocks@,
                    best_block_number,
                    best_block_hash@,
                ) && t.best_block_number == best_block_number && t.best_block_hash@
                    == best_block_hash@,
            },
    {
        if best_block_number <= self.chain.finalized_height {
            return AddSource::OldBestBlock(
                AddSourceOldBlock { best_block_number, best_block_hash },
            );
        }
        if self.chain.contains_non_finalized_block(&best_block_hash) {
            return AddSource::BestBlockAlreadyVerified(
                AddSourceKnown { best_block_number, best_block_hash },
            );
        }
        if self.inner.contains_unverified_block(best_block_number, &best_block_hash) {
            AddSource::BestBlockPendingVerification(
                AddSourceKnown { best_block_number, best_block_hash },
            )
        } else {
            AddSource::UnknownBestBlock(AddSourceUnknown { best_block_number, best_block_hash })
        }
    }
}

impl AddSourceOldBlock {
    /// Inserts the new source. Its best block is below the finalized block,
    /// so nothing else is recorded.
    pub fn add_source<TBl, TRq, TSrc>(
        self,
        sync: &mut AllForksSync<TBl, TRq, TSrc>,
        source_user_data: TSrc,
    ) -> (r: SourceId)
        requires
            old(sync).wf(),
            old(sync).inner.next_source_id < u64::MAX,
        ensures
            final(sync).wf(),
            final(sync).chain == old(sync).chain,
            final(sync).inner.blocks@ == old(sync).inner.blocks@,
            final(sync).inner.requests@ == old(sync).inner.requests@,
            r.0 == old(sync).inner.next_source_id,
            final(sync).inner.has_source(r.0),
            final(sync).inner.sources@.len() == old(sync).inner.sources@.len() + 1,
            final(sync).inner.sources@.last().user_data == source_user_data,
            final(sync).inner.sources@.last().best_height == self.best_block_number,
            final(sync).inner.sources@.last().best_hash@ == self.best_block_hash@,
    {
        sync.register_source(source_user_data, self.best_block_number, self.best_block_hash)
    }
}

impl AddSourceKnown {
    /// Inserts the new source and records that it knows its best block.
    pub fn add_source<TBl, TRq, TSrc>(
        self,
        sync: &mut AllForksSync<TBl, TRq, TSrc>,
        source_user_data: TSrc,
    ) -> (r: SourceId)
        requires
            old(sync).wf(),
            old(sync).inner.next_source_id < u64::MAX,
        ensures
            final(sync).wf(),
            final(sync).chain == old(sync).chain,
            final(sync).inner.blocks@ == old(sync).inner.blocks@,
            final(sync).inner.requests@ == old(sync).inner.requests@,
            r.0 == old(sync).inner.next_source_id,
            final(sync).inner.has_source(r.0),
            final(sync).inner.sources@.len() == old(sync).inner.sources@.len() + 1,
            final(sync).inner.sources@.last().user_data == source_user_data,
            final(sync).inner.sources@.last().best_height == self.best_block_number,
            final(sync).inner.sources@.last().best_hash@ == self.best_block_hash@,
            self.best_block_number > old(sync).inner.finalized_height ==> knows_in(
                final(sync).inner.sources@.last().known@,
                self.best_block_number,
                self.best_block_hash@,
            ),
    {
        sync.register_source(source_user_data, self.best_block_number, self.best_block_hash)
    }
}

impl AddSourceUnknown {
    /// Inserts the new source, records that it knows its best block, and
    /// inserts that block in the disjoint set with only its height and hash
    /// known. A banned block is immediately marked bad.
    pub fn add_source_and_insert_block<TBl, TRq, TSrc>(
        self,
        sync: &mut AllForksSync<TBl, TRq, TSrc>,
        source_user_data: TSrc,
        best_block_user_data: TBl,
    ) -> (r: SourceId)
        requires
            old(sync).wf(),
            old(sync).inner.next_source_id < u64::MAX,
            self.best_block_number > old(sync).inner.finalized_height,
            !has_block_in(old(sync).inner.blocks@, self.best_block_number, self.best_block_hash@),
        ensures
            final(sync).wf(),
            final(sync).chain == old(sync).chain,
            final(sync).inner.requests@ == old(sync).inner.requests@,
            r.0 == old(sync).inner.next_source_id,
            final(sync).inner.has_source(r.0),
            final(sync).inner.blocks@.len() <= final(sync).inner.max_disjoint,
            old(sync).inner.blocks@.len() + 1 < old(sync).inner.max_disjoint
                ==> final(sync).inner.has_block(self.best_block_number, self.best_block_hash@)
                && ({
                let e = final(sync).inner.blocks@[block_idx(
                    final(sync).inner.blocks@,
                    self.best_block_number,
                    self.best_block_hash@,
                )];
                e.user_data == best_block_user_data && e.state.is_bad() == banned_in(
                    old(sync).banned_blocks@,
                    self.best_block_hash@,
                )
            }),
    {
        let hash_for_block = clone_bytes(&self.best_block_hash);
        let hash_again = clone_bytes(&self.best_block_hash);
        let source_id = sync.register_source(
            source_user_data,
            self.best_block_number,
            self.best_block_hash,
        );
        sync.inner.insert_unverified_block(
            self.best_block_number,
            hash_for_block,
            UnverifiedBlockState::HeightHashKnown,
            best_block_user_data,
        );
        proof {
            let n = sync.inner.blocks@.len() as int;
            assert(block_matches(
                sync.inner.blocks@[n - 1],
                self.best_block_number,
                self.best_block_hash@,
            ));
            assert(has_block_in(sync.inner.blocks@, self.best_block_number, self.best_block_hash@));
        }
        if sync.is_banned(&hash_again) {
            sync.inner.mark_unverified_block_as_bad(self.best_block_number, &hash_again);
        }
        let ghost mid = *sync;
        sync.collect_disjoint_overflow();
        proof {
            assert(has_source_in(mid.inner.sources@, source_id.0));
            let w = choose|w: int|
                0 <= w < mid.inner.sources@.len() && mid.inner.sources@[w].id == source_id.0;
            assert(sync.inner.sources@[w].id == source_id.0);
            if old(sync).inner.blocks@.len() + 1 < old(sync).inner.max_disjoint {
                assert(mid.inner == sync.inner);
                let n = sync.inner.blocks@.len() as int;
                assert(block_matches(
                    sync.inner.blocks@[n - 1],
                    self.best_block_number,
                    self.best_block_hash@,
                ));
                assert(has_block_in(
                    sync.inner.blocks@,
                    self.best_block_number,
                    self.best_block_hash@,
                ));
                let x = block_idx(
                    sync.inner.blocks@,
                    self.best_block_number,
                    self.best_block_hash@,
                );
                assert(0 <= x < n && block_matches(
                    sync.inner.blocks@[x],
                    self.best_block_number,
                    self.best_block_hash@,
                ));
                if x != n - 1 {
                    assert(block_matches(
                        sync.inner.blocks@[x],
                        sync.inner.blocks@[n - 1].height,
                        sync.inner.blocks@[n - 1].hash@,
                    ));
                    assert(false);
                }
            }
        }
        source_id
    }
}

impl<TBl, TRq, TSrc> AllForksSync<TBl, TRq, TSrc> {
    /// True if the hash is in the banned list.
    fn is_banned(&self, hash: &Vec<u8>) -> (r: bool)
        ensures
            r == banned_in(self.banned_blocks@, hash@),
    {
        let mut i: usize = 0;
        loop
            invariant
                i <= self.banned_blocks@.len(),
                forall|j: int| 0 <= j < i ==> self.banned_blocks@[j]@ != hash@,
            decreases self.banned_blocks@.len() - i,
        {
            if i == self.banned_blocks.len() {
                return false;
            }
            if bytes_eq(&self.banned_blocks[i], hash) {
                return true;
            }
            i = i + 1;
        }
    }
}

/// Outcome of [`AllForksSync::block_announce`].
pub enum BlockAnnounceOutcome {
    /// The announced header could not be used: a hash has the wrong length.
    InvalidHeader,
    /// The announced block is at or below the finalized block and is ignored;
    /// if it was announced as best, the source's best block was still
    /// recorded.
    TooOld { announce_block_height: u64, finalized_block_height: u64 },
    /// The announced block has already been verified and is in the tree.
    AlreadyInChain(AnnouncedBlockKnown),
    /// The announced block is in the disjoint set, not verified yet.
    Known(AnnouncedBlockKnown),
    /// The announced block is new.
    Unknown(AnnouncedBlockUnknown),
}

/// A block announce whose subject is already tracked; apply it with
/// [`AnnouncedBlockKnown::update_source_and_block`].
pub struct AnnouncedBlockKnown {
    pub source_id: SourceId,
    pub announced_header_number: u64,
    pub announced_header_hash: Vec<u8>,
    pub announced_header_parent_hash: Vec<u8>,
    pub is_in_chain: bool,
    pub is_best: bool,
}

/// A block announce whose subject is new; apply it with
/// [`AnnouncedBlockUnknown::insert_and_update_source`].
pub struct AnnouncedBlockUnknown {
    pub source_id: SourceId,
    pub announced_header_number: u64,
    pub announced_header_hash: Vec<u8>,
    pub announced_header_parent_hash: Vec<u8>,
    pub is_best: bool,
}

impl<TBl, TRq, TSrc> AllForksSync<TBl, TRq, TSrc> {
    /// Classifies a block announced by a source. Only the
    /// [`BlockAnnounceOutcome::TooOld`] case with `is_best` changes the
    /// state, recording the source's best block; every other outcome leaves
    /// the state untouched until the returned value is applied.
    pub fn block_announce(
        &mut self,
        source_id: SourceId,
        announced_header: Header,
        is_best: bool,
    ) -> (r: BlockAnnounceOutcome)
        requires
            old(self).wf(),
            old(self).inner.has_source(source_id.0),
        ensures
            final(self).wf(),
            final(self).chain == old(self).chain,
            final(self).finality_slots == old(self).finality_slots,
            final(self).inner.blocks@ == old(self).inner.blocks@,
            final(self).inner.requests@ == old(self).inner.requests@,
            final(self).inner.has_source(source_id.0),
            match r {
                BlockAnnounceOutcome::InvalidHeader => !announced_header.valid()
                    && final(self).inner.sources@ == old(self).inner.sources@,
                BlockAnnounceOutcome::TooOld { announce_block_height, finalized_block_height } => {
                    &&& announced_header.valid()
                    &&& announce_block_height == announced_header.number
                    &&& finalized_block_height == old(self).inner.finalized_height
                    &&& announced_header.number <= old(self).inner.finalized_height
                    &&& !is_best ==> final(self).inner.sources@ == old(self).inner.sources@
                    &&& is_best ==> ({
                        let si = source_idx(old(self).inner.sources@, source_id.0);
                        final(self).inner.sources@[si].best_height == announced_header.number
                            && final(self).inner.sources@[si].best_hash@
                            == announced_header.hash@
                    })
                },
                BlockAnnounceOutcome::AlreadyInChain(t) => announced_header.valid()
                    && announced_header.number > old(self).inner.finalized_height && has_hash_in(
                    old(self).chain.blocks@,
                    announced_header.hash@,
                ) && final(self).inner.sources@ == old(self).inner.sources@
                    && announce_token_matches_known(t, source_id, announced_header, is_best, true),
                BlockAnnounceOutcome::Known(t) => announced_header.valid()
                    && announced_header.number > old(self).inner.finalized_height && !has_hash_in(
                    old(self).chain.blocks@,
                    announced_header.hash@,
                ) && has_block_in(
                    old(self).inner.blocks@,
                    announced_header.number,
                    announced_header.hash@,
                ) && final(self).inner.sources@ == old(self).inner.sources@
                    && announce_token_matches_known(t, source_id, announced_header, is_best, false),
                BlockAnnounceOutcome::Unknown(t) => announced_header.valid()
                    && announced_header.number > old(self).inner.finalized_height && !has_hash_in(
                    old(self).chain.blocks@,
                    announced_header.hash@,
                ) && !has_block_in(
                    old(self).inner.blocks@,
                    announced_header.number,
                    announced_header.hash@,
                ) && final(self).inner.sources@ == old(self).inner.sources@
                    && announce_token_matches_unknown(t, source_id, announced_header, is_best),
            },
    {
        if announced_header.hash.len() != HASH_LEN || announced_header.parent_hash.len()
            != HASH_LEN {
            return BlockAnnounceOutcome::InvalidHeader;
        }
        let announced_header_number = announced_header.number;
        let announced_header_hash = announced_header.hash;
        let announced_header_parent_hash = announced_header.parent_hash;
        if announced_header_number <= self.inner.finalized_height {
            if is_best {
                self.inner.add_known_block_to_source_and_set_best(
                    source_id,
                    announced_header_number,
                    announced_header_hash,
                );
            }
            return BlockAnnounceOutcome::TooOld {
                announce_block_height: announced_header_number,
                finalized_block_height: self.inner.finalized_height,
            };
        }
        if self.chain.contains_non_finalized_block(&announced_header_hash) {
            return BlockAnnounceOutcome::AlreadyInChain(
                AnnouncedBlockKnown {
                    source_id,
                    announced_header_number,
                    announced_header_hash,
                    announced_header_parent_hash,
                    is_in_chain: true,
                    is_best,
                },
            );
        }
        if self.inner.contains_unverified_block(announced_header_number, &announced_header_hash) {
            BlockAnnounceOutcome::Known(
                AnnouncedBlockKnown {
                    source_id,
                    announced_header_number,
                    announced_header_hash,
                    announced_header_parent_hash,
                    is_in_chain: false,
                    is_best,
                },
            )
        } else {
            BlockAnnounceOutcome::Unknown(
                AnnouncedBlockUnknown {
                    source_id,
                    announced_header_number,
                    announced_header_hash,
                    announced_header_parent_hash,
                    is_best,
                },
            )
        }
    }

    /// Records that a source knows a block and its parent, updating its best
    /// block if the block was announced as best.
    fn learn_source_block(
        &mut self,
        source_id: SourceId,
        number: u64,
        hash: &Vec<u8>,
        parent_hash: &Vec<u8>,
        is_best: bool,
    )
        requires
            old(self).wf(),
            old(self).inner.has_source(source_id.0),
            number > old(self).inner.finalized_height,
        ensures
            final(self).wf(),
            final(self).chain == old(self).chain,
            final(self).finality_slots == old(self).finality_slots,
            final(self).banned_blocks == old(self).banned_blocks,
            final(self).inner.blocks@ == old(self).inner.blocks@,
            final(self).inner.requests@ == old(self).inner.requests@,
            final(self).inner.finalized_height == old(self).inner.finalized_height,
            final(self).inner.max_disjoint == old(self).inner.max_disjoint,
            final(self).inner.max_requests_per_block == old(self).inner.max_requests_per_block,
            final(self).inner.next_source_id == old(self).inner.next_source_id,
            final(self).inner.next_request_id == old(self).inner.next_request_id,
            final(self).inner.sources@.len() == old(self).inner.sources@.len(),
            ({
                let si = source_idx(old(self).inner.sources@, source_id.0);
                &&& forall|j: int|
                    0 <= j < old(self).inner.sources@.len() && j != si
                        ==> final(self).inner.sources@[j] == old(self).inner.sources@[j]
                &&& ({
                    let s = old(self).inner.sources@[si];
                    let t = final(self).inner.sources@[si];
                    &&& t.id == s.id
                    &&& t.user_data == s.user_data
                    &&& t.num_requests == s.num_requests
                    &&& knows_in(t.known@, number, hash@)
                    &&& (number - 1 > old(self).inner.finalized_height ==> knows_in(
                        t.known@,
                        (number - 1) as u64,
                        parent_hash@,
                    ))
                    &&& (is_best ==> t.best_height == number && t.best_hash@ == hash@)
                    &&& (!is_best ==> t.best_height == s.best_height && t.best_hash
                        == s.best_hash)
                })
            }),
    {
        let ghost si = source_idx(old(self).inner.sources@, source_id.0);
        if is_best {
            self.inner.add_known_block_to_source_and_set_best(
                source_id,
                number,
                clone_bytes(hash),
            );
        } else {
            self.inner.add_known_block_to_source(source_id, number, clone_bytes(hash));
        }
        let ghost mid = *self;
        proof {
            assert(mid.inner.sources@[si].id == source_id.0);
            assert(source_idx(mid.inner.sources@, source_id.0) == si) by {
                let v = source_idx(mid.inner.sources@, source_id.0);
                assert(has_source_in(mid.inner.sources@, source_id.0));
                if v != si {
                    assert(mid.inner.sources@[v].id == source_id.0);
                    assert(mid.inner.sources@[v].id != mid.inner.sources@[si].id);
                    assert(false);
                }
            }
            assert(knows_in(mid.inner.sources@[si].known@, number, hash@));
        }
        self.inner.add_known_block_to_source(source_id, number - 1, clone_bytes(parent_hash));
        proof {
            let t = self.inner.sources@[si];
            let m = mid.inner.sources@[si];
            // knowledge only grows: the earlier fact survives the second call
            assert(knows_in(t.known@, number, hash@)) by {
                if t.known@ == m.known@ {
                } else {
                    let w = choose|w: int|
                        0 <= w < m.known@.len() && crate::pending_blocks::known_matches(
                            m.known@[w],
                            number,
                            hash@,
                        );
                    assert(t.known@[w] == m.known@[w]);
                }
            }
        }
    }
}

/// The token carries exactly the fields of the announce it came from.
pub open spec fn announce_token_matches_known(
    t: AnnouncedBlockKnown,
    source_id: SourceId,
    announced_header: Header,
    is_best: bool,
    is_in_chain: bool,
) -> bool {
    &&& t.source_id == source_id
    &&& t.announced_header_number == announced_header.number
    &&& t.announced_header_hash@ == announced_header.hash@
    &&& t.announced_header_parent_hash@ == announced_header.parent_hash@
    &&& t.is_best == is_best
    &&& t.is_in_chain == is_in_chain
}

/// The token carries exactly the fields of the announce it came from.
pub open spec fn announce_token_matches_unknown(
    t: AnnouncedBlockUnknown,
    source_id: SourceId,
    announced_header: Header,
    is_best: bool,
) -> bool {
    &&& t.source_id == source_id
    &&& t.announced_header_number == announced_header.number
    &&& t.announced_header_hash@ == announced_header.hash@
    &&& t.announced_header_parent_hash@ == announced_header.parent_hash@
    &&& t.is_best == is_best
}

impl AnnouncedBlockKnown {
    /// Records that the source knows the announced block and its parent and,
    /// for a block of the disjoint set, stores the learned parent hash; the
    /// block is marked bad when it claims to sit just above the finalized
    /// block without building on it.
    pub fn update_source_and_block<TBl, TRq, TSrc>(self, sync: &mut AllForksSync<TBl, TRq, TSrc>)
        requires
            old(sync).wf(),
            old(sync).inner.has_source(self.source_id.0),
            self.announced_header_number > old(sync).inner.finalized_height,
            !self.is_in_chain ==> has_block_in(
                old(sync).inner.blocks@,
                self.announced_header_number,
                self.announced_header_hash@,
            ),
        ensures
            final(sync).wf(),
            final(sync).chain == old(sync).chain,
            final(sync).finality_slots == old(sync).finality_slots,
            final(sync).inner.requests@ == old(sync).inner.requests@,
            final(sync).inner.blocks@.len() == old(sync).inner.blocks@.len(),
            ({
                let si = source_idx(old(sync).inner.sources@, self.source_id.0);
                let t = final(sync).inner.sources@[si];
                &&& knows_in(t.known@, self.announced_header_number, self.announced_header_hash@)
                &&& (self.is_best ==> t.best_height == self.announced_header_number
                    && t.best_hash@ == self.announced_header_hash@)
            }),
            !self.is_in_chain && self.announced_header_number == old(sync).inner.finalized_height
                + 1 && self.announced_header_parent_hash@ != old(sync).chain.finalized_hash@
                ==> final(sync).inner.blocks@[block_idx(
                final(sync).inner.blocks@,
                self.announced_header_number,
                self.announced_header_hash@,
            )].state.is_bad(),
    {
        sync.learn_source_block(
            self.source_id,
            self.announced_header_number,
            &self.announced_header_hash,
            &self.announced_header_parent_hash,
            self.is_best,
        );
        if !self.is_in_chain {
            let ghost pre_set = *sync;
            proof {
                assert(has_block_in(
                    sync.inner.blocks@,
                    self.announced_header_number,
                    self.announced_header_hash@,
                ));
            }
            sync.inner.set_unverified_block_header_known(
                self.announced_header_number,
                &self.announced_header_hash,
                clone_bytes(&self.announced_header_parent_hash),
            );
            proof {
                let i = block_idx(
                    pre_set.inner.blocks@,
                    self.announced_header_number,
                    self.announced_header_hash@,
                );
                assert(block_matches(
                    sync.inner.blocks@[i],
                    self.announced_header_number,
                    self.announced_header_hash@,
                ));
                assert(has_block_in(
                    sync.inner.blocks@,
                    self.announced_header_number,
                    self.announced_header_hash@,
                ));
            }
            let parent_is_finalized_chain = bytes_eq(
                &self.announced_header_parent_hash,
                &sync.chain.finalized_hash,
            );
            if self.announced_header_number == sync.inner.finalized_height + 1
                && !parent_is_finalized_chain {
                let ghost pre_mark = *sync;
                sync.inner.mark_unverified_block_as_bad(
                    self.announced_header_number,
                    &self.announced_header_hash,
                );
                proof {
                    let i = block_idx(
                        pre_mark.inner.blocks@,
                        self.announced_header_number,
                        self.announced_header_hash@,
                    );
                    assert(block_matches(
                        sync.inner.blocks@[i],
                        self.announced_header_number,
                        self.announced_header_hash@,
                    ));
                    assert(sync.inner.blocks@[i].state.is_bad());
                    let x = block_idx(
                        sync.inner.blocks@,
                        self.announced_header_number,
                        self.announced_header_hash@,
                    );
                    assert(has_block_in(
                        sync.inner.blocks@,
                        self.announced_header_number,
                        self.announced_header_hash@,
                    ));
                    if x != i {
                        assert(block_matches(
                            sync.inner.blocks@[x],
                            sync.inner.blocks@[i].height,
                            sync.inner.blocks@[i].hash@,
                        ));
                        assert(false);
                    }
                }
            }
        }
    }
}

impl AnnouncedBlockUnknown {
    /// Inserts the announced block in the disjoint set with its parent hash
    /// known, records that the source knows it and its parent, marks it bad
    /// when banned or when it claims to sit just above the finalized block
    /// without building on it, and trims the disjoint set to its bound.
    pub fn insert_and_update_source<TBl, TRq, TSrc>(
        self,
        sync: &mut AllForksSync<TBl, TRq, TSrc>,
        user_data: TBl,
    )
        requires
            old(sync).wf(),
            old(sync).inner.has_source(self.source_id.0),
            self.announced_header_number > old(sync).inner.finalized_height,
            !has_block_in(
                old(sync).inner.blocks@,
                self.announced_header_number,
                self.announced_header_hash@,
            ),
        ensures
            final(sync).wf(),
            final(sync).chain == old(sync).chain,
            final(sync).finality_slots == old(sync).finality_slots,
            final(sync).inner.requests@ == old(sync).inner.requests@,
            final(sync).inner.blocks@.len() <= final(sync).inner.max_disjoint,
            final(sync).inner.sources@.len() == old(sync).inner.sources@.len(),
            forall|j: int|
                0 <= j < old(sync).inner.sources@.len() ==> {
                    let s = old(sync).inner.sources@[j];
                    let t = #[trigger] final(sync).inner.sources@[j];
                    t.id == s.id && t.user_data == s.user_data && t.num_requests == s.num_requests
                },
            old(sync).inner.blocks@.len() + 1 < old(sync).inner.max_disjoint
                ==> final(sync).inner.has_block(
                self.announced_header_number,
                self.announced_header_hash@,
            ) && ({
                let e = final(sync).inner.blocks@[block_idx(
                    final(sync).inner.blocks@,
                    self.announced_header_number,
                    self.announced_header_hash@,
                )];
                &&& e.user_data == user_data
                &&& e.state.is_bad() == (banned_in(
                    old(sync).banned_blocks@,
                    self.announced_header_hash@,
                ) || (self.announced_header_number == old(sync).inner.finalized_height + 1
                    && self.announced_header_parent_hash@ != old(sync).chain.finalized_hash@))
                &&& e.state.parent() == Option::Some(self.announced_header_parent_hash@)
            }),
            forall|j: int, h: u64, hs: Seq<u8>|
                #![trigger knows_in(final(sync).inner.sources@[j].known@, h, hs)]
                0 <= j < old(sync).inner.sources@.len() && (has_block_in(
                    old(sync).inner.blocks@,
                    h,
                    hs,
                ) || (h == self.announced_header_number && hs == self.announced_header_hash@))
                    && !has_block_in(final(sync).inner.blocks@, h, hs) ==> !knows_in(
                    final(sync).inner.sources@[j].known@,
                    h,
                    hs,
                ),
    {
        sync.learn_source_block(
            self.source_id,
            self.announced_header_number,
            &self.announced_header_hash,
            &self.announced_header_parent_hash,
            self.is_best,
        );
        let hash_for_block = clone_bytes(&self.announced_header_hash);
        let parent_for_block = clone_bytes(&self.announced_header_parent_hash);
        sync.inner.insert_unverified_block(
            self.announced_header_number,
            hash_for_block,
            UnverifiedBlockState::HeaderKnown { parent_hash: parent_for_block },
            user_data,
        );
        proof {
            let n = sync.inner.blocks@.len() as int;
            assert(block_matches(
                sync.inner.blocks@[n - 1],
                self.announced_header_number,
                self.announced_header_hash@,
            ));
            assert(has_block_in(
                sync.inner.blocks@,
                self.announced_header_number,
                self.announced_header_hash@,
            ));
        }
        let parent_is_finalized_chain = bytes_eq(
            &self.announced_header_parent_hash,
            &sync.chain.finalized_hash,
        );
        let banned = sync.is_banned(&self.announced_header_hash);
        if banned || (self.announced_header_number == sync.inner.finalized_height + 1
            && !parent_is_finalized_chain) {
            sync.inner.mark_unverified_block_as_bad(
                self.announced_header_number,
                &self.announced_header_hash,
            );
        }
        let ghost mid = *sync;
        sync.collect_disjoint_overflow();
        proof {
            if old(sync).inner.blocks@.len() + 1 < old(sync).inner.max_disjoint {
                assert(mid.inner == sync.inner);
                let n = sync.inner.blocks@.len() as int;
                assert(block_matches(
                    sync.inner.blocks@[n - 1],
                    self.announced_header_number,
                    self.announced_header_hash@,
                ));
                assert(has_block_in(
                    sync.inner.blocks@,
                    self.announced_header_number,
                    self.announced_header_hash@,
                ));
                let x = block_idx(
                    sync.inner.blocks@,
                    self.announced_header_number,
                    self.announced_header_hash@,
                );
                assert(0 <= x < n && block_matches(
                    sync.inner.blocks@[x],
                    self.announced_header_number,
                    self.announced_header_hash@,
                ));
                if x != n - 1 {
                    assert(block_matches(
                        sync.inner.blocks@[x],
                        sync.inner.blocks@[n - 1].height,
                        sync.inner.blocks@[n - 1].hash@,
                    ));
                    assert(false);
                }
            }
            // a block evicted by the collection pass vanishes from every
            // source's knowledge
            assert forall|j: int, h: u64, hs: Seq<u8>|
                #![trigger knows_in(sync.inner.sources@[j].known@, h, hs)]
                0 <= j < old(sync).inner.sources@.len() && (has_block_in(
                    old(sync).inner.blocks@,
                    h,
                    hs,
                ) || (h == self.announced_header_number && hs == self.announced_header_hash@))
                    && !has_block_in(sync.inner.blocks@, h, hs) implies !knows_in(
                sync.inner.sources@[j].known@,
                h,
                hs,
            ) by {
                let nb = mid.inner.blocks@.len() as int;
                if h == self.announced_header_number && hs == self.announced_header_hash@ {
                    assert(block_matches(mid.inner.blocks@[nb - 1], h, hs));
                    assert(has_block_in(mid.inner.blocks@, h, hs));
                } else {
                    let w = choose|w: int|
                        0 <= w < old(sync).inner.blocks@.len() && block_matches(
                            old(sync).inner.blocks@[w],
                            h,
                            hs,
                        );
                    assert(mid.inner.blocks@[w].height == old(sync).inner.blocks@[w].height
                        && mid.inner.blocks@[w].hash@ == old(sync).inner.blocks@[w].hash@);
                    assert(has_block_in(mid.inner.blocks@, h, hs));
                }
            }
        }
    }
}

/// The disjoint-set entry at index `i` is ready to be verified: its header
/// is known, it is not bad, it is not already in the tree, and its parent is
/// the finalized block or a tree block one height below.
pub open spec fn leaf_ready<TBl, TRq, TSrc>(s: AllForksSync<TBl, TRq, TSrc>, i: int) -> bool {
    let e = s.inner.blocks@[i];
    &&& !e.state.is_bad()
    &&& match e.state {
        UnverifiedBlockState::HeaderKnown { parent_hash } => {
            &&& !has_hash_in(s.chain.blocks@, e.hash@)
            &&& e.hash@ != s.chain.finalized_hash@
            &&& ((parent_hash@ == s.chain.finalized_hash@ && e.height == s.chain.finalized_height
                + 1) || (has_hash_in(s.chain.blocks@, parent_hash@) && s.chain.blocks@[hash_idx(
                s.chain.blocks@,
                parent_hash@,
            )].height + 1 == e.height))
        },
        _ => false,
    }
}

/// Verdict of the external consensus check of a header.
pub enum HeaderVerifyError {
    /// The block uses an unknown consensus engine.
    UnknownConsensusEngine,
    /// The block uses a different consensus than the rest of the chain.
    ConsensusMismatch,
    /// The verification failed; the block is invalid.
    VerificationFailed,
}

/// A header verification to be performed; holds the [`AllForksSync`].
pub struct HeaderVerify<TBl, TRq, TSrc> {
    pub parent: AllForksSync<TBl, TRq, TSrc>,
    pub block_height: u64,
    pub block_hash: Vec<u8>,
}

/// Outcome of [`HeaderVerify::perform`].
pub enum HeaderVerifyOutcome<TBl, TRq, TSrc> {
    /// The header was verified: the block moved from the disjoint set to the
    /// tree of verified blocks.
    Success { is_new_best: bool, sync: AllForksSync<TBl, TRq, TSrc> },
    /// The verification failed: the block is marked bad and stays in the
    /// disjoint set, so that its descendants stay suppressed.
    Error { sync: AllForksSync<TBl, TRq, TSrc>, error: HeaderVerifyError },
}

impl<TBl, TRq, TSrc> HeaderVerify<TBl, TRq, TSrc> {
    /// The engine produced this token: the block it names is ready.
    pub open spec fn wf(self) -> bool {
        &&& self.parent.wf()
        &&& self.parent.inner.has_block(self.block_height, self.block_hash@)
        &&& leaf_ready(
            self.parent,
            block_idx(self.parent.inner.blocks@, self.block_height, self.block_hash@),
        )
    }

    /// Height of the block to be verified.
    pub fn height(&self) -> (r: u64)
        ensures
            r == self.block_height,
    {
        self.block_height
    }

    /// Hash of the block to be verified.
    pub fn hash(&self) -> (r: Vec<u8>)
        ensures
            r@ == self.block_hash@,
    {
        clone_bytes(&self.block_hash)
    }

    /// Do not proceed with the verification.
    pub fn cancel(self) -> (r: AllForksSync<TBl, TRq, TSrc>)
        ensures
            r == self.parent,
    {
        self.parent
    }

    /// Applies the verdict of the external consensus check.
    ///
    /// On success the block moves from the disjoint set to the tree, and
    /// every source's pending finality proofs become verifiable again. On
    /// an error the block is marked bad and stays, so that its descendants
    /// stay suppressed.
    pub fn perform(self, verdict: Result<(), HeaderVerifyError>) -> (r: HeaderVerifyOutcome<
        TBl,
        TRq,
        TSrc,
    >)
        requires
            self.wf(),
        ensures
            match r {
                HeaderVerifyOutcome::Success { is_new_best, sync } => {
                    &&& verdict is Ok
                    &&& sync.wf()
                    &&& !sync.inner.has_block(self.block_height, self.block_hash@)
                    &&& has_hash_in(sync.chain.blocks@, self.block_hash@)
                    &&& sync.chain.blocks@.len() == self.parent.chain.blocks@.len() + 1
                    &&& sync.chain.blocks@.last().height == self.block_height
                    &&& sync.chain.blocks@.last().hash@ == self.block_hash@
                    &&& is_new_best == (self.block_height > self.parent.chain.spec_best_height())
                    &&& sync.inner.sources@ == self.parent.inner.sources@
                    &&& sync.inner.requests@ == self.parent.inner.requests@
                    &&& sync.chain.finalized_height == self.parent.chain.finalized_height
                    &&& sync.finality_slots@.len() == self.parent.finality_slots@.len()
                    &&& forall|i: int|
                        0 <= i < sync.finality_slots@.len() ==> {
                            let pre = self.parent.finality_slots@[i];
                            let post = #[trigger] sync.finality_slots@[i];
                            post.unverified_finality_proofs
                                == crate::finality_slot::spec_merge(
                                pre.unverified_finality_proofs,
                                pre.pending_finality_proofs,
                            ) && post.pending_finality_proofs.count() == 0
                        }
                },
                HeaderVerifyOutcome::Error { sync, error } => {
                    &&& verdict == Result::<(), HeaderVerifyError>::Err(error)
                    &&& sync.wf()
                    &&& sync.chain == self.parent.chain
                    &&& sync.finality_slots == self.parent.finality_slots
                    &&& sync.inner.sources@ == self.parent.inner.sources@
                    &&& sync.inner.requests@ == self.parent.inner.requests@
                    &&& sync.inner.has_block(self.block_height, self.block_hash@)
                    &&& sync.inner.blocks@[block_idx(
                        sync.inner.blocks@,
                        self.block_height,
                        self.block_hash@,
                    )].state.is_bad()
                },
            },
    {
        let mut sync = self.parent;
        match verdict {
            Result::Ok(()) => {
                let i = sync.inner.find_block(self.block_height, &self.block_hash).unwrap();
                let parent_hash = match &sync.inner.block_at(i).state {
                    UnverifiedBlockState::HeaderKnown { parent_hash } => clone_bytes(parent_hash),
                    _ => {
                        proof {
                            assert(false);
                        }
                        Vec::new()
                    },
                };
                let ud = sync.inner.remove_unverified_block(self.block_height, &self.block_hash);
                let is_new_best = sync.chain.insert(
                    self.block_height,
                    clone_bytes(&self.block_hash),
                    parent_hash,
                    ud,
                );
                proof {
                    assert(has_hash_in(sync.chain.blocks@, self.block_hash@)) by {
                        let n = sync.chain.blocks@.len() as int;
                        assert(sync.chain.blocks@[n - 1].hash@ == self.block_hash@);
                    }
                }
                // a new tree block may make pending finality proofs
                // verifiable again: move them back for another attempt
                let ghost pre_loop = sync;
                let ghost pre_slots = sync.finality_slots@;
                let n = sync.finality_slots.len();
                let mut k: usize = 0;
                while k < n
                    invariant
                        sync.chain == pre_loop.chain,
                        sync.inner == pre_loop.inner,
                        sync.banned_blocks == pre_loop.banned_blocks,
                        sync.block_number_bytes == pre_loop.block_number_bytes,
                        sync.allow_unknown_consensus_engines
                            == pre_loop.allow_unknown_consensus_engines,
                        sync.full == pre_loop.full,
                        n == sync.finality_slots@.len(),
                        k <= n,
                        pre_slots.len() == n,
                        forall|j: int|
                            k <= j < n ==> #[trigger] sync.finality_slots@[j] == pre_slots[j],
                        forall|j: int|
                            0 <= j < n ==> (
                            #[trigger] sync.finality_slots@[j]).unverified_finality_proofs.wf()
                                && sync.finality_slots@[j].pending_finality_proofs.wf(),
                        forall|j: int|
                            0 <= j < k ==> {
                                let pre = pre_slots[j];
                                let post = #[trigger] sync.finality_slots@[j];
                                post.unverified_finality_proofs
                                    == crate::finality_slot::spec_merge(
                                    pre.unverified_finality_proofs,
                                    pre.pending_finality_proofs,
                                ) && post.pending_finality_proofs.count() == 0
                            },
                    decreases n - k,
                {
                    let mut slot = sync.finality_slots.remove(k);
                    let mut pending = SourcePendingJustificationProofs::Empty;
                    core::mem::swap(&mut slot.pending_finality_proofs, &mut pending);
                    slot.unverified_finality_proofs.merge(pending);
                    sync.finality_slots.insert(k, slot);
                    k = k + 1;
                }
                HeaderVerifyOutcome::Success { is_new_best, sync }
            },
            Result::Err(error) => {
                let ghost pre_mark = sync;
                sync.inner.mark_unverified_block_as_bad(self.block_height, &self.block_hash);
                proof {
                    let i = block_idx(
                        pre_mark.inner.blocks@,
                        self.block_height,
                        self.block_hash@,
                    );
                    assert(block_matches(
                        sync.inner.blocks@[i],
                        self.block_height,
                        self.block_hash@,
                    ));
                    assert(sync.inner.blocks@[i].state.is_bad());
                    assert(has_block_in(sync.inner.blocks@, self.block_height, self.block_hash@));
                    let x = block_idx(sync.inner.blocks@, self.block_height, self.block_hash@);
                    if x != i {
                        assert(block_matches(
                            sync.inner.blocks@[x],
                            sync.inner.blocks@[i].height,
                            sync.inner.blocks@[i].hash@,
                        ));
                        assert(false);
                    }
                }
                HeaderVerifyOutcome::Error { sync, error }
            },
        }
    }
}

/// Reason a finality proof does not apply, as in the external tree's
/// interface.
pub enum FinalityVerifyError {
    /// The target is the finalized block itself.
    EqualToFinalized,
    /// The target is below the finalized block.
    BelowFinalized,
    /// The target block is not known yet.
    UnknownTargetBlock { block_number: u64 },
    /// The proof targets a block too far ahead of the known chain.
    TooFarAhead { justification_block_number: u64 },
    /// Not enough blocks are known to verify the proof.
    NotEnoughKnownBlocks { target_block_number: u64 },
}

/// Why a GRANDPA commit message was rejected.
pub enum CommitVerifyError {
    /// The target block makes the proof unusable.
    FinalityVerify(FinalityVerifyError),
    /// The external check found the commit itself invalid.
    InvalidCommit,
}

impl<TBl, TRq, TSrc> AllForksSync<TBl, TRq, TSrc> {
    /// Finalizes a tree block in both the tree and the shared structures.
    fn apply_finalize(&mut self, target_height: u64, target_hash: &Vec<u8>) -> (r: (
        Vec<TreeBlock<TBl>>,
        bool,
    ))
        requires
            old(self).wf(),
            has_hash_in(old(self).chain.blocks@, target_hash@),
            old(self).chain.blocks@[hash_idx(old(self).chain.blocks@, target_hash@)].height
                == target_height,
        ensures
            final(self).wf(),
            final(self).chain.finalized_height == target_height,
            final(self).chain.finalized_hash@ == target_hash@,
            final(self).inner.finalized_height == target_height,
            final(self).finality_slots == old(self).finality_slots,
            final(self).inner.requests@ == old(self).inner.requests@,
            target_height > old(self).chain.finalized_height,
            r.0@.len() == target_height - old(self).chain.finalized_height,
            forall|i: int| 0 <= i < r.0@.len() ==> (#[trigger] r.0@[i]).height == target_height - i,
            r.0@.len() > 0 ==> r.0@[0].hash@ == target_hash@,
            forall|i: int|
                0 < i < r.0@.len() ==> (#[trigger] r.0@[i]).hash@ == r.0@[i - 1].parent_hash@,
            r.1 == !(final(self).chain.spec_best_height() == old(self).chain.spec_best_height()
                && final(self).chain.spec_best_hash() == old(self).chain.spec_best_hash()),
    {
        let r = self.chain.finalize(target_height, target_hash);
        proof {
            Seq::lemma_filter_len(
                old(self).inner.blocks@,
                |e: BlockEntry<TBl>| e.height > target_height,
            );
        }
        self.inner.set_finalized_block_height(target_height);
        r
    }

    /// Handles a GRANDPA commit message received from a source.
    ///
    /// The target of the commit is decoded externally, and `valid` reports
    /// the external check of the commit's signatures. When the target is at
    /// or below the finalized block the message silently succeeds; when the
    /// target is not in the tree yet the commit is stored in the source's
    /// pending slot for a later retry; when the target is in the tree and
    /// the commit is valid, the target becomes the new finalized block.
    pub fn grandpa_commit_message(
        &mut self,
        source_id: SourceId,
        target_height: u64,
        target_hash: &Vec<u8>,
        scale_encoded_commit: Vec<u8>,
        valid: bool,
    ) -> (r: Result<(), CommitVerifyError>)
        requires
            old(self).wf(),
            old(self).inner.has_source(source_id.0),
        ensures
            final(self).wf(),
            ({
                let in_tree = has_hash_in(old(self).chain.blocks@, target_hash@)
                    && old(self).chain.blocks@[hash_idx(
                    old(self).chain.blocks@,
                    target_hash@,
                )].height == target_height;
                if target_height <= old(self).inner.finalized_height {
                    r is Ok && *final(self) == *old(self)
                } else if !in_tree {
                    &&& r is Ok
                    &&& final(self).chain == old(self).chain
                    &&& final(self).inner == old(self).inner
                    &&& ({
                        let si = source_idx(old(self).inner.sources@, source_id.0);
                        let slot = old(self).finality_slots@[si];
                        final(self).finality_slots@ == old(self).finality_slots@.update(
                            si,
                            (SourceSlots {
                                unverified_finality_proofs: slot.unverified_finality_proofs,
                                pending_finality_proofs: crate::finality_slot::spec_insert(
                                    slot.pending_finality_proofs,
                                    target_height,
                                    FinalityProofs::GrandpaCommit(scale_encoded_commit),
                                ),
                            }),
                        )
                    })
                } else if valid {
                    r is Ok && final(self).chain.finalized_height == target_height
                        && final(self).chain.finalized_hash@ == target_hash@
                } else {
                    r == Result::<(), CommitVerifyError>::Err(CommitVerifyError::InvalidCommit)
                        && *final(self) == *old(self)
                }
            }),
    {
        if target_height <= self.inner.finalized_height {
            return Result::Ok(());
        }
        let in_tree = match self.chain.find_by_hash(target_hash) {
            Option::Some(i) => self.chain.block_at(i).height == target_height,
            Option::None => false,
        };
        proof {
            if has_hash_in(self.chain.blocks@, target_hash@) {
                let w = hash_idx(self.chain.blocks@, target_hash@);
                assert(0 <= w < self.chain.blocks@.len());
            }
        }
        if !in_tree {
            let si = self.inner.find_source(source_id.0).unwrap();
            let mut slot = self.finality_slots.remove(si);
            slot.pending_finality_proofs.insert(
                target_height,
                FinalityProofs::GrandpaCommit(scale_encoded_commit),
            );
            self.finality_slots.insert(si, slot);
            proof {
                assert(self.finality_slots@ =~= old(self).finality_slots@.update(
                    si as int,
                    self.finality_slots@[si as int],
                ));
            }
            return Result::Ok(());
        }
        if valid {
            self.apply_finalize(target_height, target_hash);
            Result::Ok(())
        } else {
            Result::Err(CommitVerifyError::InvalidCommit)
        }
    }
}

/// A finality-proof verification to be performed; holds the
/// [`AllForksSync`].
pub struct FinalityProofVerify<TBl, TRq, TSrc> {
    pub parent: AllForksSync<TBl, TRq, TSrc>,
    /// Source the proof came from.
    pub source_id: SourceId,
    /// The proof to verify.
    pub finality_proof_to_verify: FinalityProof,
}

/// Outcome of [`FinalityProofVerify::perform`].
pub enum FinalityProofVerifyOutcome<TBl> {
    /// The proof applied: the target block and its ancestors are finalized.
    NewFinalized {
        /// The newly finalized blocks, in decreasing height order.
        finalized_blocks: Vec<TreeBlock<TBl>>,
        /// True if the operation changed the best block.
        updates_best_block: bool,
    },
    /// The proof targets an already-finalized block.
    AlreadyFinalized,
    /// The commit cannot be verified yet and was stored for later.
    GrandpaCommitPending,
    /// The justification did not apply.
    JustificationError,
    /// The commit did not apply.
    GrandpaCommitError,
}

impl<TBl, TRq, TSrc> FinalityProofVerify<TBl, TRq, TSrc> {
    /// The engine produced this token: the source it names is registered.
    pub open spec fn wf(self) -> bool {
        &&& self.parent.wf()
        &&& self.parent.inner.has_source(self.source_id.0)
    }

    /// Do not proceed with the verification; the proof is dropped.
    pub fn cancel(self) -> (r: AllForksSync<TBl, TRq, TSrc>)
        ensures
            r == self.parent,
    {
        self.parent
    }

    /// Applies the externally decoded target and verdict of the proof.
    ///
    /// A proof whose target is at or below the finalized block is already
    /// satisfied. A commit whose target is not in the tree yet returns to
    /// the source's pending slot for a later retry; a justification in the
    /// same position fails. A valid proof targeting a tree block finalizes
    /// it and all its ancestors.
    pub fn perform(self, target_height: u64, target_hash: Vec<u8>, valid: bool) -> (r: (
        AllForksSync<TBl, TRq, TSrc>,
        FinalityProofVerifyOutcome<TBl>,
    ))
        requires
            self.wf(),
        ensures
            r.0.wf(),
            ({
                let in_tree = has_hash_in(self.parent.chain.blocks@, target_hash@)
                    && self.parent.chain.blocks@[hash_idx(
                    self.parent.chain.blocks@,
                    target_hash@,
                )].height == target_height;
                match r.1 {
                    FinalityProofVerifyOutcome::AlreadyFinalized => target_height
                        <= self.parent.inner.finalized_height && r.0 == self.parent,
                    FinalityProofVerifyOutcome::NewFinalized {
                        finalized_blocks,
                        updates_best_block,
                    } => {
                        &&& valid
                        &&& in_tree
                        &&& target_height > self.parent.inner.finalized_height
                        &&& r.0.chain.finalized_height == target_height
                        &&& r.0.chain.finalized_hash@ == target_hash@
                        &&& finalized_blocks@.len() == target_height
                            - self.parent.chain.finalized_height
                        &&& (forall|i: int|
                            0 <= i < finalized_blocks@.len()
                                ==> (#[trigger] finalized_blocks@[i]).height == target_height - i)
                        &&& (finalized_blocks@.len() > 0 ==> finalized_blocks@[0].hash@
                            == target_hash@)
                        &&& updates_best_block == !(r.0.chain.spec_best_height()
                            == self.parent.chain.spec_best_height() && r.0.chain.spec_best_hash()
                            == self.parent.chain.spec_best_hash())
                    },
                    FinalityProofVerifyOutcome::GrandpaCommitPending => {
                        &&& target_height > self.parent.inner.finalized_height
                        &&& !in_tree
                        &&& r.0.chain == self.parent.chain
                        &&& r.0.inner == self.parent.inner
                        &&& ({
                            let si = source_idx(self.parent.inner.sources@, self.source_id.0);
                            let slot = self.parent.finality_slots@[si];
                            self.finality_proof_to_verify
                                matches FinalityProof::GrandpaCommit(commit)
                                && r.0.finality_slots@ == self.parent.finality_slots@.update(
                                si,
                                (SourceSlots {
                                    unverified_finality_proofs: slot.unverified_finality_proofs,
                                    pending_finality_proofs: crate::finality_slot::spec_insert(
                                        slot.pending_finality_proofs,
                                        target_height,
                                        FinalityProofs::GrandpaCommit(commit),
                                    ),
                                }),
                            )
                        })
                    },
                    FinalityProofVerifyOutcome::JustificationError => (
                    self.finality_proof_to_verify is Justification) && (!valid || !in_tree)
                        && target_height > self.parent.inner.finalized_height && r.0
                        == self.parent,
                    FinalityProofVerifyOutcome::GrandpaCommitError => (
                    self.finality_proof_to_verify is GrandpaCommit) && !valid && r.0
                        == self.parent,
                }
            }),
    {
        let mut sync = self.parent;
        if target_height <= sync.inner.finalized_height {
            return (sync, FinalityProofVerifyOutcome::AlreadyFinalized);
        }
        let in_tree = match sync.chain.find_by_hash(&target_hash) {
            Option::Some(i) => sync.chain.block_at(i).height == target_height,
            Option::None => false,
        };
        proof {
            if has_hash_in(sync.chain.blocks@, target_hash@) {
                let w = hash_idx(sync.chain.blocks@, target_hash@);
                assert(0 <= w < sync.chain.blocks@.len());
            }
        }
        if in_tree {
            if valid {
                let (finalized_blocks, updates_best_block) = sync.apply_finalize(
                    target_height,
                    &target_hash,
                );
                (
                    sync,
                    FinalityProofVerifyOutcome::NewFinalized {
                        finalized_blocks,
                        updates_best_block,
                    },
                )
            } else {
                match &self.finality_proof_to_verify {
                    FinalityProof::GrandpaCommit(_) => (
                        sync,
                        FinalityProofVerifyOutcome::GrandpaCommitError,
                    ),
                    FinalityProof::Justification(_) => (
                        sync,
                        FinalityProofVerifyOutcome::JustificationError,
                    ),
                }
            }
        } else {
            match self.finality_proof_to_verify {
                FinalityProof::GrandpaCommit(commit) => {
                    let si = sync.inner.find_source(self.source_id.0).unwrap();
                    let mut slot = sync.finality_slots.remove(si);
                    slot.pending_finality_proofs.insert(
                        target_height,
                        FinalityProofs::GrandpaCommit(commit),
                    );
                    sync.finality_slots.insert(si, slot);
                    proof {
                        assert(sync.finality_slots@ =~= self.parent.finality_slots@.update(
                            si as int,
                            sync.finality_slots@[si as int],
                        ));
                    }
                    (sync, FinalityProofVerifyOutcome::GrandpaCommitPending)
                },
                FinalityProof::Justification(_) => (
                    sync,
                    FinalityProofVerifyOutcome::JustificationError,
                ),
            }
        }
    }
}

/// What [`AllForksSync::process_one`] found to do.
pub enum ProcessOne<TBl, TRq, TSrc> {
    /// Nothing can be verified right now; the machine is yielded back
    /// unchanged. Calling again without feeding new input is useless.
    AllSync { sync: AllForksSync<TBl, TRq, TSrc> },
    /// A header is ready for verification.
    HeaderVerify(HeaderVerify<TBl, TRq, TSrc>),
    /// A finality proof is ready for verification.
    FinalityProofVerify(FinalityProofVerify<TBl, TRq, TSrc>),
}

impl<TBl, TRq, TSrc> AllForksSync<TBl, TRq, TSrc> {
    /// True if the disjoint-set entry at this index is ready to verify.
    fn check_leaf(&self, i: usize) -> (r: bool)
        requires
            self.wf(),
            i < self.inner.blocks@.len(),
        ensures
            r == leaf_ready(*self, i as int),
    {
        let e = self.inner.block_at(i);
        match &e.state {
            UnverifiedBlockState::HeaderKnown { parent_hash } => {
                if self.chain.contains_non_finalized_block(&e.hash) {
                    return false;
                }
                if bytes_eq(&e.hash, &self.chain.finalized_hash) {
                    return false;
                }
                if bytes_eq(parent_hash, &self.chain.finalized_hash) && e.height - 1
                    == self.chain.finalized_height {
                    return true;
                }
                match self.chain.find_by_hash(parent_hash) {
                    Option::Some(j) => self.chain.block_at(j).height == e.height - 1
                        && e.height >= 1,
                    Option::None => false,
                }
            },
            _ => false,
        }
    }

    /// Picks the next verification to perform: a pending finality proof of
    /// some source first, else a disjoint-set block whose parent is
    /// verified. When neither exists the machine is returned unchanged:
    /// calling again is a fixpoint until new input arrives.
    pub fn process_one(self) -> (r: ProcessOne<TBl, TRq, TSrc>)
        requires
            self.wf(),
        ensures
            match r {
                ProcessOne::AllSync { sync } => {
                    &&& sync == self
                    &&& forall|i: int|
                        0 <= i < self.finality_slots@.len() ==> (
                        #[trigger] self.finality_slots@[i]).unverified_finality_proofs.count()
                            == 0
                    &&& forall|i: int|
                        0 <= i < self.inner.blocks@.len() ==> !leaf_ready(self, i)
                },
                ProcessOne::HeaderVerify(v) => {
                    &&& v.wf()
                    &&& v.parent == self
                    &&& (forall|i: int|
                        0 <= i < self.finality_slots@.len() ==> (
                        #[trigger] self.finality_slots@[i]).unverified_finality_proofs.count()
                            == 0)
                    &&& exists|i: int| 0 <= i < self.inner.blocks@.len() && leaf_ready(self, i)
                },
                ProcessOne::FinalityProofVerify(v) => {
                    &&& v.wf()
                    &&& v.parent.chain == self.chain
                    &&& v.parent.inner == self.inner
                    &&& v.parent.finality_slots@.len() == self.finality_slots@.len()
                    &&& exists|i: int|
                        0 <= i < self.finality_slots@.len() && (
                        #[trigger] self.finality_slots@[i]).unverified_finality_proofs.count()
                            > 0
                },
            },
    {
        let mut sync = self;
        let n = sync.finality_slots.len();
        let mut i: usize = 0;
        while i < n
            invariant
                sync == self,
                sync.wf(),
                n == sync.finality_slots@.len(),
                i <= n,
                forall|j: int|
                    0 <= j < i ==> (
                    #[trigger] sync.finality_slots@[j]).unverified_finality_proofs.count() == 0,
            decreases n - i,
        {
            if !sync.finality_slots[i].unverified_finality_proofs.is_none() {
                let source_id = SourceId(sync.inner.sources[i].id);
                proof {
                    assert(sync.inner.sources@[i as int].id == source_id.0);
                    assert(has_source_in(sync.inner.sources@, source_id.0));
                }
                let mut slot = sync.finality_slots.remove(i);
                let taken = slot.unverified_finality_proofs.take_one();
                sync.finality_slots.insert(i, slot);
                proof {
                    assert(sync.finality_slots@ =~= self.finality_slots@.update(
                        i as int,
                        sync.finality_slots@[i as int],
                    ));
                }
                return ProcessOne::FinalityProofVerify(
                    FinalityProofVerify {
                        parent: sync,
                        source_id,
                        finality_proof_to_verify: taken.unwrap(),
                    },
                );
            }
            i = i + 1;
        }
        let m = sync.inner.num_unverified_blocks();
        let mut b: usize = 0;
        while b < m
            invariant
                sync == self,
                sync.wf(),
                m == sync.inner.blocks@.len(),
                b <= m,
                forall|j: int| 0 <= j < b ==> !leaf_ready(self, j),
                forall|j: int|
                    0 <= j < self.finality_slots@.len() ==> (
                    #[trigger] self.finality_slots@[j]).unverified_finality_proofs.count() == 0,
            decreases m - b,
        {
            if sync.check_leaf(b) {
                let e = sync.inner.block_at(b);
                let block_height = e.height;
                let block_hash = clone_bytes(&e.hash);
                proof {
                    assert(block_matches(
                        sync.inner.blocks@[b as int],
                        block_height,
                        block_hash@,
                    ));
                    assert(has_block_in(sync.inner.blocks@, block_height, block_hash@));
                    let x = block_idx(sync.inner.blocks@, block_height, block_hash@);
                    if x != b {
                        assert(block_matches(
                            sync.inner.blocks@[x],
                            sync.inner.blocks@[b as int].height,
                            sync.inner.blocks@[b as int].hash@,
                        ));
                        assert(false);
                    }
                }
                return ProcessOne::HeaderVerify(
                    HeaderVerify { parent: sync, block_height, block_hash },
                );
            }
            b = b + 1;
        }
        ProcessOne::AllSync { sync }
    }
}

/// Error when adding a block from an ancestry-search response.
pub enum AncestrySearchResponseError {
    /// The block header could not be used: a hash has the wrong length.
    InvalidHeader,
    /// The block is not the one expected: the first block must be the
    /// requested one, and each further block the parent of the previous one.
    UnexpectedBlock,
    /// The block claims to sit just above the finalized block but does not
    /// build on it.
    NotFinalizedChain,
    /// The block is at or below the finalized height.
    TooOld,
}

/// A blocks-request response being consumed one block at a time; holds the
/// [`AllForksSync`].
pub struct FinishAncestrySearch<TBl, TRq, TSrc> {
    pub inner: AllForksSync<TBl, TRq, TSrc>,
    /// Source that answered the request.
    pub source_id: SourceId,
    /// True once any block of the response has been accepted.
    pub any_progress: bool,
    /// Hash of the block that was requested.
    pub requested_block_hash: Vec<u8>,
    /// Height of the block that was requested.
    pub requested_block_height: u64,
    /// The next block must carry this hash.
    pub expected_next_hash: Vec<u8>,
    /// The next block must carry this height.
    pub expected_next_height: u64,
}

impl<TBl, TRq, TSrc> FinishAncestrySearch<TBl, TRq, TSrc> {
    /// The engine produced this token: the source it names is registered.
    pub open spec fn wf(self) -> bool {
        &&& self.inner.wf()
        &&& self.inner.inner.has_source(self.source_id.0)
    }
}

impl<TBl, TRq, TSrc> AllForksSync<TBl, TRq, TSrc> {
    /// Starts consuming the successful response to an ancestry search. The
    /// request leaves the request table; its user data is handed back with
    /// a value used to add the response's blocks one by one, in decreasing
    /// height order starting from the requested block.
    pub fn finish_ancestry_search(self, request_id: RequestId) -> (r: (
        TRq,
        FinishAncestrySearch<TBl, TRq, TSrc>,
    ))
        requires
            self.wf(),
            self.inner.has_request(request_id.0),
        ensures
            r.1.wf(),
            !r.1.any_progress,
            ({
                let ri = crate::pending_blocks::request_idx(self.inner.requests@, request_id.0);
                let req = self.inner.requests@[ri];
                &&& r.0 == req.user_data
                &&& r.1.source_id.0 == req.source
                &&& r.1.requested_block_hash@ == req.params.first_block_hash@
                &&& r.1.requested_block_height == req.params.first_block_height
                &&& r.1.expected_next_hash@ == req.params.first_block_hash@
                &&& r.1.expected_next_height == req.params.first_block_height
                &&& r.1.inner.inner.requests@ == self.inner.requests@.remove(ri)
                &&& r.1.inner.chain == self.chain
                &&& r.1.inner.inner.blocks@ == self.inner.blocks@
                &&& r.1.inner.finality_slots == self.finality_slots
                &&& r.1.inner.banned_blocks == self.banned_blocks
                &&& r.1.inner.inner.sources@.len() == self.inner.sources@.len()
                &&& ({
                    let si = source_idx(self.inner.sources@, req.source);
                    &&& (forall|j: int|
                        0 <= j < self.inner.sources@.len() && j != si
                            ==> r.1.inner.inner.sources@[j] == self.inner.sources@[j])
                    &&& ({
                        let s = self.inner.sources@[si];
                        let t = r.1.inner.inner.sources@[si];
                        &&& t.id == s.id
                        &&& t.user_data == s.user_data
                        &&& t.best_height == s.best_height
                        &&& t.best_hash == s.best_hash
                        &&& t.known == s.known
                        &&& t.num_requests == s.num_requests - 1
                    })
                })
            }),
    {
        let mut sync = self;
        let (params, source_id, user_data) = sync.inner.finish_request(request_id);
        let expected_next_hash = clone_bytes(&params.first_block_hash);
        (
            user_data,
            FinishAncestrySearch {
                inner: sync,
                source_id,
                any_progress: false,
                requested_block_hash: params.first_block_hash,
                requested_block_height: params.first_block_height,
                expected_next_hash,
                expected_next_height: params.first_block_height,
            },
        )
    }

    /// Reports that a blocks request failed. The request leaves the request
    /// table; since no block was received, the source is assumed not to know
    /// the requested block after all.
    pub fn ancestry_search_failed(self, request_id: RequestId) -> (r: (
        TRq,
        AllForksSync<TBl, TRq, TSrc>,
    ))
        requires
            self.wf(),
            self.inner.has_request(request_id.0),
        ensures
            r.1.wf(),
            r.1.chain == self.chain,
            r.1.inner.blocks@ == self.inner.blocks@,
            r.0 == self.inner.requests@[crate::pending_blocks::request_idx(
                self.inner.requests@,
                request_id.0,
            )].user_data,
    {
        let (user_data, search) = self.finish_ancestry_search(request_id);
        (user_data, search.finish())
    }
}

/// Result of [`FinishAncestrySearch::add_block`].
pub enum AddBlock<TBl, TRq, TSrc> {
    /// The block is already in the disjoint set.
    AlreadyPending(AddBlockOccupied<TBl, TRq, TSrc>),
    /// The block has not been heard of before.
    UnknownBlock(AddBlockVacant<TBl, TRq, TSrc>),
    /// The block has already been verified and is in the tree.
    AlreadyInChain(AddBlockOccupied<TBl, TRq, TSrc>),
}

/// A response block whose subject is already tracked.
pub struct AddBlockOccupied<TBl, TRq, TSrc> {
    pub inner: FinishAncestrySearch<TBl, TRq, TSrc>,
    pub header_number: u64,
    pub header_hash: Vec<u8>,
    pub header_parent_hash: Vec<u8>,
    pub is_verified: bool,
}

/// A response block whose subject is new.
pub struct AddBlockVacant<TBl, TRq, TSrc> {
    pub inner: FinishAncestrySearch<TBl, TRq, TSrc>,
    pub header_number: u64,
    pub header_hash: Vec<u8>,
    pub header_parent_hash: Vec<u8>,
    pub justifications: Vec<(Vec<u8>, Vec<u8>)>,
}

impl<TBl, TRq, TSrc> FinishAncestrySearch<TBl, TRq, TSrc> {
    /// Adds one block of the response.
    ///
    /// The block must be the expected one: the requested block first, then
    /// each previous block's parent, heights decreasing by one. A block at
    /// or below the finalized height, or one claiming to sit just above the
    /// finalized block without building on it, ends the response with an
    /// error, keeping the blocks already added.
    pub fn add_block(
        self,
        header: Header,
        justifications: Vec<(Vec<u8>, Vec<u8>)>,
    ) -> (r: Result<
        AddBlock<TBl, TRq, TSrc>,
        (AncestrySearchResponseError, AllForksSync<TBl, TRq, TSrc>),
    >)
        requires
            self.wf(),
        ensures
            match r {
                Result::Ok(add) => {
                    &&& header.valid()
                    &&& header.hash@ == self.expected_next_hash@
                    &&& header.number == self.expected_next_height
                    &&& header.number > self.inner.inner.finalized_height
                    &&& match add {
                        AddBlock::AlreadyInChain(t) => has_hash_in(
                            self.inner.chain.blocks@,
                            header.hash@,
                        ) && t.is_verified && ancestry_token_matches(t.inner, self, true) && t.header_number == header.number
                            && t.header_hash@ == header.hash@ && t.header_parent_hash@
                            == header.parent_hash@,
                        AddBlock::AlreadyPending(t) => !has_hash_in(
                            self.inner.chain.blocks@,
                            header.hash@,
                        ) && !(header.number == self.inner.inner.finalized_height + 1
                            && header.parent_hash@ != self.inner.chain.finalized_hash@)
                            && has_block_in(self.inner.inner.blocks@, header.number, header.hash@)
                            && !t.is_verified && ancestry_token_matches(t.inner, self, true)
                            && t.header_number == header.number && t.header_hash@ == header.hash@
                            && t.header_parent_hash@ == header.parent_hash@,
                        AddBlock::UnknownBlock(t) => !has_hash_in(
                            self.inner.chain.blocks@,
                            header.hash@,
                        ) && !(header.number == self.inner.inner.finalized_height + 1
                            && header.parent_hash@ != self.inner.chain.finalized_hash@)
                            && !has_block_in(self.inner.inner.blocks@, header.number, header.hash@)
                            && ancestry_token_matches(t.inner, self, true) && t.header_number
                            == header.number && t.header_hash@ == header.hash@
                            && t.header_parent_hash@ == header.parent_hash@ && t.justifications@
                            == justifications@,
                    }
                },
                Result::Err((e, sync)) => {
                    &&& sync.wf()
                    &&& match e {
                        AncestrySearchResponseError::UnexpectedBlock => header.hash@
                            != self.expected_next_hash@ || header.number
                            != self.expected_next_height,
                        AncestrySearchResponseError::InvalidHeader => !header.valid(),
                        AncestrySearchResponseError::TooOld => header.number
                            <= self.inner.inner.finalized_height,
                        AncestrySearchResponseError::NotFinalizedChain => header.number
                            == self.inner.inner.finalized_height + 1 && header.parent_hash@
                            != self.inner.chain.finalized_hash@,
                    }
                },
            },
    {
        if header.hash.len() != HASH_LEN || header.parent_hash.len() != HASH_LEN {
            return Result::Err((AncestrySearchResponseError::InvalidHeader, self.finish()));
        }
        if !bytes_eq(&header.hash, &self.expected_next_hash) || header.number
            != self.expected_next_height {
            return Result::Err((AncestrySearchResponseError::UnexpectedBlock, self.finish()));
        }
        let mut token = self;
        // from here on, the response has been useful
        token.any_progress = true;
        if header.number <= token.inner.inner.finalized_height {
            return Result::Err((AncestrySearchResponseError::TooOld, token.finish()));
        }
        if token.inner.chain.contains_non_finalized_block(&header.hash) {
            return Result::Ok(
                AddBlock::AlreadyInChain(
                    AddBlockOccupied {
                        inner: token,
                        header_number: header.number,
                        header_hash: header.hash,
                        header_parent_hash: header.parent_hash,
                        is_verified: true,
                    },
                ),
            );
        }
        let parent_is_finalized = bytes_eq(&header.parent_hash, &token.inner.chain.finalized_hash);
        if header.number - 1 == token.inner.inner.finalized_height && !parent_is_finalized {
            return Result::Err((AncestrySearchResponseError::NotFinalizedChain, token.finish()));
        }
        if token.inner.inner.contains_unverified_block(header.number, &header.hash) {
            Result::Ok(
                AddBlock::AlreadyPending(
                    AddBlockOccupied {
                        inner: token,
                        header_number: header.number,
                        header_hash: header.hash,
                        header_parent_hash: header.parent_hash,
                        is_verified: false,
                    },
                ),
            )
        } else {
            Result::Ok(
                AddBlock::UnknownBlock(
                    AddBlockVacant {
                        inner: token,
                        header_number: header.number,
                        header_hash: header.hash,
                        header_parent_hash: header.parent_hash,
                        justifications,
                    },
                ),
            )
        }
    }

    /// Ends the response. If not a single block was accepted, the source is
    /// assumed not to know the requested block after all, so that the same
    /// useless request is not sent to it again; nothing else changes.
    pub fn finish(self) -> (r: AllForksSync<TBl, TRq, TSrc>)
        requires
            self.wf(),
        ensures
            r.wf(),
            r.chain == self.inner.chain,
            r.finality_slots == self.inner.finality_slots,
            r.inner.blocks@ == self.inner.inner.blocks@,
            r.inner.requests@ == self.inner.inner.requests@,
            self.any_progress ==> r == self.inner,
            !self.any_progress ==> ({
                let si = source_idx(self.inner.inner.sources@, self.source_id.0);
                let s = self.inner.inner.sources@[si];
                let t = r.inner.sources@[si];
                &&& r.inner.sources@.len() == self.inner.inner.sources@.len()
                &&& (forall|j: int|
                    0 <= j < self.inner.inner.sources@.len() && j != si ==> r.inner.sources@[j]
                        == self.inner.inner.sources@[j])
                &&& t.id == s.id
                &&& t.user_data == s.user_data
                &&& t.best_height == s.best_height
                &&& t.best_hash == s.best_hash
                &&& t.num_requests == s.num_requests
                &&& !knows_in(t.known@, self.requested_block_height, self.requested_block_hash@)
                &&& (forall|h2: u64, hs2: Seq<u8>|
                    !(h2 == self.requested_block_height && hs2 == self.requested_block_hash@)
                        ==> #[trigger] knows_in(t.known@, h2, hs2) == knows_in(s.known@, h2, hs2))
            }),
    {
        let mut sync = self.inner;
        if !self.any_progress {
            sync.inner.remove_known_block_of_source(
                self.source_id,
                self.requested_block_height,
                &self.requested_block_hash,
            );
        }
        sync
    }
}

/// The continuation token keeps the search's identity; only the progress
/// flag may have been raised.
pub open spec fn ancestry_token_matches<TBl, TRq, TSrc>(
    t: FinishAncestrySearch<TBl, TRq, TSrc>,
    from: FinishAncestrySearch<TBl, TRq, TSrc>,
    progress: bool,
) -> bool {
    &&& t.inner == from.inner
    &&& t.source_id == from.source_id
    &&& t.any_progress == progress
    &&& t.requested_block_hash == from.requested_block_hash
    &&& t.requested_block_height == from.requested_block_height
    &&& t.expected_next_hash@ == from.expected_next_hash@
    &&& t.expected_next_height == from.expected_next_height
}

impl<TBl, TRq, TSrc> AddBlockOccupied<TBl, TRq, TSrc> {
    /// The token names a block present where it claims to be.
    pub open spec fn wf(self) -> bool {
        &&& self.inner.wf()
        &&& self.header_number == self.inner.expected_next_height
        &&& self.header_number > self.inner.inner.inner.finalized_height
        &&& (self.is_verified ==> has_hash_in(self.inner.inner.chain.blocks@, self.header_hash@))
        &&& (!self.is_verified ==> has_block_in(
            self.inner.inner.inner.blocks@,
            self.header_number,
            self.header_hash@,
        ))
    }

    /// Replaces the user data of the block, records that the source knows
    /// the block and its parent, stores the learned parent hash for a
    /// disjoint-set block, and moves on to the parent.
    pub fn replace(self, user_data: TBl) -> (r: (FinishAncestrySearch<TBl, TRq, TSrc>, TBl))
        requires
            self.wf(),
        ensures
            r.0.wf(),
            r.0.source_id == self.inner.source_id,
            r.0.any_progress == self.inner.any_progress,
            r.0.expected_next_hash@ == self.header_parent_hash@,
            r.0.expected_next_height == self.header_number - 1,
            r.0.requested_block_hash == self.inner.requested_block_hash,
            r.0.requested_block_height == self.inner.requested_block_height,
            r.0.inner.chain.blocks@.len() == self.inner.inner.chain.blocks@.len(),
            r.0.inner.inner.blocks@.len() == self.inner.inner.inner.blocks@.len(),
            r.0.inner.inner.requests@ == self.inner.inner.inner.requests@,
    {
        let mut token = self.inner;
        token.inner.learn_source_block(
            token.source_id,
            self.header_number,
            &self.header_hash,
            &self.header_parent_hash,
            false,
        );
        let former = if self.is_verified {
            let mut user_data = user_data;
            token.inner.chain.swap_user_data(&self.header_hash, &mut user_data);
            user_data
        } else {
            let ghost pre_set = token.inner;
            proof {
                assert(has_block_in(
                    token.inner.inner.blocks@,
                    self.header_number,
                    self.header_hash@,
                ));
            }
            token.inner.inner.set_unverified_block_header_known(
                self.header_number,
                &self.header_hash,
                clone_bytes(&self.header_parent_hash),
            );
            proof {
                let i = block_idx(
                    pre_set.inner.blocks@,
                    self.header_number,
                    self.header_hash@,
                );
                assert(block_matches(
                    token.inner.inner.blocks@[i],
                    self.header_number,
                    self.header_hash@,
                ));
                assert(has_block_in(
                    token.inner.inner.blocks@,
                    self.header_number,
                    self.header_hash@,
                ));
            }
            let mut user_data = user_data;
            token.inner.inner.swap_block_user_data(
                self.header_number,
                &self.header_hash,
                &mut user_data,
            );
            user_data
        };
        token.expected_next_hash = self.header_parent_hash;
        token.expected_next_height = self.header_number - 1;
        (token, former)
    }

    /// Do not add this block; ends the response, keeping earlier blocks.
    pub fn cancel(self) -> (r: AllForksSync<TBl, TRq, TSrc>)
        ensures
            r == self.inner.inner,
    {
        self.inner.inner
    }
}

impl<TBl, TRq, TSrc> AddBlockVacant<TBl, TRq, TSrc> {
    /// The token names a block absent from the state.
    pub open spec fn wf(self) -> bool {
        &&& self.inner.wf()
        &&& self.header_number == self.inner.expected_next_height
        &&& self.header_number > self.inner.inner.inner.finalized_height
        &&& !has_block_in(
            self.inner.inner.inner.blocks@,
            self.header_number,
            self.header_hash@,
        )
    }

    /// Inserts the block in the disjoint set with its parent known, records
    /// the source's knowledge, stores any received justifications in the
    /// source's slot, marks the block bad when banned, trims the disjoint
    /// set, and moves on to the parent.
    pub fn insert(self, user_data: TBl) -> (r: FinishAncestrySearch<TBl, TRq, TSrc>)
        requires
            self.wf(),
        ensures
            r.wf(),
            r.source_id == self.inner.source_id,
            r.any_progress == self.inner.any_progress,
            r.expected_next_hash@ == self.header_parent_hash@,
            r.expected_next_height == self.header_number - 1,
            r.requested_block_hash == self.inner.requested_block_hash,
            r.requested_block_height == self.inner.requested_block_height,
            r.inner.chain == self.inner.inner.chain,
            r.inner.inner.requests@ == self.inner.inner.inner.requests@,
            r.inner.inner.blocks@.len() <= r.inner.inner.max_disjoint,
            self.inner.inner.inner.blocks@.len() + 1 < self.inner.inner.inner.max_disjoint
                ==> r.inner.inner.has_block(self.header_number, self.header_hash@),
            forall|j: int, h: u64, hs: Seq<u8>|
                #![trigger knows_in(r.inner.inner.sources@[j].known@, h, hs)]
                0 <= j < self.inner.inner.inner.sources@.len() && (has_block_in(
                    self.inner.inner.inner.blocks@,
                    h,
                    hs,
                ) || (h == self.header_number && hs == self.header_hash@)) && !has_block_in(
                    r.inner.inner.blocks@,
                    h,
                    hs,
                ) ==> !knows_in(r.inner.inner.sources@[j].known@, h, hs),
    {
        let mut token = self.inner;
        let applied = AnnouncedBlockUnknown {
            source_id: token.source_id,
            announced_header_number: self.header_number,
            announced_header_hash: clone_bytes(&self.header_hash),
            announced_header_parent_hash: clone_bytes(&self.header_parent_hash),
            is_best: false,
        };
        let ghost pre_ins = token.inner;
        applied.insert_and_update_source(&mut token.inner, user_data);
        proof {
            let w = source_idx(pre_ins.inner.sources@, token.source_id.0);
            assert(pre_ins.inner.sources@[w].id == token.source_id.0);
            assert(token.inner.inner.sources@[w].id == token.source_id.0);
            assert(has_source_in(token.inner.inner.sources@, token.source_id.0));
        }
        if self.justifications.len() > 0 {
            let si = token.inner.inner.find_source(token.source_id.0).unwrap();
            let mut slot = token.inner.finality_slots.remove(si);
            slot.unverified_finality_proofs.insert(
                self.header_number,
                FinalityProofs::Justifications(self.justifications),
            );
            token.inner.finality_slots.insert(si, slot);
            proof {
                assert(token.inner.finality_slots@.len() == token.inner.inner.sources@.len());
                assert forall|j: int|
                    0 <= j < token.inner.finality_slots@.len() implies (
                #[trigger] token.inner.finality_slots@[j]).unverified_finality_proofs.wf()
                    && token.inner.finality_slots@[j].pending_finality_proofs.wf() by {}
            }
        }
        token.expected_next_hash = self.header_parent_hash;
        token.expected_next_height = self.header_number - 1;
        token
    }

    /// Do not add this block; ends the response, keeping earlier blocks.
    pub fn cancel(self) -> (r: AllForksSync<TBl, TRq, TSrc>)
        ensures
            r == self.inner.inner,
    {
        self.inner.inner
    }
}

/// Number of requests whose first block is (height, hash).
pub open spec fn count_reqs_for_block<TRq>(
    requests: Seq<crate::pending_blocks::RequestEntry<TRq>>,
    height: u64,
    hash: Seq<u8>,
) -> int
    decreases requests.len(),
{
    if requests.len() == 0 {
        0
    } else {
        count_reqs_for_block(requests.drop_last(), height, hash) + if requests.last(
        ).params.first_block_height == height && requests.last().params.first_block_hash@ == hash {
            1int
        } else {
            0int
        }
    }
}

/// The disjoint-set entry at index `i` still needs to be downloaded: it is
/// not bad, not already verified or verifiable, and no lower entry of the
/// set will bridge it to the finalized chain.
pub open spec fn block_needs_download<TBl, TRq, TSrc>(
    s: AllForksSync<TBl, TRq, TSrc>,
    i: int,
) -> bool {
    let e = s.inner.blocks@[i];
    &&& !e.state.is_bad()
    &&& !has_hash_in(s.chain.blocks@, e.hash@)
    &&& !leaf_ready(s, i)
    &&& match e.state.parent() {
        Option::Some(p) => !has_block_in(s.inner.blocks@, (e.height - 1) as u64, p),
        Option::None => true,
    }
}

impl<TBl, TRq, TSrc> AllForksSync<TBl, TRq, TSrc> {
    /// Number of ongoing requests whose first block is (height, hash).
    fn count_block_requests(&self, height: u64, hash: &Vec<u8>) -> (r: u64)
        requires
            self.inner.requests@.len() < u64::MAX,
        ensures
            r == count_reqs_for_block(self.inner.requests@, height, hash@),
    {
        let mut r: u64 = 0;
        let mut i: usize = 0;
        proof {
            assert(self.inner.requests@.take(0) =~= Seq::<
                crate::pending_blocks::RequestEntry<TRq>,
            >::empty());
        }
        while i < self.inner.requests.len()
            invariant
                self.inner.requests@.len() < u64::MAX,
                i <= self.inner.requests@.len(),
                r <= i,
                r == count_reqs_for_block(self.inner.requests@.take(i as int), height, hash@),
            decreases self.inner.requests@.len() - i,
        {
            proof {
                assert(self.inner.requests@.take(i + 1).drop_last() =~= self.inner.requests@.take(
                    i as int,
                ));
                assert(self.inner.requests@.take(i + 1).last() == self.inner.requests@[i as int]);
            }
            let e = &self.inner.requests[i];
            if e.params.first_block_height == height && bytes_eq(&e.params.first_block_hash, hash) {
                r = r + 1;
            }
            i = i + 1;
        }
        proof {
            assert(self.inner.requests@.take(self.inner.requests@.len() as int)
                =~= self.inner.requests@);
        }
        r
    }

    /// The ancestry searches worth starting: for every block of the disjoint
    /// set that still needs to be downloaded and is not yet the subject of
    /// too many requests, one entry per source believed to know it — every
    /// such pair is yielded. Acting on any yielded entry is safe; the set is
    /// not guaranteed minimal.
    #[verifier::rlimit(100)]
    #[verifier::spinoff_prover]
    pub fn desired_requests(&self) -> (r: Vec<(SourceId, RequestParams)>)
        requires
            self.wf(),
            self.inner.requests@.len() < u64::MAX,
        ensures
            forall|k: int|
                0 <= k < r@.len() ==> {
                    let (sid, params) = #[trigger] r@[k];
                    &&& self.inner.has_source(sid.0)
                    &&& self.inner.has_block(params.first_block_height, params.first_block_hash@)
                    &&& block_needs_download(
                        *self,
                        block_idx(
                            self.inner.blocks@,
                            params.first_block_height,
                            params.first_block_hash@,
                        ),
                    )
                    &&& knows_in(
                        self.inner.sources@[source_idx(self.inner.sources@, sid.0)].known@,
                        params.first_block_height,
                        params.first_block_hash@,
                    )
                    &&& count_reqs_for_block(
                        self.inner.requests@,
                        params.first_block_height,
                        params.first_block_hash@,
                    ) < self.inner.max_requests_per_block
                    &&& params.num_blocks == params.first_block_height
                        - self.inner.finalized_height
                },
            forall|i: int, j: int|
                #![trigger self.inner.blocks@[i], self.inner.sources@[j]]
                0 <= i < self.inner.blocks@.len() && block_needs_download(*self, i)
                    && count_reqs_for_block(
                    self.inner.requests@,
                    self.inner.blocks@[i].height,
                    self.inner.blocks@[i].hash@,
                ) < self.inner.max_requests_per_block && 0 <= j < self.inner.sources@.len()
                    && knows_in(
                    self.inner.sources@[j].known@,
                    self.inner.blocks@[i].height,
                    self.inner.blocks@[i].hash@,
                ) ==> exists|k: int|
                    0 <= k < r@.len() && (#[trigger] r@[k]).0.0 == self.inner.sources@[j].id
                        && r@[k].1.first_block_height == self.inner.blocks@[i].height
                        && r@[k].1.first_block_hash@ == self.inner.blocks@[i].hash@,
    {
        let mut r: Vec<(SourceId, RequestParams)> = Vec::new();
        let mut i: usize = 0;
        while i < self.inner.blocks.len()
            invariant
                self.wf(),
                self.inner.requests@.len() < u64::MAX,
                i <= self.inner.blocks@.len(),
                forall|k: int|
                    0 <= k < r@.len() ==> {
                        let (sid, params) = #[trigger] r@[k];
                        &&& self.inner.has_source(sid.0)
                        &&& self.inner.has_block(
                            params.first_block_height,
                            params.first_block_hash@,
                        )
                        &&& block_needs_download(
                            *self,
                            block_idx(
                                self.inner.blocks@,
                                params.first_block_height,
                                params.first_block_hash@,
                            ),
                        )
                        &&& knows_in(
                            self.inner.sources@[source_idx(self.inner.sources@, sid.0)].known@,
                            params.first_block_height,
                            params.first_block_hash@,
                        )
                        &&& count_reqs_for_block(
                            self.inner.requests@,
                            params.first_block_height,
                            params.first_block_hash@,
                        ) < self.inner.max_requests_per_block
                        &&& params.num_blocks == params.first_block_height
                            - self.inner.finalized_height
                    },
                forall|i2: int, j: int|
                    #![trigger self.inner.blocks@[i2], self.inner.sources@[j]]
                    0 <= i2 < i && block_needs_download(*self, i2) && count_reqs_for_block(
                        self.inner.requests@,
                        self.inner.blocks@[i2].height,
                        self.inner.blocks@[i2].hash@,
                    ) < self.inner.max_requests_per_block && 0 <= j < self.inner.sources@.len()
                        && knows_in(
                        self.inner.sources@[j].known@,
                        self.inner.blocks@[i2].height,
                        self.inner.blocks@[i2].hash@,
                    ) ==> exists|k: int|
                        0 <= k < r@.len() && (#[trigger] r@[k]).0.0 == self.inner.sources@[j].id
                            && r@[k].1.first_block_height == self.inner.blocks@[i2].height
                            && r@[k].1.first_block_hash@ == self.inner.blocks@[i2].hash@,
            decreases self.inner.blocks@.len() - i,
        {
            let e = self.inner.block_at(i);
            let height = e.height;
            let hash = clone_bytes(&e.hash);
            let bad = matches!(e.state, UnverifiedBlockState::BadKnown { .. });
            let in_tree = self.chain.contains_non_finalized_block(&hash);
            let ready = self.check_leaf(i);
            let parent_pending = match &e.state {
                UnverifiedBlockState::HeightHashKnown => false,
                UnverifiedBlockState::HeaderKnown { parent_hash } => self.inner
                    .contains_unverified_block(height - 1, parent_hash),
                UnverifiedBlockState::BadKnown { .. } => false,
            };
            let needs = !bad && !in_tree && !ready && !parent_pending;
            proof {
                assert(needs == block_needs_download(*self, i as int));
            }
            let under_cap = needs && self.count_block_requests(height, &hash)
                < self.inner.max_requests_per_block;
            if under_cap {
                proof {
                    assert(block_matches(self.inner.blocks@[i as int], height, hash@));
                    assert(has_block_in(self.inner.blocks@, height, hash@));
                    let x = block_idx(self.inner.blocks@, height, hash@);
                    if x != i {
                        assert(block_matches(
                            self.inner.blocks@[x],
                            self.inner.blocks@[i as int].height,
                            self.inner.blocks@[i as int].hash@,
                        ));
                        assert(false);
                    }
                    assert(block_needs_download(*self, i as int));
                }
                let knowing = self.inner.knows_non_finalized_block(height, &hash);
                let mut k: usize = 0;
                while k < knowing.len()
                    invariant
                        self.wf(),
                        self.inner.requests@.len() < u64::MAX,
                        k <= knowing@.len(),
                        i < self.inner.blocks@.len(),
                        block_matches(self.inner.blocks@[i as int], height, hash@),
                        i == block_idx(self.inner.blocks@, height, hash@),
                        block_needs_download(*self, i as int),
                        height > self.inner.finalized_height,
                        count_reqs_for_block(self.inner.requests@, height, hash@)
                            < self.inner.max_requests_per_block,
                        forall|x: int|
                            0 <= x < knowing@.len() ==> self.inner.has_source(
                                #[trigger] knowing@[x].0,
                            ) && knows_in(
                                self.inner.sources@[source_idx(
                                    self.inner.sources@,
                                    knowing@[x].0,
                                )].known@,
                                height,
                                hash@,
                            ),
                        forall|x: int|
                            0 <= x < r@.len() ==> {
                                let (sid, params) = #[trigger] r@[x];
                                &&& self.inner.has_source(sid.0)
                                &&& self.inner.has_block(
                                    params.first_block_height,
                                    params.first_block_hash@,
                                )
                                &&& block_needs_download(
                                    *self,
                                    block_idx(
                                        self.inner.blocks@,
                                        params.first_block_height,
                                        params.first_block_hash@,
                                    ),
                                )
                                &&& knows_in(
                                    self.inner.sources@[source_idx(
                                        self.inner.sources@,
                                        sid.0,
                                    )].known@,
                                    params.first_block_height,
                                    params.first_block_hash@,
                                )
                                &&& count_reqs_for_block(
                                    self.inner.requests@,
                                    params.first_block_height,
                                    params.first_block_hash@,
                                ) < self.inner.max_requests_per_block
                                &&& params.num_blocks == params.first_block_height
                                    - self.inner.finalized_height
                            },
                        forall|i2: int, j: int|
                            #![trigger self.inner.blocks@[i2], self.inner.sources@[j]]
                            0 <= i2 < i && block_needs_download(*self, i2)
                                && count_reqs_for_block(
                                self.inner.requests@,
                                self.inner.blocks@[i2].height,
                                self.inner.blocks@[i2].hash@,
                            ) < self.inner.max_requests_per_block && 0 <= j
                                < self.inner.sources@.len() && knows_in(
                                self.inner.sources@[j].known@,
                                self.inner.blocks@[i2].height,
                                self.inner.blocks@[i2].hash@,
                            ) ==> exists|kk: int|
                                0 <= kk < r@.len() && (#[trigger] r@[kk]).0.0
                                    == self.inner.sources@[j].id && r@[kk].1.first_block_height
                                    == self.inner.blocks@[i2].height
                                    && r@[kk].1.first_block_hash@
                                    == self.inner.blocks@[i2].hash@,
                        forall|x: int|
                            0 <= x < k ==> exists|kk: int|
                                0 <= kk < r@.len() && (#[trigger] r@[kk]).0.0 == (
                                #[trigger] knowing@[x]).0 && r@[kk].1.first_block_height == height
                                    && r@[kk].1.first_block_hash@ == hash@,
                    decreases knowing@.len() - k,
                {
                    let ghost old_r = r@;
                    r.push(
                        (
                            knowing[k],
                            RequestParams {
                                first_block_hash: clone_bytes(&hash),
                                first_block_height: height,
                                num_blocks: height - self.inner.finalized_height,
                            },
                        ),
                    );
                    proof {
                        assert((r@[r@.len() - 1]).0.0 == knowing@[k as int].0);
                        assert forall|i2: int, j: int|
                            #![trigger self.inner.blocks@[i2], self.inner.sources@[j]]
                            0 <= i2 < i && block_needs_download(*self, i2)
                                && count_reqs_for_block(
                                self.inner.requests@,
                                self.inner.blocks@[i2].height,
                                self.inner.blocks@[i2].hash@,
                            ) < self.inner.max_requests_per_block && 0 <= j
                                < self.inner.sources@.len() && knows_in(
                                self.inner.sources@[j].known@,
                                self.inner.blocks@[i2].height,
                                self.inner.blocks@[i2].hash@,
                            ) implies exists|kk: int|
                            0 <= kk < r@.len() && (#[trigger] r@[kk]).0.0
                                == self.inner.sources@[j].id && r@[kk].1.first_block_height
                                == self.inner.blocks@[i2].height && r@[kk].1.first_block_hash@
                                == self.inner.blocks@[i2].hash@ by {
                            let kk = choose|kk: int|
                                0 <= kk < old_r.len() && (#[trigger] old_r[kk]).0.0
                                    == self.inner.sources@[j].id && old_r[kk].1.first_block_height
                                    == self.inner.blocks@[i2].height
                                    && old_r[kk].1.first_block_hash@
                                    == self.inner.blocks@[i2].hash@;
                            assert(r@[kk] == old_r[kk]);
                        }
                        assert forall|x: int|
                            0 <= x < k + 1 implies exists|kk: int|
                            0 <= kk < r@.len() && (#[trigger] r@[kk]).0.0 == (
                            #[trigger] knowing@[x]).0 && r@[kk].1.first_block_height == height
                                && r@[kk].1.first_block_hash@ == hash@ by {
                            if x < k {
                                let kk = choose|kk: int|
                                    0 <= kk < old_r.len() && (#[trigger] old_r[kk]).0.0
                                        == knowing@[x].0 && old_r[kk].1.first_block_height
                                        == height && old_r[kk].1.first_block_hash@ == hash@;
                                assert(r@[kk] == old_r[kk]);
                            } else {
                                assert((r@[r@.len() - 1]).0.0 == knowing@[x].0);
                            }
                        }
                    }
                    k = k + 1;
                }
                proof {
                    assert forall|j: int|
                        0 <= j < self.inner.sources@.len() && knows_in(
                            #[trigger] self.inner.sources@[j].known@,
                            height,
                            hash@,
                        ) implies exists|kk: int|
                        0 <= kk < r@.len() && (#[trigger] r@[kk]).0.0 == self.inner.sources@[j].id
                            && r@[kk].1.first_block_height == height
                            && r@[kk].1.first_block_hash@ == hash@ by {
                        assert(knowing@.contains(SourceId(self.inner.sources@[j].id)));
                        let x = choose|x: int|
                            0 <= x < knowing@.len() && knowing@[x] == SourceId(
                                self.inner.sources@[j].id,
                            );
                    }
                }
            }
            i = i + 1;
        }
        r
    }

    /// Read access to the user data of a block, verified or not. `None` if
    /// the block is tracked nowhere.
    pub fn block_user_data(&self, height: u64, hash: &Vec<u8>) -> (r: Option<&TBl>)
        requires
            self.wf(),
        ensures
            match r {
                Option::Some(ud) => has_hash_in(self.chain.blocks@, hash@) && *ud
                    == self.chain.blocks@[hash_idx(self.chain.blocks@, hash@)].user_data
                    || self.inner.has_block(height, hash@) && *ud == self.inner.blocks@[block_idx(
                    self.inner.blocks@,
                    height,
                    hash@,
                )].user_data,
                Option::None => !has_hash_in(self.chain.blocks@, hash@) && !self.inner.has_block(
                    height,
                    hash@,
                ),
            },
    {
        match self.chain.find_by_hash(hash) {
            Option::Some(i) => Option::Some(&self.chain.block_at(i).user_data),
            Option::None => {
                match self.inner.find_block(height, hash) {
                    Option::Some(i) => Option::Some(&self.inner.block_at(i).user_data),
                    Option::None => Option::None,
                }
            },
        }
    }
}


/// The disjoint set never outgrows its configured bound: after every public
/// operation, the number of blocks of unknown ancestry is at most
/// `max_disjoint_headers`. Within an operation the count may reach the
/// bound before the collection pass trims it back.
pub proof fn lemma_disjoint_set_bounded<TBl, TRq, TSrc>(s: AllForksSync<TBl, TRq, TSrc>)
    requires
        s.wf(),
    ensures
        s.inner.blocks@.len() <= s.inner.max_disjoint,
{
}

/// Every source's request counter equals the number of entries of the
/// request table that name it, after every public operation.
pub proof fn lemma_request_counters_consistent<TBl, TRq, TSrc>(
    s: AllForksSync<TBl, TRq, TSrc>,
    i: int,
)
    requires
        s.wf(),
        0 <= i < s.inner.sources@.len(),
    ensures
        s.inner.sources@[i].num_requests == count_reqs(s.inner.requests@, s.inner.sources@[i].id),
{
}

/// No block at or below the finalized height is ever present, neither in
/// the disjoint set nor in the tree of verified blocks.
pub proof fn lemma_nothing_below_finality<TBl, TRq, TSrc>(s: AllForksSync<TBl, TRq, TSrc>)
    requires
        s.wf(),
    ensures
        forall|i: int|
            0 <= i < s.inner.blocks@.len() ==> (#[trigger] s.inner.blocks@[i]).height
                > s.chain.finalized_height,
        forall|i: int|
            0 <= i < s.chain.blocks@.len() ==> (#[trigger] s.chain.blocks@[i]).height
                > s.chain.finalized_height,
{
}

} // verus!
