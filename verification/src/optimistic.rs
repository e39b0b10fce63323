//! Optimistic header and body syncing.
//!
//! This engine assumes cooperative sources: it downloads a single canonical
//! chain far ahead of verification through a sliding window of block
//! requests, and rolls the whole chain back to the finalized block on any
//! verification failure, banning the offending source. When every source
//! ends up banned, all of them are unbanned at once, so the download can
//! always make progress.
//!
//! As in the rest of the crate, consensus verification and the runtime
//! virtual machine are external: the engine hands out an opaque runtime
//! token, serves storage reads from its best-to-finalized diff, and consumes
//! verdicts as plain values.

use vstd::prelude::*;

use crate::bytes::clone_bytes;
use crate::tree::{has_hash_in, NonFinalizedTree, TreeBlock};
use crate::verification_queue::{
    count_requested, has_queued_request, lemma_count_requested_nonneg, queued_request_user_data,
    queued_seg_idx, Segment, SegmentState, VerificationQueue,
};

verus! {

/// Identifier for an ongoing request.
#[derive(Debug, Clone, Copy, PartialEq, Eq, Structural, Hash)]
pub struct RequestId(pub u64);

impl RequestId {
    /// A value that compares lower than or equal to any other identifier.
    pub fn min_value() -> (r: RequestId)
        ensures
            r.0 == 0,
    {
        RequestId(0)
    }

    /// A value that compares greater than or equal to any other identifier.
    pub fn max_value() -> (r: RequestId)
        ensures
            r.0 == u64::MAX,
    {
        RequestId(u64::MAX)
    }
}

/// Identifier for a source of blocks.
#[derive(Debug, Clone, Copy, PartialEq, Eq, Structural, Hash)]
pub struct SourceId(pub u64);

/// Opaque handle to a compiled runtime held by the caller. The engine keeps
/// at most one handle for the finalized block and one for the best block,
/// hands the right one out for each body verification, and takes it back
/// afterwards: the handle is never aliased.
pub struct Runtime {
    pub handle: u64,
}

/// Configuration for the [`OptimisticSync`].
pub struct Config {
    /// Height of the latest finalized block.
    pub finalized_block_height: u64,
    /// Hash of the latest finalized block.
    pub finalized_block_hash: Vec<u8>,
    /// Number of bytes used when encoding/decoding block numbers.
    pub block_number_bytes: u64,
    /// Pre-allocated capacity for the number of sources.
    pub sources_capacity: u64,
    /// Pre-allocated capacity for the number of non-finalized blocks.
    pub blocks_capacity: u64,
    /// Number of blocks to download ahead of the best block; at least one.
    pub download_ahead_blocks: u64,
    /// If `Some`, block bodies and storage are also synchronized.
    pub full: Option<ConfigFull>,
}

/// See [`Config::full`].
pub struct ConfigFull {
    /// Runtime of the finalized block.
    pub finalized_runtime: Runtime,
}

/// A block of a successful request's response.
pub struct RequestSuccessBlock<TBl> {
    /// The block's header, as decoded by the external codec.
    pub header: crate::all_forks::Header,
    /// Justifications of the block, each `(consensus engine id, proof)`.
    pub scale_encoded_justifications: Vec<(Vec<u8>, Vec<u8>)>,
    /// The block's body.
    pub scale_encoded_extrinsics: Vec<Vec<u8>>,
    /// Opaque data kept with the block.
    pub user_data: TBl,
}

/// One registered source.
pub struct OptSource<TSrc> {
    pub id: u64,
    pub user_data: TSrc,
    pub best_block_number: u64,
    /// A banned source is not proposed for new requests. The ban is lifted
    /// for everyone at once when it would otherwise silence every source.
    pub banned: bool,
    pub num_ongoing_requests: u64,
}

/// Number of obsolete requests that name the source.
pub open spec fn count_obsolete<TRq>(obsolete: Seq<(u64, u64, TRq)>, sid: u64) -> int
    decreases obsolete.len(),
{
    if obsolete.len() == 0 {
        0
    } else {
        count_obsolete(obsolete.drop_last(), sid) + if obsolete.last().1 == sid {
            1int
        } else {
            0int
        }
    }
}

/// Removing an obsolete request lowers exactly its source's count by one.
pub proof fn lemma_count_obsolete_remove<TRq>(obsolete: Seq<(u64, u64, TRq)>, i: int, sid: u64)
    requires
        0 <= i < obsolete.len(),
    ensures
        count_obsolete(obsolete.remove(i), sid) == count_obsolete(obsolete, sid) - if obsolete[i].1
            == sid {
            1int
        } else {
            0int
        },
    decreases obsolete.len(),
{
    if i == obsolete.len() - 1 {
        assert(obsolete.remove(i) =~= obsolete.drop_last());
    } else {
        let r2 = obsolete.remove(i);
        assert(r2.drop_last() =~= obsolete.drop_last().remove(i));
        assert(r2.last() == obsolete.last());
        lemma_count_obsolete_remove(obsolete.drop_last(), i, sid);
    }
}

/// Appending an obsolete request raises exactly its source's count by one.
pub proof fn lemma_count_obsolete_push<TRq>(
    obsolete: Seq<(u64, u64, TRq)>,
    e: (u64, u64, TRq),
    sid: u64,
)
    ensures
        count_obsolete(obsolete.push(e), sid) == count_obsolete(obsolete, sid) + if e.1 == sid {
            1int
        } else {
            0int
        },
{
    assert(obsolete.push(e).drop_last() =~= obsolete);
    assert(obsolete.push(e).last() == e);
}

/// A source's obsolete count is never negative, and zero exactly when no
/// obsolete request names it.
pub proof fn lemma_count_obsolete_zero<TRq>(obsolete: Seq<(u64, u64, TRq)>, sid: u64)
    ensures
        (count_obsolete(obsolete, sid) == 0) <==> (forall|i: int|
            0 <= i < obsolete.len() ==> obsolete[i].1 != sid),
        count_obsolete(obsolete, sid) >= 0,
    decreases obsolete.len(),
{
    if obsolete.len() > 0 {
        lemma_count_obsolete_zero(obsolete.drop_last(), sid);
        assert(forall|i: int|
            0 <= i < obsolete.len() - 1 ==> obsolete.drop_last()[i] == obsolete[i]);
    }
}

/// Some obsolete request carries this identifier.
pub open spec fn has_obsolete<TRq>(obsolete: Seq<(u64, u64, TRq)>, rid: u64) -> bool {
    exists|i: int| 0 <= i < obsolete.len() && (#[trigger] obsolete[i]).0 == rid
}

/// Index of the obsolete request carrying this identifier.
pub open spec fn obsolete_idx<TRq>(obsolete: Seq<(u64, u64, TRq)>, rid: u64) -> int {
    choose|i: int| 0 <= i < obsolete.len() && (#[trigger] obsolete[i]).0 == rid
}

/// Some source entry carries this identifier.
pub open spec fn has_opt_source<TSrc>(sources: Seq<OptSource<TSrc>>, id: u64) -> bool {
    exists|i: int| 0 <= i < sources.len() && sources[i].id == id
}

/// Index of the source entry carrying this identifier.
pub open spec fn opt_source_idx<TSrc>(sources: Seq<OptSource<TSrc>>, id: u64) -> int {
    choose|i: int| 0 <= i < sources.len() && sources[i].id == id
}

/// The optimistic syncing state machine.
pub struct OptimisticSync<TRq, TSrc, TBl> {
    /// Tree of verified blocks; in this engine it holds a single chain.
    pub chain: NonFinalizedTree<TBl>,
    pub sources: Vec<OptSource<TSrc>>,
    pub next_source_id: u64,
    /// Blocks being downloaded and waiting to be verified.
    pub verification_queue: VerificationQueue<TRq, RequestSuccessBlock<TBl>>,
    /// Justifications of the block that was just verified, with the source
    /// each came from, waiting to be verified in turn.
    pub pending_encoded_justifications: Vec<(Vec<u8>, Vec<u8>, u64)>,
    pub next_request_id: u64,
    /// Requests whose answers are no longer desired: `(id, source, data)`.
    pub obsolete_requests: Vec<(u64, u64, TRq)>,
    /// See [`Config::download_ahead_blocks`].
    pub download_ahead_blocks: u64,
    /// Runtime of the finalized block, when running in full mode and not
    /// lent out.
    pub finalized_runtime: Option<Runtime>,
    /// Runtime of the best block, when it differs from the finalized one.
    pub best_runtime: Option<Runtime>,
    /// Changes in the storage of the best block compared to the finalized
    /// block: `(key, new value or None when erased)`, keys unique.
    pub best_to_finalized_storage_diff: Vec<(Vec<u8>, Option<Vec<u8>>)>,
    /// True when block bodies and storage are synchronized.
    pub full: bool,
}

impl<TRq, TSrc, TBl> OptimisticSync<TRq, TSrc, TBl> {
    /// The queue starts just above the best block; source identifiers are
    /// unique; every counter equals the number of queued plus obsolete
    /// requests naming its source; request identifiers are unique across
    /// the queue and the obsolete list and name existing sources; in full
    /// mode exactly one finalized runtime is held.
    pub open spec fn wf(self) -> bool {
        &&& self.chain.wf()
        &&& self.verification_queue.wf()
        &&& self.verification_queue.base == self.chain.spec_best_height() + 1
        &&& self.download_ahead_blocks >= 1
        &&& forall|i: int, j: int|
            0 <= i < self.sources@.len() && 0 <= j < self.sources@.len() && i != j
                ==> #[trigger] self.sources@[i].id != #[trigger] self.sources@[j].id
        &&& forall|i: int|
            0 <= i < self.sources@.len() ==> (#[trigger] self.sources@[i]).id
                < self.next_source_id
        &&& forall|i: int|
            0 <= i < self.sources@.len() ==> (#[trigger] self.sources@[i]).num_ongoing_requests
                == count_requested(self.verification_queue.segments@, self.sources@[i].id)
                + count_obsolete(self.obsolete_requests@, self.sources@[i].id)
        &&& forall|i: int, j: int|
            0 <= i < self.obsolete_requests@.len() && 0 <= j < self.obsolete_requests@.len() && i
                != j ==> (#[trigger] self.obsolete_requests@[i]).0
                != (#[trigger] self.obsolete_requests@[j]).0
        &&& forall|i: int|
            0 <= i < self.obsolete_requests@.len() ==> !has_queued_request(
                self.verification_queue.segments@,
                (#[trigger] self.obsolete_requests@[i]).0,
            )
        &&& forall|i: int|
            0 <= i < self.verification_queue.segments@.len() ==> match (
            #[trigger] self.verification_queue.segments@[i]).state {
                SegmentState::Requested { request_id, source, .. } => request_id
                    < self.next_request_id && has_opt_source(self.sources@, source),
                _ => true,
            }
        &&& forall|i: int|
            0 <= i < self.obsolete_requests@.len() ==> (
            #[trigger] self.obsolete_requests@[i]).0 < self.next_request_id && has_opt_source(
                self.sources@,
                self.obsolete_requests@[i].1,
            )
        &&& (self.full <==> self.finalized_runtime is Some)
        &&& (self.best_runtime is Some ==> self.full)
    }

    /// A request with this identifier is ongoing, queued or obsolete.
    pub open spec fn has_request(self, rid: u64) -> bool {
        has_queued_request(self.verification_queue.segments@, rid) || has_obsolete(
            self.obsolete_requests@,
            rid,
        )
    }

    /// Builds a new engine.
    pub fn new(config: Config) -> (r: OptimisticSync<TRq, TSrc, TBl>)
        requires
            config.download_ahead_blocks >= 1,
            config.finalized_block_height < u64::MAX,
        ensures
            r.wf(),
            r.chain.finalized_height == config.finalized_block_height,
            r.chain.finalized_hash@ == config.finalized_block_hash@,
            r.chain.blocks@.len() == 0,
            r.sources@.len() == 0,
            r.full == (config.full is Some),
    {
        let full = config.full.is_some();
        let finalized_runtime = match config.full {
            Option::Some(f) => Option::Some(f.finalized_runtime),
            Option::None => Option::None,
        };
        OptimisticSync {
            chain: NonFinalizedTree::new(
                config.finalized_block_height,
                config.finalized_block_hash,
            ),
            sources: Vec::new(),
            next_source_id: 0,
            verification_queue: VerificationQueue::new(config.finalized_block_height + 1),
            pending_encoded_justifications: Vec::new(),
            next_request_id: 0,
            obsolete_requests: Vec::new(),
            download_ahead_blocks: config.download_ahead_blocks,
            finalized_runtime,
            best_runtime: Option::None,
            best_to_finalized_storage_diff: Vec::new(),
            full,
        }
    }

    /// Height of the latest finalized block.
    pub fn finalized_block_height(&self) -> (r: u64)
        ensures
            r == self.chain.finalized_height,
    {
        self.chain.finalized_height
    }

    /// Height of the best block.
    pub fn best_block_number(&self) -> (r: u64)
        requires
            self.wf(),
        ensures
            r == self.chain.spec_best_height(),
    {
        self.chain.best_block_height()
    }

    /// Hash of the best block.
    pub fn best_block_hash(&self) -> (r: Vec<u8>)
        requires
            self.wf(),
        ensures
            r@ == self.chain.spec_best_hash(),
    {
        self.chain.best_block_hash()
    }

    /// Index of the source with this identifier, if any.
    fn find_source(&self, id: u64) -> (r: Option<usize>)
        requires
            forall|i: int, j: int|
                0 <= i < self.sources@.len() && 0 <= j < self.sources@.len() && i != j
                    ==> #[trigger] self.sources@[i].id != #[trigger] self.sources@[j].id,
        ensures
            match r {
                Option::Some(i) => i < self.sources@.len() && self.sources@[i as int].id == id && i
                    == opt_source_idx(self.sources@, id) && has_opt_source(self.sources@, id),
                Option::None => !has_opt_source(self.sources@, id),
            },
    {
        let mut i: usize = 0;
        loop
            invariant
                forall|a: int, b: int|
                    0 <= a < self.sources@.len() && 0 <= b < self.sources@.len() && a != b
                        ==> #[trigger] self.sources@[a].id != #[trigger] self.sources@[b].id,
                i <= self.sources@.len(),
                forall|j: int| 0 <= j < i ==> self.sources@[j].id != id,
            decreases self.sources@.len() - i,
        {
            if i == self.sources.len() {
                return Option::None;
            }
            if self.sources[i].id == id {
                return Option::Some(i);
            }
            i = i + 1;
        }
    }

    /// Registers a new source of blocks.
    pub fn add_source(&mut self, source: TSrc, best_block_number: u64) -> (r: SourceId)
        requires
            old(self).wf(),
            old(self).next_source_id < u64::MAX,
        ensures
            final(self).wf(),
            r.0 == old(self).next_source_id,
            !has_opt_source(old(self).sources@, r.0),
            has_opt_source(final(self).sources@, r.0),
            final(self).sources@.len() == old(self).sources@.len() + 1,
            forall|j: int|
                0 <= j < old(self).sources@.len() ==> final(self).sources@[j] == old(
                    self,
                ).sources@[j],
            ({
                let e = final(self).sources@.last();
                e.id == r.0 && e.user_data == source && e.best_block_number == best_block_number
                    && !e.banned && e.num_ongoing_requests == 0
            }),
            final(self).chain == old(self).chain,
            final(self).verification_queue == old(self).verification_queue,
            final(self).obsolete_requests@ == old(self).obsolete_requests@,
    {
        let id = self.next_source_id;
        self.next_source_id = id + 1;
        self.sources.push(
            OptSource {
                id,
                user_data: source,
                best_block_number,
                banned: false,
                num_ongoing_requests: 0,
            },
        );
        proof {
            let n = old(self).sources@.len() as int;
            assert(forall|j: int| 0 <= j < n ==> self.sources@[j] == old(self).sources@[j]);
            assert(self.sources@[n].id == id);
            lemma_count_requested_nonneg(self.verification_queue.segments@, id);
            lemma_count_obsolete_zero(self.obsolete_requests@, id);
            assert forall|k: int|
                0 <= k < self.obsolete_requests@.len() implies self.obsolete_requests@[k].1
                != id by {
                assert(has_opt_source(old(self).sources@, self.obsolete_requests@[k].1));
            }
            assert(count_obsolete(self.obsolete_requests@, id) == 0);
            assert(count_requested(self.verification_queue.segments@, id) == 0) by {
                lemma_queue_count_zero_for_unknown(
                    self.verification_queue.segments@,
                    old(self).sources@,
                    id,
                );
            }
            assert forall|i: int|
                0 <= i < self.sources@.len() implies (
            #[trigger] self.sources@[i]).num_ongoing_requests == count_requested(
                self.verification_queue.segments@,
                self.sources@[i].id,
            ) + count_obsolete(self.obsolete_requests@, self.sources@[i].id) by {
                if i < n {
                    assert(self.sources@[i] == old(self).sources@[i]);
                }
            }
            assert forall|i: int|
                0 <= i < self.verification_queue.segments@.len() implies match (
            #[trigger] self.verification_queue.segments@[i]).state {
                SegmentState::Requested { request_id, source, .. } => request_id
                    < self.next_request_id && has_opt_source(self.sources@, source),
                _ => true,
            } by {
                match self.verification_queue.segments@[i].state {
                    SegmentState::Requested { source: s2, .. } => {
                        assert(has_opt_source(old(self).sources@, s2));
                        let w = opt_source_idx(old(self).sources@, s2);
                        assert(self.sources@[w].id == s2);
                    },
                    _ => {},
                }
            }
            assert forall|i: int|
                0 <= i < self.obsolete_requests@.len() implies has_opt_source(
                self.sources@,
                (#[trigger] self.obsolete_requests@[i]).1,
            ) by {
                assert(has_opt_source(old(self).sources@, self.obsolete_requests@[i].1));
                let w = opt_source_idx(old(self).sources@, self.obsolete_requests@[i].1);
                assert(self.sources@[w].id == self.obsolete_requests@[i].1);
            }
        }
        SourceId(id)
    }

    /// The best block this source declared.
    pub fn source_best_block(&self, source_id: SourceId) -> (r: u64)
        requires
            self.wf(),
            has_opt_source(self.sources@, source_id.0),
        ensures
            r == self.sources@[opt_source_idx(self.sources@, source_id.0)].best_block_number,
    {
        let i = self.find_source(source_id.0).unwrap();
        self.sources[i].best_block_number
    }

    /// Raises the best known block of the source; lowering is impossible.
    #[verifier::rlimit(60)]
    pub fn raise_source_best_block(&mut self, id: SourceId, best_block_number: u64)
        requires
            old(self).wf(),
            has_opt_source(old(self).sources@, id.0),
        ensures
            final(self).wf(),
            final(self).chain == old(self).chain,
            final(self).verification_queue == old(self).verification_queue,
            final(self).obsolete_requests@ == old(self).obsolete_requests@,
            final(self).sources@.len() == old(self).sources@.len(),
            ({
                let si = opt_source_idx(old(self).sources@, id.0);
                let s = old(self).sources@[si];
                let t = final(self).sources@[si];
                &&& (forall|j: int|
                    0 <= j < old(self).sources@.len() && j != si ==> final(self).sources@[j]
                        == old(self).sources@[j])
                &&& t.id == s.id
                &&& t.user_data == s.user_data
                &&& t.banned == s.banned
                &&& t.num_ongoing_requests == s.num_ongoing_requests
                &&& t.best_block_number == if s.best_block_number < best_block_number {
                    best_block_number
                } else {
                    s.best_block_number
                }
            }),
    {
        let i = self.find_source(id.0).unwrap();
        let mut e = self.sources.remove(i);
        if e.best_block_number < best_block_number {
            e.best_block_number = best_block_number;
        }
        self.sources.insert(i, e);
        proof {
            assert(self.sources@ =~= old(self).sources@.update(i as int, self.sources@[i as int]));
            assert(forall|j: int|
                0 <= j < self.sources@.len() ==> #[trigger] self.sources@[j].id == old(
                    self,
                ).sources@[j].id && self.sources@[j].num_ongoing_requests == old(
                    self,
                ).sources@[j].num_ongoing_requests);
            assert forall|k: int|
                0 <= k < self.verification_queue.segments@.len() implies match (
            #[trigger] self.verification_queue.segments@[k]).state {
                SegmentState::Requested { request_id, source, .. } => request_id
                    < self.next_request_id && has_opt_source(self.sources@, source),
                _ => true,
            } by {
                match self.verification_queue.segments@[k].state {
                    SegmentState::Requested { source: s2, .. } => {
                        assert(has_opt_source(old(self).sources@, s2));
                        let w = opt_source_idx(old(self).sources@, s2);
                        assert(self.sources@[w].id == s2);
                    },
                    _ => {},
                }
            }
            assert forall|k: int|
                0 <= k < self.obsolete_requests@.len() implies has_opt_source(
                self.sources@,
                (#[trigger] self.obsolete_requests@[k]).1,
            ) by {
                assert(has_opt_source(old(self).sources@, self.obsolete_requests@[k].1));
                let w = opt_source_idx(old(self).sources@, self.obsolete_requests@[k].1);
                assert(self.sources@[w].id == self.obsolete_requests@[k].1);
            }
        }
    }

    /// Identifiers of the registered sources, in registration order.
    pub fn sources(&self) -> (r: Vec<SourceId>)
        ensures
            r@.len() == self.sources@.len(),
            forall|i: int| 0 <= i < r@.len() ==> r@[i].0 == self.sources@[i].id,
    {
        let mut r: Vec<SourceId> = Vec::new();
        let mut i: usize = 0;
        while i < self.sources.len()
            invariant
                i <= self.sources@.len(),
                r@.len() == i,
                forall|j: int| 0 <= j < i ==> r@[j].0 == self.sources@[j].id,
            decreases self.sources@.len() - i,
        {
            r.push(SourceId(self.sources[i].id));
            i = i + 1;
        }
        r
    }

    /// Number of ongoing requests that name this source, queued and
    /// obsolete together.
    pub fn source_num_ongoing_requests(&self, source_id: SourceId) -> (r: u64)
        requires
            self.wf(),
            has_opt_source(self.sources@, source_id.0),
        ensures
            r == count_requested(self.verification_queue.segments@, source_id.0) + count_obsolete(
                self.obsolete_requests@,
                source_id.0,
            ),
    {
        let i = self.find_source(source_id.0).unwrap();
        self.sources[i].num_ongoing_requests
    }

    /// Identifiers of the requests whose outcome is no longer desired.
    pub fn obsolete_requests(&self) -> (r: Vec<RequestId>)
        ensures
            r@.len() == self.obsolete_requests@.len(),
            forall|i: int| 0 <= i < r@.len() ==> r@[i].0 == self.obsolete_requests@[i].0,
    {
        let mut r: Vec<RequestId> = Vec::new();
        let mut i: usize = 0;
        while i < self.obsolete_requests.len()
            invariant
                i <= self.obsolete_requests@.len(),
                r@.len() == i,
                forall|j: int| 0 <= j < i ==> r@[j].0 == self.obsolete_requests@[j].0,
            decreases self.obsolete_requests@.len() - i,
        {
            r.push(RequestId(self.obsolete_requests[i].0));
            i = i + 1;
        }
        r
    }
}

/// A request the engine would like to start.
pub struct RequestDetail {
    /// Source to request from.
    pub source_id: SourceId,
    /// Height of the first block to request.
    pub block_height: u64,
    /// Number of blocks to request.
    pub num_blocks: u64,
}

/// How an ended request had been recorded.
pub enum FinishRequestOutcome {
    /// The request had become obsolete; its response is ignored.
    Obsolete,
    /// The response was stored in the verification queue.
    Queued,
}

impl<TRq, TSrc, TBl> OptimisticSync<TRq, TSrc, TBl> {
    /// Every source's registry entry except possibly the banned flags is
    /// unchanged between the two states.
    pub open spec fn same_sources_except_bans(pre: Self, post: Self) -> bool {
        &&& post.sources@.len() == pre.sources@.len()
        &&& forall|j: int|
            0 <= j < pre.sources@.len() ==> {
                let s = pre.sources@[j];
                let t = #[trigger] post.sources@[j];
                t.id == s.id && t.user_data == s.user_data && t.best_block_number
                    == s.best_block_number && t.num_ongoing_requests == s.num_ongoing_requests
            }
    }

    /// Overwrites the banned flag of one source, leaving everything else
    /// in place.
    fn set_ban_flag(&mut self, i: usize, banned: bool)
        requires
            i < old(self).sources@.len(),
        ensures
            final(self).chain == old(self).chain,
            final(self).verification_queue == old(self).verification_queue,
            final(self).obsolete_requests@ == old(self).obsolete_requests@,
            final(self).pending_encoded_justifications == old(
                self,
            ).pending_encoded_justifications,
            final(self).next_request_id == old(self).next_request_id,
            final(self).next_source_id == old(self).next_source_id,
            final(self).download_ahead_blocks == old(self).download_ahead_blocks,
            final(self).finalized_runtime == old(self).finalized_runtime,
            final(self).best_runtime == old(self).best_runtime,
            final(self).best_to_finalized_storage_diff == old(
                self,
            ).best_to_finalized_storage_diff,
            final(self).full == old(self).full,
            final(self).sources@.len() == old(self).sources@.len(),
            forall|j: int|
                0 <= j < old(self).sources@.len() && j != i ==> final(self).sources@[j] == old(
                    self,
                ).sources@[j],
            ({
                let s = old(self).sources@[i as int];
                let t = final(self).sources@[i as int];
                t.id == s.id && t.user_data == s.user_data && t.best_block_number
                    == s.best_block_number && t.num_ongoing_requests == s.num_ongoing_requests
                    && t.banned == banned
            }),
    {
        let mut e = self.sources.remove(i);
        e.banned = banned;
        self.sources.insert(i, e);
        proof {
            assert(self.sources@ =~= old(self).sources@.update(i as int, self.sources@[i as int]));
        }
    }

    /// True when every source is banned.
    fn all_sources_banned(&self) -> (r: bool)
        ensures
            r == (forall|j: int|
                0 <= j < self.sources@.len() ==> (#[trigger] self.sources@[j]).banned),
    {
        let mut j: usize = 0;
        loop
            invariant
                j <= self.sources@.len(),
                forall|k: int| 0 <= k < j ==> (#[trigger] self.sources@[k]).banned,
            decreases self.sources@.len() - j,
        {
            if j == self.sources.len() {
                return true;
            }
            if !self.sources[j].banned {
                return false;
            }
            j = j + 1;
        }
    }

    /// Lifts the ban of every source.
    fn unban_all(&mut self)
        ensures
            final(self).chain == old(self).chain,
            final(self).verification_queue == old(self).verification_queue,
            final(self).obsolete_requests@ == old(self).obsolete_requests@,
            final(self).pending_encoded_justifications == old(
                self,
            ).pending_encoded_justifications,
            final(self).next_request_id == old(self).next_request_id,
            final(self).next_source_id == old(self).next_source_id,
            final(self).download_ahead_blocks == old(self).download_ahead_blocks,
            final(self).finalized_runtime == old(self).finalized_runtime,
            final(self).best_runtime == old(self).best_runtime,
            final(self).best_to_finalized_storage_diff == old(
                self,
            ).best_to_finalized_storage_diff,
            final(self).full == old(self).full,
            final(self).sources@.len() == old(self).sources@.len(),
            forall|j: int|
                0 <= j < old(self).sources@.len() ==> {
                    let s = old(self).sources@[j];
                    let t = #[trigger] final(self).sources@[j];
                    t.id == s.id && t.user_data == s.user_data && t.best_block_number
                        == s.best_block_number && t.num_ongoing_requests
                        == s.num_ongoing_requests && !t.banned
                },
    {
        let mut k: usize = 0;
        while k < self.sources.len()
            invariant
                k <= self.sources@.len(),
                self.chain == old(self).chain,
                self.verification_queue == old(self).verification_queue,
                self.obsolete_requests@ == old(self).obsolete_requests@,
                self.pending_encoded_justifications == old(self).pending_encoded_justifications,
                self.next_request_id == old(self).next_request_id,
                self.next_source_id == old(self).next_source_id,
                self.download_ahead_blocks == old(self).download_ahead_blocks,
                self.finalized_runtime == old(self).finalized_runtime,
                self.best_runtime == old(self).best_runtime,
                self.best_to_finalized_storage_diff == old(self).best_to_finalized_storage_diff,
                self.full == old(self).full,
                self.sources@.len() == old(self).sources@.len(),
                forall|x: int|
                    k <= x < old(self).sources@.len() ==> #[trigger] self.sources@[x] == old(
                        self,
                    ).sources@[x],
                forall|x: int|
                    0 <= x < k ==> {
                        let s = old(self).sources@[x];
                        let t = #[trigger] self.sources@[x];
                        t.id == s.id && t.user_data == s.user_data && t.best_block_number
                            == s.best_block_number && t.num_ongoing_requests
                            == s.num_ongoing_requests && !t.banned
                    },
            decreases self.sources@.len() - k,
        {
            let mut e = self.sources.remove(k);
            e.banned = false;
            self.sources.insert(k, e);
            proof {
                assert(forall|x: int|
                    k < x < self.sources@.len() ==> #[trigger] self.sources@[x] == old(
                        self,
                    ).sources@[x]);
            }
            k = k + 1;
        }
    }

    /// Bans one source; if that would leave every source banned, all bans
    /// are lifted instead, so that requests can always be sent somewhere.
    fn ban_and_maybe_unban(&mut self, i: usize)
        requires
            old(self).wf(),
            i < old(self).sources@.len(),
        ensures
            final(self).wf(),
            final(self).chain == old(self).chain,
            final(self).verification_queue == old(self).verification_queue,
            final(self).obsolete_requests@ == old(self).obsolete_requests@,
            final(self).pending_encoded_justifications == old(
                self,
            ).pending_encoded_justifications,
            Self::same_sources_except_bans(*old(self), *final(self)),
            if forall|j: int|
                0 <= j < old(self).sources@.len() && j != i ==> (
                #[trigger] old(self).sources@[j]).banned {
                forall|j: int|
                    0 <= j < final(self).sources@.len() ==> !(
                    #[trigger] final(self).sources@[j]).banned
            } else {
                final(self).sources@[i as int].banned && forall|j: int|
                    0 <= j < old(self).sources@.len() && j != i ==> (
                    #[trigger] final(self).sources@[j]).banned == old(self).sources@[j].banned
            },
    {
        self.set_ban_flag(i, true);
        if self.all_sources_banned() {
            self.unban_all();
        }
        proof {
            lemma_wf_after_ban_change(*old(self), *self);
        }
    }

    /// The request that a missing span and a covering source combine to.
    pub open spec fn spec_desired_entry(
        sources: Seq<OptSource<TSrc>>,
        j: int,
        start: u64,
        len: u64,
    ) -> RequestDetail {
        RequestDetail {
            source_id: SourceId(sources[j].id),
            block_height: start,
            num_blocks: if sources[j].best_block_number - start + 1 < len {
                (sources[j].best_block_number - start + 1) as u64
            } else {
                len
            },
        }
    }

    /// The requests worth starting: every missing span of the verification
    /// queue, paired with every unbanned source whose declared best block
    /// covers its start, the length clamped to what the source declares to
    /// have. Every such pair is yielded.
    #[verifier::rlimit(100)]
    #[verifier::spinoff_prover]
    pub fn desired_requests(&self) -> (r: Vec<RequestDetail>)
        requires
            self.wf(),
        ensures
            forall|k: int|
                0 <= k < r@.len() ==> {
                    let d = #[trigger] r@[k];
                    &&& has_opt_source(self.sources@, d.source_id.0)
                    &&& !self.sources@[opt_source_idx(self.sources@, d.source_id.0)].banned
                    &&& self.sources@[opt_source_idx(
                        self.sources@,
                        d.source_id.0,
                    )].best_block_number >= d.block_height
                    &&& d.num_blocks >= 1
                    &&& d.block_height + d.num_blocks <= u64::MAX
                    &&& d.block_height > self.chain.spec_best_height()
                },
            forall|i: int, j: int|
                #![trigger self.verification_queue.segments@[i], self.sources@[j]]
                0 <= i < self.verification_queue.segments@.len()
                    && self.verification_queue.segments@[i].state is Missing && 0 <= j
                    < self.sources@.len() && !self.sources@[j].banned
                    && self.sources@[j].best_block_number
                    >= self.verification_queue.segments@[i].start ==> exists|k: int|
                    0 <= k < r@.len() && #[trigger] r@[k] == Self::spec_desired_entry(
                    self.sources@,
                    j,
                    self.verification_queue.segments@[i].start,
                    self.verification_queue.segments@[i].len,
                ),
    {
        let spans = self.verification_queue.desired_requests(self.download_ahead_blocks);
        let mut r: Vec<RequestDetail> = Vec::new();
        let mut i: usize = 0;
        while i < spans.len()
            invariant
                self.wf(),
                i <= spans@.len(),
                forall|x: int|
                    0 <= x < spans@.len() ==> (#[trigger] spans@[x]).1 >= 1 && spans@[x].0
                        >= self.verification_queue.base && spans@[x].0 + spans@[x].1 <= u64::MAX,
                forall|k: int|
                    0 <= k < r@.len() ==> {
                        let d = #[trigger] r@[k];
                        &&& has_opt_source(self.sources@, d.source_id.0)
                        &&& !self.sources@[opt_source_idx(self.sources@, d.source_id.0)].banned
                        &&& self.sources@[opt_source_idx(
                            self.sources@,
                            d.source_id.0,
                        )].best_block_number >= d.block_height
                        &&& d.num_blocks >= 1
                        &&& d.block_height + d.num_blocks <= u64::MAX
                        &&& d.block_height > self.chain.spec_best_height()
                    },
                forall|x: int, j: int|
                    #![trigger spans@[x], self.sources@[j]]
                    0 <= x < i && 0 <= j < self.sources@.len() && !self.sources@[j].banned
                        && self.sources@[j].best_block_number >= spans@[x].0 ==> exists|k: int|
                        0 <= k < r@.len() && #[trigger] r@[k] == Self::spec_desired_entry(
                        self.sources@,
                        j,
                        spans@[x].0,
                        spans@[x].1,
                    ),
            decreases spans@.len() - i,
        {
            let (height, len) = (spans[i].0, spans[i].1);
            let mut j: usize = 0;
            while j < self.sources.len()
                invariant
                    self.wf(),
                    j <= self.sources@.len(),
                    len >= 1,
                    height >= self.verification_queue.base,
                    height + len <= u64::MAX,
                    i < spans@.len(),
                    spans@[i as int] == (height, len),
                    forall|k: int|
                        0 <= k < r@.len() ==> {
                            let d = #[trigger] r@[k];
                            &&& has_opt_source(self.sources@, d.source_id.0)
                            &&& !self.sources@[opt_source_idx(
                                self.sources@,
                                d.source_id.0,
                            )].banned
                            &&& self.sources@[opt_source_idx(
                                self.sources@,
                                d.source_id.0,
                            )].best_block_number >= d.block_height
                            &&& d.num_blocks >= 1
                            &&& d.block_height + d.num_blocks <= u64::MAX
                            &&& d.block_height > self.chain.spec_best_height()
                        },
                    forall|x: int, j2: int|
                        #![trigger spans@[x], self.sources@[j2]]
                        0 <= x < i && 0 <= j2 < self.sources@.len() && !self.sources@[j2].banned
                            && self.sources@[j2].best_block_number >= spans@[x].0
                            ==> exists|k: int|
                            0 <= k < r@.len() && #[trigger] r@[k] == Self::spec_desired_entry(
                            self.sources@,
                            j2,
                            spans@[x].0,
                            spans@[x].1,
                        ),
                    forall|j2: int|
                        0 <= j2 < j && !(#[trigger] self.sources@[j2]).banned
                            && self.sources@[j2].best_block_number >= height ==> exists|k: int|
                            0 <= k < r@.len() && #[trigger] r@[k] == Self::spec_desired_entry(
                            self.sources@,
                            j2,
                            height,
                            len,
                        ),
                decreases self.sources@.len() - j,
            {
                let s = &self.sources[j];
                let ghost old_r = r@;
                if !s.banned && s.best_block_number >= height {
                    let avail = s.best_block_number - height + 1;
                    let num_blocks = if avail < len {
                        avail
                    } else {
                        len
                    };
                    proof {
                        assert(self.sources@[j as int].id == s.id);
                        assert(has_opt_source(self.sources@, s.id));
                        let w = opt_source_idx(self.sources@, s.id);
                        if w != j {
                            assert(self.sources@[w].id != self.sources@[j as int].id);
                            assert(false);
                        }
                    }
                    r.push(
                        RequestDetail { source_id: SourceId(s.id), block_height: height, num_blocks },
                    );
                    proof {
                        assert(r@.last() == Self::spec_desired_entry(
                            self.sources@,
                            j as int,
                            height,
                            len,
                        ));
                        assert forall|x: int, j2: int|
                            #![trigger spans@[x], self.sources@[j2]]
                            0 <= x < i && 0 <= j2 < self.sources@.len()
                                && !self.sources@[j2].banned
                                && self.sources@[j2].best_block_number >= spans@[x].0
                            implies exists|k: int|
                            0 <= k < r@.len() && #[trigger] r@[k] == Self::spec_desired_entry(
                            self.sources@,
                            j2,
                            spans@[x].0,
                            spans@[x].1,
                        ) by {
                            let k = choose|k: int|
                                0 <= k < old_r.len() && #[trigger] old_r[k]
                                    == Self::spec_desired_entry(
                                    self.sources@,
                                    j2,
                                    spans@[x].0,
                                    spans@[x].1,
                                );
                            assert(r@[k] == old_r[k]);
                        }
                        assert forall|j2: int|
                            0 <= j2 < j + 1 && !(#[trigger] self.sources@[j2]).banned
                                && self.sources@[j2].best_block_number >= height
                            implies exists|k: int|
                            0 <= k < r@.len() && #[trigger] r@[k] == Self::spec_desired_entry(
                            self.sources@,
                            j2,
                            height,
                            len,
                        ) by {
                            if j2 < j {
                                let k = choose|k: int|
                                    0 <= k < old_r.len() && #[trigger] old_r[k]
                                        == Self::spec_desired_entry(
                                        self.sources@,
                                        j2,
                                        height,
                                        len,
                                    );
                                assert(r@[k] == old_r[k]);
                            } else {
                                assert(r@[r@.len() - 1] == Self::spec_desired_entry(
                                    self.sources@,
                                    j2,
                                    height,
                                    len,
                                ));
                            }
                        }
                    }
                }
                j = j + 1;
            }
            i = i + 1;
        }
        proof {
            assert forall|i2: int, j2: int|
                #![trigger self.verification_queue.segments@[i2], self.sources@[j2]]
                0 <= i2 < self.verification_queue.segments@.len()
                    && self.verification_queue.segments@[i2].state is Missing && 0 <= j2
                    < self.sources@.len() && !self.sources@[j2].banned
                    && self.sources@[j2].best_block_number
                    >= self.verification_queue.segments@[i2].start implies exists|k: int|
                0 <= k < r@.len() && #[trigger] r@[k] == Self::spec_desired_entry(
                self.sources@,
                j2,
                self.verification_queue.segments@[i2].start,
                self.verification_queue.segments@[i2].len,
            ) by {
                let x = choose|x: int|
                    0 <= x < spans@.len() && #[trigger] spans@[x] == (
                    self.verification_queue.segments@[i2].start,
                    self.verification_queue.segments@[i2].len,
                );
                assert(spans@[x].0 == self.verification_queue.segments@[i2].start);
                assert(spans@[x].1 == self.verification_queue.segments@[i2].len);
            }
        }
        r
    }
}

/// Source of the in-flight request with this identifier.
pub open spec fn queued_source<TRq, TB>(segments: Seq<Segment<TRq, TB>>, rid: u64) -> u64 {
    let i = choose|i: int|
        0 <= i < segments.len() && ((#[trigger] segments[i]).state
            matches SegmentState::Requested { request_id, .. } && request_id == rid);
    match segments[i].state {
        SegmentState::Requested { source, .. } => source,
        _ => 0,
    }
}

/// A zero queue count means no segment names the source.
pub proof fn lemma_count_requested_zero<TRq, TB>(segments: Seq<Segment<TRq, TB>>, sid: u64)
    requires
        count_requested(segments, sid) == 0,
    ensures
        forall|i: int|
            0 <= i < segments.len() ==> !((#[trigger] segments[i]).state
                matches SegmentState::Requested { source, .. } && source == sid),
    decreases segments.len(),
{
    if segments.len() > 0 {
        lemma_count_requested_nonneg(segments.drop_last(), sid);
        assert(crate::verification_queue::seg_contrib(segments.last(), sid) >= 0);
        lemma_count_requested_zero(segments.drop_last(), sid);
        assert(forall|i: int|
            0 <= i < segments.len() - 1 ==> segments.drop_last()[i] == segments[i]);
    }
}

impl<TRq, TSrc, TBl> OptimisticSync<TRq, TSrc, TBl> {
    /// Index of the obsolete request with this identifier, if any.
    fn find_obsolete(&self, rid: u64) -> (r: Option<usize>)
        ensures
            match r {
                Option::Some(i) => i < self.obsolete_requests@.len()
                    && self.obsolete_requests@[i as int].0 == rid && has_obsolete(
                    self.obsolete_requests@,
                    rid,
                ),
                Option::None => !has_obsolete(self.obsolete_requests@, rid),
            },
    {
        let mut i: usize = 0;
        loop
            invariant
                i <= self.obsolete_requests@.len(),
                forall|j: int| 0 <= j < i ==> (#[trigger] self.obsolete_requests@[j]).0 != rid,
            decreases self.obsolete_requests@.len() - i,
        {
            if i == self.obsolete_requests.len() {
                return Option::None;
            }
            if self.obsolete_requests[i].0 == rid {
                return Option::Some(i);
            }
            i = i + 1;
        }
    }

    /// Lowers the counter of the source at registry index `si` by one.
    fn decrement_counter(&mut self, si: usize)
        requires
            si < old(self).sources@.len(),
            old(self).sources@[si as int].num_ongoing_requests >= 1,
        ensures
            final(self).chain == old(self).chain,
            final(self).verification_queue == old(self).verification_queue,
            final(self).obsolete_requests@ == old(self).obsolete_requests@,
            final(self).pending_encoded_justifications == old(
                self,
            ).pending_encoded_justifications,
            final(self).next_request_id == old(self).next_request_id,
            final(self).next_source_id == old(self).next_source_id,
            final(self).download_ahead_blocks == old(self).download_ahead_blocks,
            final(self).finalized_runtime == old(self).finalized_runtime,
            final(self).best_runtime == old(self).best_runtime,
            final(self).best_to_finalized_storage_diff == old(
                self,
            ).best_to_finalized_storage_diff,
            final(self).full == old(self).full,
            final(self).sources@.len() == old(self).sources@.len(),
            forall|j: int|
                0 <= j < old(self).sources@.len() && j != si ==> final(self).sources@[j] == old(
                    self,
                ).sources@[j],
            ({
                let s = old(self).sources@[si as int];
                let t = final(self).sources@[si as int];
                t.id == s.id && t.user_data == s.user_data && t.best_block_number
                    == s.best_block_number && t.banned == s.banned && t.num_ongoing_requests
                    == s.num_ongoing_requests - 1
            }),
    {
        let mut e = self.sources.remove(si);
        e.num_ongoing_requests = e.num_ongoing_requests - 1;
        self.sources.insert(si, e);
        proof {
            assert(self.sources@ =~= old(self).sources@.update(si as int, self.sources@[si as int]));
        }
    }

    /// Drops the obsolete request at list index `i`, lowering its source's
    /// counter.
    #[verifier::rlimit(60)]
    fn settle_obsolete(&mut self, i: usize) -> (r: TRq)
        requires
            old(self).wf(),
            i < old(self).obsolete_requests@.len(),
        ensures
            final(self).wf(),
            final(self).chain == old(self).chain,
            final(self).verification_queue == old(self).verification_queue,
            final(self).pending_encoded_justifications == old(
                self,
            ).pending_encoded_justifications,
            final(self).obsolete_requests@ == old(self).obsolete_requests@.remove(i as int),
            Self::same_sources_except_counts(*old(self), *final(self)),
            r == old(self).obsolete_requests@[i as int].2,
            !has_obsolete(final(self).obsolete_requests@, old(self).obsolete_requests@[i as int].0),
            ({
                let si = opt_source_idx(old(self).sources@, old(self).obsolete_requests@[i as int].1);
                final(self).sources@[si].num_ongoing_requests == old(
                    self,
                ).sources@[si].num_ongoing_requests - 1
            }),
    {
        let entry = self.obsolete_requests.remove(i);
        let (rid, sid, user_data) = entry;
        let si = self.find_source(sid).unwrap();
        proof {
            lemma_count_obsolete_remove(old(self).obsolete_requests@, i as int, sid);
            lemma_count_obsolete_zero(self.obsolete_requests@, sid);
            lemma_count_requested_nonneg(self.verification_queue.segments@, sid);
        }
        self.decrement_counter(si);
        proof {
            lemma_wf_after_obsolete_removed(*old(self), *self, i as int, rid, sid);
            assert(!has_obsolete(self.obsolete_requests@, rid)) by {
                if has_obsolete(self.obsolete_requests@, rid) {
                    let w = choose|w: int|
                        0 <= w < self.obsolete_requests@.len() && (
                        #[trigger] self.obsolete_requests@[w]).0 == rid;
                    let w2 = if w < i { w } else { w + 1 };
                    assert(self.obsolete_requests@[w] == old(self).obsolete_requests@[w2]);
                }
            }
        }
        user_data
    }

    /// Ends the queued request with this identifier, lowering its source's
    /// counter. `blocks` is the response, or `None` for a failure.
    #[verifier::rlimit(60)]
    fn settle_queued(
        &mut self,
        request_id: u64,
        blocks: Option<Vec<RequestSuccessBlock<TBl>>>,
    ) -> (r: (TRq, u64, usize))
        requires
            old(self).wf(),
            has_queued_request(old(self).verification_queue.segments@, request_id),
            !has_obsolete(old(self).obsolete_requests@, request_id),
        ensures
            final(self).wf(),
            final(self).chain == old(self).chain,
            final(self).pending_encoded_justifications == old(
                self,
            ).pending_encoded_justifications,
            final(self).obsolete_requests@ == old(self).obsolete_requests@,
            Self::same_sources_except_counts(*old(self), *final(self)),
            !final(self).has_request(request_id),
            r.1 == queued_source(old(self).verification_queue.segments@, request_id),
            r.0 == queued_request_user_data(old(self).verification_queue.segments@, request_id),
            r.2 < final(self).sources@.len() && final(self).sources@[r.2 as int].id == r.1,
            r.2 < old(self).sources@.len() && old(self).sources@[r.2 as int].id == r.1,
            r.2 as int == opt_source_idx(old(self).sources@, r.1),
            final(self).sources@[r.2 as int].num_ongoing_requests == old(self).sources@[r.2
                as int].num_ongoing_requests - 1,
            (blocks matches Option::Some(bs) ==> ({
                let w = queued_seg_idx(old(self).verification_queue.segments@, request_id);
                let seg = old(self).verification_queue.segments@[w];
                let take: int = if bs@.len() < seg.len {
                    bs@.len() as int
                } else {
                    seg.len as int
                };
                &&& w < final(self).verification_queue.segments@.len()
                &&& final(self).verification_queue.segments@[w].start == seg.start
                &&& if take == 0 {
                    final(self).verification_queue.segments@[w].state is Missing
                } else {
                    final(self).verification_queue.segments@[w].state
                        matches SegmentState::Ready { source: s3, blocks: b3 } && s3 == r.1 && b3@
                        == bs@.take(take)
                }
            })),
    {
        proof {
            let w = choose|w: int|
                0 <= w < old(self).verification_queue.segments@.len() && ((
                #[trigger] old(self).verification_queue.segments@[w]).state
                    matches SegmentState::Requested { request_id: r2, .. } && r2 == request_id);
        }
        let outcome = self.verification_queue.finish_request(request_id, blocks);
        let (sid, user_data) = outcome.unwrap();
        proof {
            let w = choose|w: int|
                0 <= w < old(self).verification_queue.segments@.len() && ((#[trigger] old(
                    self,
                ).verification_queue.segments@[w]).state matches SegmentState::Requested {
                    request_id: rr,
                    source: ss,
                    ..
                } && rr == request_id && ss == sid);
            assert(has_opt_source(self.sources@, sid));
            let i2 = choose|i2: int|
                0 <= i2 < old(self).verification_queue.segments@.len() && ((#[trigger] old(
                    self,
                ).verification_queue.segments@[i2]).state matches SegmentState::Requested {
                    request_id: r3,
                    ..
                } && r3 == request_id);
            if i2 != w {
                assert(false);
            }
            assert(sid == queued_source(old(self).verification_queue.segments@, request_id));
        }
        let si = self.find_source(sid).unwrap();
        proof {
            lemma_count_requested_nonneg(self.verification_queue.segments@, sid);
            lemma_count_obsolete_zero(old(self).obsolete_requests@, sid);
        }
        self.decrement_counter(si);
        proof {
            lemma_wf_after_queue_finish(*old(self), *self, request_id, sid);
            assert(old(self).sources@[si as int].id == sid);
            let v = opt_source_idx(old(self).sources@, sid);
            assert(has_opt_source(old(self).sources@, sid));
            assert(old(self).sources@[v].id == sid);
            if v != si as int {
                assert(false);
            }
        }
        (user_data, sid, si)
    }

    /// Records the successful outcome of a request. An obsolete request's
    /// blocks are dropped; otherwise they fill their segment of the
    /// verification queue. Either way the request is over: its source's
    /// counter drops by one.
    pub fn finish_request_success(
        &mut self,
        request_id: RequestId,
        blocks: Vec<RequestSuccessBlock<TBl>>,
    ) -> (r: (TRq, FinishRequestOutcome))
        requires
            old(self).wf(),
            old(self).has_request(request_id.0),
        ensures
            final(self).wf(),
            final(self).chain == old(self).chain,
            !final(self).has_request(request_id.0),
            (r.1 is Obsolete) == has_obsolete(old(self).obsolete_requests@, request_id.0),
            Self::same_sources_except_counts(*old(self), *final(self)),
            has_obsolete(old(self).obsolete_requests@, request_id.0) ==> ({
                let oi = obsolete_idx(old(self).obsolete_requests@, request_id.0);
                &&& r.0 == old(self).obsolete_requests@[oi].2
                &&& final(self).obsolete_requests@ == old(self).obsolete_requests@.remove(oi)
                &&& final(self).verification_queue == old(self).verification_queue
                &&& ({
                    let si = opt_source_idx(
                        old(self).sources@,
                        old(self).obsolete_requests@[oi].1,
                    );
                    final(self).sources@[si].num_ongoing_requests == old(
                        self,
                    ).sources@[si].num_ongoing_requests - 1
                })
            }),
            !has_obsolete(old(self).obsolete_requests@, request_id.0) ==> ({
                let segs = old(self).verification_queue.segments@;
                let w = queued_seg_idx(segs, request_id.0);
                let seg = segs[w];
                let take: int = if blocks@.len() < seg.len {
                    blocks@.len() as int
                } else {
                    seg.len as int
                };
                &&& r.0 == queued_request_user_data(segs, request_id.0)
                &&& final(self).obsolete_requests@ == old(self).obsolete_requests@
                &&& w < final(self).verification_queue.segments@.len()
                &&& final(self).verification_queue.segments@[w].start == seg.start
                &&& (if take == 0 {
                    final(self).verification_queue.segments@[w].state is Missing
                } else {
                    final(self).verification_queue.segments@[w].state
                        matches SegmentState::Ready { source: s3, blocks: b3 } && s3
                        == queued_source(segs, request_id.0) && b3@ == blocks@.take(take)
                })
                &&& ({
                    let si = opt_source_idx(old(self).sources@, queued_source(segs, request_id.0));
                    final(self).sources@[si].num_ongoing_requests == old(
                        self,
                    ).sources@[si].num_ongoing_requests - 1
                })
            }),
    {
        match self.find_obsolete(request_id.0) {
            Option::Some(i) => {
                let user_data = self.settle_obsolete(i);
                proof {
                    assert(!has_queued_request(self.verification_queue.segments@, request_id.0));
                    let oi = obsolete_idx(old(self).obsolete_requests@, request_id.0);
                    assert(old(self).obsolete_requests@[i as int].0 == request_id.0);
                    if oi != i {
                        assert(old(self).obsolete_requests@[oi].0 == request_id.0);
                        assert(false);
                    }
                }
                (user_data, FinishRequestOutcome::Obsolete)
            },
            Option::None => {
                let (user_data, _, _) = self.settle_queued(
                    request_id.0,
                    Option::Some(blocks),
                );
                (user_data, FinishRequestOutcome::Queued)
            },
        }
    }

    /// Records the failed outcome of a request: its segment goes back to
    /// missing and the serving source is banned. If that would ban every
    /// source, all bans are lifted in the same call, so that the download
    /// never stalls for want of an unbanned source. A failed obsolete
    /// request changes nothing but the bookkeeping.
    #[verifier::rlimit(100)]
    #[verifier::spinoff_prover]
    pub fn finish_request_failed(&mut self, request_id: RequestId) -> (r: TRq)
        requires
            old(self).wf(),
            old(self).has_request(request_id.0),
        ensures
            final(self).wf(),
            final(self).chain == old(self).chain,
            !final(self).has_request(request_id.0),
            final(self).sources@.len() == old(self).sources@.len(),
            has_obsolete(old(self).obsolete_requests@, request_id.0) ==> forall|j: int|
                0 <= j < old(self).sources@.len() ==> (#[trigger] final(self).sources@[j]).banned
                    == old(self).sources@[j].banned,
            !has_obsolete(old(self).obsolete_requests@, request_id.0) ==> ({
                let sid = queued_source(old(self).verification_queue.segments@, request_id.0);
                let si = opt_source_idx(old(self).sources@, sid);
                if forall|j: int|
                    0 <= j < old(self).sources@.len() && j != si ==> (
                    #[trigger] old(self).sources@[j]).banned {
                    forall|j: int|
                        0 <= j < final(self).sources@.len() ==> !(
                        #[trigger] final(self).sources@[j]).banned
                } else {
                    final(self).sources@[si].banned && forall|j: int|
                        0 <= j < old(self).sources@.len() && j != si ==> (
                        #[trigger] final(self).sources@[j]).banned == old(
                            self,
                        ).sources@[j].banned
                }
            }),
    {
        match self.find_obsolete(request_id.0) {
            Option::Some(i) => {
                let user_data = self.settle_obsolete(i);
                proof {
                    assert(!has_queued_request(self.verification_queue.segments@, request_id.0));
                }
                user_data
            },
            Option::None => {
                let (user_data, sid, si) = self.settle_queued(request_id.0, Option::None);
                let ghost mid = *self;
                self.ban_and_maybe_unban(si);
                proof {
                    assert(forall|j: int|
                        0 <= j < mid.sources@.len() ==> (#[trigger] mid.sources@[j]).banned
                            == old(self).sources@[j].banned);
                    if forall|j: int|
                        0 <= j < old(self).sources@.len() && j != si ==> (#[trigger] old(
                            self,
                        ).sources@[j]).banned {
                        assert(forall|j: int|
                            0 <= j < mid.sources@.len() && j != si ==> (
                            #[trigger] mid.sources@[j]).banned);
                        assert(forall|j: int|
                            0 <= j < self.sources@.len() ==> !(
                            #[trigger] self.sources@[j]).banned);
                    } else {
                        let w = choose|w: int|
                            0 <= w < old(self).sources@.len() && w != si && !(#[trigger] old(
                                self,
                            ).sources@[w]).banned;
                        assert(!mid.sources@[w].banned);
                        assert(self.sources@[si as int].banned);
                    }
                }
                user_data
            },
        }
    }

    /// Every source's registry entry except possibly counters and bans is
    /// unchanged between the two states.
    pub open spec fn same_sources_except_counts(pre: Self, post: Self) -> bool {
        &&& post.sources@.len() == pre.sources@.len()
        &&& forall|j: int|
            0 <= j < pre.sources@.len() ==> {
                let s = pre.sources@[j];
                let t = #[trigger] post.sources@[j];
                t.id == s.id && t.user_data == s.user_data && t.best_block_number
                    == s.best_block_number && t.banned == s.banned
            }
    }
}

/// Well-formedness survives dropping one obsolete request, with its
/// source's counter lowered in step.
#[verifier::rlimit(60)]
pub proof fn lemma_wf_after_obsolete_removed<TRq, TSrc, TBl>(
    pre: OptimisticSync<TRq, TSrc, TBl>,
    post: OptimisticSync<TRq, TSrc, TBl>,
    i: int,
    rid: u64,
    sid: u64,
)
    requires
        pre.wf(),
        0 <= i < pre.obsolete_requests@.len(),
        pre.obsolete_requests@[i].0 == rid,
        pre.obsolete_requests@[i].1 == sid,
        post.obsolete_requests@ == pre.obsolete_requests@.remove(i),
        post.chain == pre.chain,
        post.verification_queue == pre.verification_queue,
        post.pending_encoded_justifications == pre.pending_encoded_justifications,
        post.next_request_id == pre.next_request_id,
        post.next_source_id == pre.next_source_id,
        post.download_ahead_blocks == pre.download_ahead_blocks,
        post.finalized_runtime == pre.finalized_runtime,
        post.best_runtime == pre.best_runtime,
        post.full == pre.full,
        post.sources@.len() == pre.sources@.len(),
        ({
            let si = opt_source_idx(pre.sources@, sid);
            &&& has_opt_source(pre.sources@, sid)
            &&& (forall|j: int|
                0 <= j < pre.sources@.len() && j != si ==> post.sources@[j] == pre.sources@[j])
            &&& ({
                let s = pre.sources@[si];
                let t = post.sources@[si];
                t.id == s.id && t.user_data == s.user_data && t.best_block_number
                    == s.best_block_number && t.banned == s.banned && t.num_ongoing_requests
                    == s.num_ongoing_requests - 1
            })
        }),
    ensures
        post.wf(),
{
    let si = opt_source_idx(pre.sources@, sid);
    assert(pre.sources@[si].id == sid);
    assert(forall|j: int|
        0 <= j < post.sources@.len() ==> #[trigger] post.sources@[j].id == pre.sources@[j].id);
    assert forall|j: int|
        0 <= j < post.sources@.len() implies (#[trigger] post.sources@[j]).num_ongoing_requests
        == count_requested(post.verification_queue.segments@, post.sources@[j].id)
        + count_obsolete(post.obsolete_requests@, post.sources@[j].id) by {
        lemma_count_obsolete_remove(pre.obsolete_requests@, i, post.sources@[j].id);
        if j != si {
            assert(post.sources@[j] == pre.sources@[j]);
            assert(post.sources@[j].id != sid);
        }
    }
    assert forall|x: int, y: int|
        0 <= x < post.obsolete_requests@.len() && 0 <= y < post.obsolete_requests@.len() && x != y
        implies (#[trigger] post.obsolete_requests@[x]).0 != (
    #[trigger] post.obsolete_requests@[y]).0 by {
        let x2 = if x < i { x } else { x + 1 };
        let y2 = if y < i { y } else { y + 1 };
        assert(post.obsolete_requests@[x] == pre.obsolete_requests@[x2]);
        assert(post.obsolete_requests@[y] == pre.obsolete_requests@[y2]);
    }
    assert forall|x: int|
        0 <= x < post.obsolete_requests@.len() implies !has_queued_request(
        post.verification_queue.segments@,
        (#[trigger] post.obsolete_requests@[x]).0,
    ) && post.obsolete_requests@[x].0 < post.next_request_id && has_opt_source(
        post.sources@,
        post.obsolete_requests@[x].1,
    ) by {
        let x2 = if x < i { x } else { x + 1 };
        assert(post.obsolete_requests@[x] == pre.obsolete_requests@[x2]);
        assert(!has_queued_request(
            pre.verification_queue.segments@,
            pre.obsolete_requests@[x2].0,
        ));
        assert(has_opt_source(pre.sources@, pre.obsolete_requests@[x2].1));
        let w = opt_source_idx(pre.sources@, pre.obsolete_requests@[x2].1);
        assert(post.sources@[w].id == pre.obsolete_requests@[x2].1);
    }
    assert forall|x: int|
        0 <= x < post.verification_queue.segments@.len() implies match (
    #[trigger] post.verification_queue.segments@[x]).state {
        SegmentState::Requested { request_id, source, .. } => request_id < post.next_request_id
            && has_opt_source(post.sources@, source),
        _ => true,
    } by {
        match post.verification_queue.segments@[x].state {
            SegmentState::Requested { source: s2, .. } => {
                assert(has_opt_source(pre.sources@, s2));
                let w = opt_source_idx(pre.sources@, s2);
                assert(post.sources@[w].id == s2);
            },
            _ => {},
        }
    }
}

/// Well-formedness survives ending a queued request, with its source's
/// counter lowered in step.
#[verifier::rlimit(60)]
pub proof fn lemma_wf_after_queue_finish<TRq, TSrc, TBl>(
    pre: OptimisticSync<TRq, TSrc, TBl>,
    post: OptimisticSync<TRq, TSrc, TBl>,
    rid: u64,
    sid: u64,
)
    requires
        pre.wf(),
        has_opt_source(pre.sources@, sid),
        post.obsolete_requests@ == pre.obsolete_requests@,
        post.chain == pre.chain,
        post.pending_encoded_justifications == pre.pending_encoded_justifications,
        post.next_request_id == pre.next_request_id,
        post.next_source_id == pre.next_source_id,
        post.download_ahead_blocks == pre.download_ahead_blocks,
        post.finalized_runtime == pre.finalized_runtime,
        post.best_runtime == pre.best_runtime,
        post.full == pre.full,
        post.verification_queue.wf(),
        post.verification_queue.base == pre.verification_queue.base,
        count_requested(post.verification_queue.segments@, sid) == count_requested(
            pre.verification_queue.segments@,
            sid,
        ) - 1,
        forall|s2: u64|
            s2 != sid ==> count_requested(post.verification_queue.segments@, s2)
                == count_requested(pre.verification_queue.segments@, s2),
        forall|rid2: u64|
            rid2 != rid ==> has_queued_request(post.verification_queue.segments@, rid2)
                == has_queued_request(pre.verification_queue.segments@, rid2),
        forall|x: int|
            0 <= x < post.verification_queue.segments@.len() ==> match (
            #[trigger] post.verification_queue.segments@[x]).state {
                SegmentState::Requested { .. } => exists|w: int|
                    0 <= w < pre.verification_queue.segments@.len()
                        && pre.verification_queue.segments@[w]
                        == post.verification_queue.segments@[x],
                _ => true,
            },
        post.sources@.len() == pre.sources@.len(),
        ({
            let si = opt_source_idx(pre.sources@, sid);
            &&& (forall|j: int|
                0 <= j < pre.sources@.len() && j != si ==> post.sources@[j] == pre.sources@[j])
            &&& ({
                let s = pre.sources@[si];
                let t = post.sources@[si];
                t.id == s.id && t.user_data == s.user_data && t.best_block_number
                    == s.best_block_number && t.banned == s.banned && t.num_ongoing_requests
                    == s.num_ongoing_requests - 1
            })
        }),
    ensures
        post.wf(),
{
    let si = opt_source_idx(pre.sources@, sid);
    assert(pre.sources@[si].id == sid);
    assert(forall|j: int|
        0 <= j < post.sources@.len() ==> #[trigger] post.sources@[j].id == pre.sources@[j].id);
    assert forall|j: int|
        0 <= j < post.sources@.len() implies (#[trigger] post.sources@[j]).num_ongoing_requests
        == count_requested(post.verification_queue.segments@, post.sources@[j].id)
        + count_obsolete(post.obsolete_requests@, post.sources@[j].id) by {
        if j != si {
            assert(post.sources@[j] == pre.sources@[j]);
            assert(post.sources@[j].id != sid);
        }
    }
    assert forall|x: int|
        0 <= x < post.obsolete_requests@.len() implies !has_queued_request(
        post.verification_queue.segments@,
        (#[trigger] post.obsolete_requests@[x]).0,
    ) && post.obsolete_requests@[x].0 < post.next_request_id && has_opt_source(
        post.sources@,
        post.obsolete_requests@[x].1,
    ) by {
        assert(post.obsolete_requests@[x] == pre.obsolete_requests@[x]);
        assert(!has_queued_request(
            pre.verification_queue.segments@,
            pre.obsolete_requests@[x].0,
        ));
        if has_queued_request(post.verification_queue.segments@, post.obsolete_requests@[x].0) {
            assert(post.obsolete_requests@[x].0 != rid || !has_queued_request(
                post.verification_queue.segments@,
                rid,
            )) by {
                if post.obsolete_requests@[x].0 == rid {
                    if has_queued_request(post.verification_queue.segments@, rid) {
                        let w = choose|w: int|
                            0 <= w < post.verification_queue.segments@.len() && ((
                            #[trigger] post.verification_queue.segments@[w]).state
                                matches SegmentState::Requested { request_id, .. } && request_id
                                == rid);
                        let v = choose|v: int|
                            0 <= v < pre.verification_queue.segments@.len()
                                && pre.verification_queue.segments@[v]
                                == post.verification_queue.segments@[w];
                        assert(has_queued_request(pre.verification_queue.segments@, rid));
                        assert(false);
                    }
                }
            }
            assert(post.obsolete_requests@[x].0 != rid);
        }
        assert(has_opt_source(pre.sources@, pre.obsolete_requests@[x].1));
        let w = opt_source_idx(pre.sources@, pre.obsolete_requests@[x].1);
        assert(post.sources@[w].id == pre.obsolete_requests@[x].1);
    }
    assert forall|x: int|
        0 <= x < post.verification_queue.segments@.len() implies match (
    #[trigger] post.verification_queue.segments@[x]).state {
        SegmentState::Requested { request_id, source, .. } => request_id < post.next_request_id
            && has_opt_source(post.sources@, source),
        _ => true,
    } by {
        match post.verification_queue.segments@[x].state {
            SegmentState::Requested { source: s2, .. } => {
                let v = choose|v: int|
                    0 <= v < pre.verification_queue.segments@.len()
                        && pre.verification_queue.segments@[v]
                        == post.verification_queue.segments@[x];
                assert(has_opt_source(pre.sources@, s2));
                let w = opt_source_idx(pre.sources@, s2);
                assert(post.sources@[w].id == s2);
            },
            _ => {},
        }
    }
}

/// Outcome of composing a next-key lookup with the storage diff.
pub enum NextKeyStep {
    /// The next key of the best block's storage, or `None` when there is
    /// none.
    Found(Option<Vec<u8>>),
    /// The finalized storage's candidate is erased by the diff: the caller
    /// must come back with the finalized storage's next key after this one.
    NextOf(Vec<u8>),
}

/// The diff entry at `i` inserts a key strictly above `key`.
pub open spec fn diff_inserted_above(
    diff: Seq<(Vec<u8>, Option<Vec<u8>>)>,
    key: Seq<u8>,
    i: int,
) -> bool {
    crate::bytes::lex_lt(key, diff[i].0@) && diff_lookup(diff, diff[i].0@) matches Option::Some(
        Option::Some(_),
    )
}

/// Composes the finalized storage's next key after `key` with the
/// best-to-finalized diff, to give the next key of the best block's
/// storage: the smallest candidate among the diff's inserted keys above
/// `key` and the finalized candidate — unless the finalized candidate wins
/// but is erased by the diff, in which case the finalized storage must be
/// asked again past it.
#[verifier::rlimit(100)]
#[verifier::spinoff_prover]
pub fn storage_next_key_in_best(
    diff: &Vec<(Vec<u8>, Option<Vec<u8>>)>,
    key: &Vec<u8>,
    in_finalized: Option<Vec<u8>>,
) -> (r: NextKeyStep)
    requires
        in_finalized matches Option::Some(f) ==> crate::bytes::lex_lt(key@, f@),
    ensures
        match r {
            NextKeyStep::NextOf(k) => {
                &&& in_finalized matches Option::Some(f) && k@ == f@
                &&& diff_lookup(diff@, k@) == Option::Some(Option::<Seq<u8>>::None)
                &&& forall|i: int|
                    0 <= i < diff@.len() && diff_inserted_above(diff@, key@, i)
                        ==> crate::bytes::lex_le(k@, (#[trigger] diff@[i]).0@)
            },
            NextKeyStep::Found(opt) => match opt {
                Option::None => {
                    &&& in_finalized is None
                    &&& forall|i: int| 0 <= i < diff@.len() ==> !diff_inserted_above(diff@, key@, i)
                },
                Option::Some(k) => {
                    &&& crate::bytes::lex_lt(key@, k@)
                    &&& ((exists|i: int|
                        0 <= i < diff@.len() && #[trigger] diff@[i].0@ == k@
                            && diff_inserted_above(diff@, key@, i)) || (in_finalized
                        matches Option::Some(f) && k@ == f@ && diff_lookup(diff@, k@)
                        != Option::Some(Option::<Seq<u8>>::None)))
                    &&& forall|i: int|
                        0 <= i < diff@.len() && diff_inserted_above(diff@, key@, i)
                            ==> crate::bytes::lex_le(k@, (#[trigger] diff@[i]).0@)
                    &&& (in_finalized matches Option::Some(f) ==> crate::bytes::lex_le(k@, f@))
                },
            },
        },
{
    // smallest diff-inserted key strictly above `key`
    let mut dmin: Option<usize> = Option::None;
    let mut i: usize = 0;
    while i < diff.len()
        invariant
            i <= diff@.len(),
            match dmin {
                Option::Some(d) => d < i && diff_inserted_above(diff@, key@, d as int) && forall|
                    x: int,
                |
                    0 <= x < i && diff_inserted_above(diff@, key@, x) ==> crate::bytes::lex_le(
                        diff@[d as int].0@,
                        (#[trigger] diff@[x]).0@,
                    ),
                Option::None => forall|x: int|
                    0 <= x < i ==> !diff_inserted_above(diff@, key@, x),
            },
        decreases diff@.len() - i,
    {
        let above = crate::bytes::bytes_lt(key, &diff[i].0);
        let inserted = match diff_get(diff, &diff[i].0) {
            Option::Some(v) => v.is_some(),
            Option::None => false,
        };
        if above && inserted {
            let ghost prev_dmin = dmin;
            match dmin {
                Option::Some(d) => {
                    if crate::bytes::bytes_lt(&diff[i].0, &diff[d].0) {
                        dmin = Option::Some(i);
                    } else {
                        proof {
                            crate::bytes::lemma_lex_trichotomy(
                                diff@[d as int].0@,
                                diff@[i as int].0@,
                            );
                        }
                    }
                },
                Option::None => {
                    dmin = Option::Some(i);
                },
            }
            proof {
                let d = dmin.unwrap() as int;
                assert forall|x: int|
                    0 <= x < i + 1 && diff_inserted_above(diff@, key@, x) implies
                    crate::bytes::lex_le(diff@[d].0@, (#[trigger] diff@[x]).0@) by {
                    if x < i {
                        let pd = prev_dmin.unwrap() as int;
                        assert(crate::bytes::lex_le(diff@[pd].0@, diff@[x].0@));
                        if d != pd {
                            crate::bytes::lemma_lex_le_transitive(
                                diff@[d].0@,
                                diff@[pd].0@,
                                diff@[x].0@,
                            );
                        }
                    } else {
                        match prev_dmin {
                            Option::Some(pd) => {
                                if d != x {
                                    crate::bytes::lemma_lex_trichotomy(
                                        diff@[d].0@,
                                        diff@[x].0@,
                                    );
                                }
                            },
                            Option::None => {},
                        }
                    }
                }
            }
        }
        i = i + 1;
    }
    match in_finalized {
        Option::Some(f) => {
            let fin_wins = match dmin {
                Option::Some(d) => !crate::bytes::bytes_lt(&diff[d].0, &f),
                Option::None => true,
            };
            if fin_wins {
                proof {
                    match dmin {
                        Option::Some(d) => {
                            crate::bytes::lemma_lex_trichotomy(diff@[d as int].0@, f@);
                        },
                        Option::None => {},
                    }
                }
                let erased = match diff_get(diff, &f) {
                    Option::Some(v) => v.is_none(),
                    Option::None => false,
                };
                proof {
                    assert forall|x: int|
                        0 <= x < diff@.len() && diff_inserted_above(diff@, key@, x) implies
                        crate::bytes::lex_le(f@, (#[trigger] diff@[x]).0@) by {
                        let d = dmin.unwrap() as int;
                        assert(crate::bytes::lex_le(f@, diff@[d].0@));
                        assert(crate::bytes::lex_le(diff@[d].0@, diff@[x].0@));
                        crate::bytes::lemma_lex_le_transitive(f@, diff@[d].0@, diff@[x].0@);
                    }
                }
                if erased {
                    NextKeyStep::NextOf(f)
                } else {
                    NextKeyStep::Found(Option::Some(f))
                }
            } else {
                let d = match dmin {
                    Option::Some(d) => d,
                    Option::None => {
                        proof {
                            assert(false);
                        }
                        vstd::pervasive::unreached()
                    },
                };
                proof {
                    assert(crate::bytes::lex_lt(diff@[d as int].0@, f@));
                }
                NextKeyStep::Found(Option::Some(crate::bytes::clone_bytes(&diff[d].0)))
            }
        },
        Option::None => {
            match dmin {
                Option::Some(d) => NextKeyStep::Found(
                    Option::Some(crate::bytes::clone_bytes(&diff[d].0)),
                ),
                Option::None => NextKeyStep::Found(Option::None),
            }
        },
    }
}

/// Problem that caused a reset to the finalized block.
pub enum ResetCause {
    /// A header could not be decoded.
    InvalidHeader,
    /// A header failed verification.
    HeaderError,
    /// A block body failed verification.
    HeaderBodyError,
    /// The received block does not extend the current best chain.
    NonCanonical,
}

/// What the external body verification produced on success.
pub struct BodySuccess {
    /// Changes this block makes to the storage.
    pub storage_top_trie_changes: Vec<(Vec<u8>, Option<Vec<u8>>)>,
    /// New compiled runtime, when the block changed the runtime code.
    pub new_runtime: Option<Runtime>,
}

/// Value of `key` in the storage diff: `None` when the diff does not cover
/// the key, `Some(None)` when the key was erased, `Some(Some(v))` when it
/// was written.
pub open spec fn diff_lookup(diff: Seq<(Vec<u8>, Option<Vec<u8>>)>, key: Seq<u8>) -> Option<
    Option<Seq<u8>>,
>
    decreases diff.len(),
{
    if diff.len() == 0 {
        Option::None
    } else if diff[0].0@ == key {
        match diff[0].1 {
            Option::Some(v) => Option::Some(Option::Some(v@)),
            Option::None => Option::Some(Option::None),
        }
    } else {
        diff_lookup(diff.skip(1), key)
    }
}

/// The first ready block of the queue.
pub open spec fn spec_first_ready_block<TRq, TBl>(
    q: VerificationQueue<TRq, RequestSuccessBlock<TBl>>,
) -> RequestSuccessBlock<TBl> {
    match q.segments@[0].state {
        SegmentState::Ready { blocks, .. } => blocks@[0],
        _ => vstd::pervasive::arbitrary(),
    }
}

/// The source that served the first ready block of the queue.
pub open spec fn spec_first_ready_source<TRq, TBl>(
    q: VerificationQueue<TRq, RequestSuccessBlock<TBl>>,
) -> u64 {
    match q.segments@[0].state {
        SegmentState::Ready { source, .. } => source,
        _ => vstd::pervasive::arbitrary(),
    }
}

/// A block of the queue ready for verification; holds the
/// [`OptimisticSync`].
pub struct BlockVerify<TRq, TSrc, TBl> {
    pub inner: OptimisticSync<TRq, TSrc, TBl>,
}

/// A block whose body is being verified externally; holds the
/// [`OptimisticSync`].
pub struct BodyVerify<TRq, TSrc, TBl> {
    pub inner: OptimisticSync<TRq, TSrc, TBl>,
}

/// A pending justification ready for verification; holds the
/// [`OptimisticSync`].
pub struct JustificationVerify<TRq, TSrc, TBl> {
    pub inner: OptimisticSync<TRq, TSrc, TBl>,
}

impl<TRq, TSrc, TBl> OptimisticSync<TRq, TSrc, TBl> {
    /// Reads a key of the best block's storage from the diff; `None` means
    /// the value is the finalized block's, which the caller holds.
    pub fn best_block_storage_get(&self, key: &Vec<u8>) -> (r: Option<&Option<Vec<u8>>>)
        ensures
            match r {
                Option::Some(v) => diff_lookup(self.best_to_finalized_storage_diff@, key@)
                    == Option::Some(
                    match v {
                        Option::Some(bytes) => Option::Some(bytes@),
                        Option::None => Option::<Seq<u8>>::None,
                    },
                ),
                Option::None => diff_lookup(self.best_to_finalized_storage_diff@, key@) is None,
            },
    {
        let mut i: usize = 0;
        proof {
            assert(self.best_to_finalized_storage_diff@.skip(0)
                =~= self.best_to_finalized_storage_diff@);
        }
        loop
            invariant
                i <= self.best_to_finalized_storage_diff@.len(),
                diff_lookup(self.best_to_finalized_storage_diff@, key@) == diff_lookup(
                    self.best_to_finalized_storage_diff@.skip(i as int),
                    key@,
                ),
            decreases self.best_to_finalized_storage_diff@.len() - i,
        {
            if i == self.best_to_finalized_storage_diff.len() {
                return Option::None;
            }
            proof {
                assert(self.best_to_finalized_storage_diff@.skip(i as int)[0]
                    == self.best_to_finalized_storage_diff@[i as int]);
                assert(self.best_to_finalized_storage_diff@.skip(i as int).skip(1)
                    =~= self.best_to_finalized_storage_diff@.skip(i + 1));
            }
            if crate::bytes::bytes_eq(&self.best_to_finalized_storage_diff[i].0, key) {
                return Option::Some(&self.best_to_finalized_storage_diff[i].1);
            }
            i = i + 1;
        }
    }

    /// Stores the justifications of a freshly verified block for their own
    /// verification, remembering the source that served the block.
    fn queue_justifications(&mut self, justifications: Vec<(Vec<u8>, Vec<u8>)>, source: u64)
        ensures
            *final(self) == (OptimisticSync {
                pending_encoded_justifications: final(self).pending_encoded_justifications,
                ..*old(self)
            }),
            final(self).pending_encoded_justifications@.len() == old(
                self,
            ).pending_encoded_justifications@.len() + justifications@.len(),
    {
        let ghost total = justifications@.len();
        let mut justifications = justifications;
        while justifications.len() > 0
            invariant
                *self == (OptimisticSync {
                    pending_encoded_justifications: self.pending_encoded_justifications,
                    ..*old(self)
                }),
                justifications@.len() <= total,
                self.pending_encoded_justifications@.len() == old(
                    self,
                ).pending_encoded_justifications@.len() + (total - justifications@.len()),
            decreases justifications@.len(),
        {
            let (engine, blob) = justifications.remove(0);
            self.pending_encoded_justifications.push((engine, blob, source));
        }
    }
}

/// One verified block handed out on finalization.
pub struct Block<TBl> {
    /// Header fields of the block.
    pub header: crate::all_forks::Header,
    /// Justifications attached to the block.
    pub justifications: Vec<(Vec<u8>, Vec<u8>)>,
    /// Opaque data kept with the block.
    pub user_data: TBl,
    /// Body-mode extras, when synchronizing bodies.
    pub full: Option<BlockFull>,
}

/// Body-mode extras of a block.
pub struct BlockFull {
    /// The block's body.
    pub body: Vec<Vec<u8>>,
    /// Changes this block makes to the storage.
    pub storage_top_trie_changes: Vec<(Vec<u8>, Option<Vec<u8>>)>,
    /// Changes this block makes to the off-chain storage.
    pub offchain_storage_changes: Vec<(Vec<u8>, Option<Vec<u8>>)>,
}

/// The raw components of a dismantled engine.
pub struct Disassemble<TRq, TSrc> {
    /// Height of the latest finalized block.
    pub finalized_block_height: u64,
    /// Hash of the latest finalized block.
    pub finalized_block_hash: Vec<u8>,
    /// The sources that were registered.
    pub sources: Vec<DisassembleSource<TSrc>>,
    /// The requests that were ongoing.
    pub requests: Vec<(RequestId, TRq)>,
}

/// See [`Disassemble::sources`].
pub struct DisassembleSource<TSrc> {
    /// Identifier the source had.
    pub id: SourceId,
    /// Opaque data of the source.
    pub user_data: TSrc,
    /// Best block the source declared.
    pub best_block_number: u64,
}

/// What [`OptimisticSync::process_one`] found to do.
pub enum ProcessOne<TRq, TSrc, TBl> {
    /// Nothing can be verified right now; the machine is yielded back
    /// unchanged.
    Idle { sync: OptimisticSync<TRq, TSrc, TBl> },
    /// A downloaded block is ready for verification.
    VerifyBlock(BlockVerify<TRq, TSrc, TBl>),
    /// A justification of the freshly verified block awaits verification.
    VerifyJustification(JustificationVerify<TRq, TSrc, TBl>),
}

/// Result of a block verification step.
pub enum BlockVerification<TRq, TSrc, TBl> {
    /// A problem rolled the chain back to the finalized block; the requests
    /// that were in flight are cancelled and handed back.
    Reset {
        sync: OptimisticSync<TRq, TSrc, TBl>,
        /// Height of the best block before the reset.
        previous_best_height: u64,
        /// What went wrong.
        reason: ResetCause,
        /// The cancelled requests.
        cancelled_requests: Vec<(RequestId, TRq)>,
    },
    /// The block was verified and is the new best block.
    NewBest {
        sync: OptimisticSync<TRq, TSrc, TBl>,
        new_best_number: u64,
        new_best_hash: Vec<u8>,
    },
    /// Full mode: the body must be verified externally with the handed-out
    /// runtime before the verdict comes back through [`BodyVerify::finish`].
    BodyVerify(BodyVerify<TRq, TSrc, TBl>),
}

/// Outcome of a justification verification.
pub enum JustificationVerification<TRq, TBl> {
    /// The justification did not apply: the chain rolled back to the
    /// finalized block and the in-flight requests are handed back.
    Reset {
        /// Height of the best block before the reset.
        previous_best_height: u64,
        /// The cancelled requests.
        cancelled_requests: Vec<(RequestId, TRq)>,
    },
    /// The best block and its ancestors are now finalized; they are listed
    /// in increasing height order.
    Finalized { finalized_blocks: Vec<TreeBlock<TBl>> },
}

impl<TRq, TSrc, TBl> OptimisticSync<TRq, TSrc, TBl> {
    /// The block's header extends the current best chain.
    pub open spec fn spec_canonical(self, header: crate::all_forks::Header) -> bool {
        &&& header.valid()
        &&& header.number == self.chain.spec_best_height() + 1
        &&& header.parent_hash@ == self.chain.spec_best_hash()
        &&& !has_hash_in(self.chain.blocks@, header.hash@)
        &&& header.hash@ != self.chain.finalized_hash@
    }

    /// True if the header extends the current best chain.
    fn is_canonical_child(&self, header: &crate::all_forks::Header) -> (r: bool)
        requires
            self.wf(),
        ensures
            r == self.spec_canonical(*header),
    {
        if header.hash.len() != crate::bytes::HASH_LEN || header.parent_hash.len()
            != crate::bytes::HASH_LEN {
            return false;
        }
        let best = self.chain.best_block_height();
        let best_hash = self.chain.best_block_hash();
        if header.number != best + 1 {
            proof {
                assert(self.verification_queue.base == self.chain.spec_best_height() + 1);
            }
            return false;
        }
        if !crate::bytes::bytes_eq(&header.parent_hash, &best_hash) {
            return false;
        }
        if self.chain.contains_non_finalized_block(&header.hash) {
            return false;
        }
        if crate::bytes::bytes_eq(&header.hash, &self.chain.finalized_hash) {
            return false;
        }
        true
    }

    /// Number of obsolete requests naming the source, counted directly.
    fn count_obsolete_for(&self, sid: u64) -> (r: usize)
        ensures
            r == count_obsolete(self.obsolete_requests@, sid),
    {
        let mut r: usize = 0;
        let mut i: usize = 0;
        proof {
            assert(self.obsolete_requests@.take(0).len() == 0);
        }
        while i < self.obsolete_requests.len()
            invariant
                i <= self.obsolete_requests@.len(),
                r <= i,
                r == count_obsolete(self.obsolete_requests@.take(i as int), sid),
            decreases self.obsolete_requests@.len() - i,
        {
            proof {
                assert(self.obsolete_requests@.take(i + 1).drop_last()
                    =~= self.obsolete_requests@.take(i as int));
                assert(self.obsolete_requests@.take(i + 1).last()
                    == self.obsolete_requests@[i as int]);
            }
            if self.obsolete_requests[i].1 == sid {
                r = r + 1;
            }
            i = i + 1;
        }
        proof {
            assert(self.obsolete_requests@.take(self.obsolete_requests@.len() as int)
                =~= self.obsolete_requests@);
        }
        r
    }

    /// Rolls the engine back to the finalized block: the tree, the storage
    /// diff, the pending justifications and the best-block runtime are
    /// discarded; the download window restarts just above the finalized
    /// block; every in-flight request is cancelled and handed back, the
    /// counters following suit.
    #[verifier::rlimit(100)]
    #[verifier::spinoff_prover]
    fn reset_to_finalized(&mut self) -> (r: Vec<(RequestId, TRq)>)
        requires
            old(self).wf(),
        ensures
            final(self).wf(),
            final(self).chain.blocks@.len() == 0,
            final(self).chain.finalized_height == old(self).chain.finalized_height,
            final(self).chain.finalized_hash@ == old(self).chain.finalized_hash@,
            final(self).chain.spec_best_height() == old(self).chain.finalized_height,
            final(self).sources@.len() == old(self).sources@.len(),
            Self::same_sources_except_counts(*old(self), *final(self)),
            forall|j: int|
                0 <= j < old(self).sources@.len() ==> (#[trigger] final(self).sources@[j]).banned
                    == old(self).sources@[j].banned,
            final(self).full == old(self).full,
            final(self).best_to_finalized_storage_diff@.len() == 0,
            final(self).best_runtime is None,
            final(self).pending_encoded_justifications@.len() == 0,
            final(self).obsolete_requests@ == old(self).obsolete_requests@,
            final(self).verification_queue.segments@.len() == 0,
            final(self).verification_queue.base == old(self).chain.finalized_height + 1,
    {
        proof {
            match old(self).chain.best {
                Option::Some(b) => {
                    assert(old(self).chain.blocks@[b as int].height
                        > old(self).chain.finalized_height);
                },
                Option::None => {},
            }
            assert(old(self).chain.finalized_height < u64::MAX);
        }
        let fin_height = self.chain.finalized_height;
        let fin_hash = clone_bytes(&self.chain.finalized_hash);
        let mut fresh_chain: NonFinalizedTree<TBl> = NonFinalizedTree::new(fin_height, fin_hash);
        core::mem::swap(&mut self.chain, &mut fresh_chain);
        let drained = self.verification_queue.drain_all(fin_height + 1);
        self.pending_encoded_justifications = Vec::new();
        self.best_to_finalized_storage_diff = Vec::new();
        self.best_runtime = Option::None;
        proof {
            crate::verification_queue::lemma_count_requested_from_contrib(
                self.verification_queue.segments@,
                0,
            );
        }
        let n = self.sources.len();
        let mut si: usize = 0;
        while si < n
            invariant
                n == self.sources@.len(),
                si <= n,
                self.sources@.len() == old(self).sources@.len(),
                self.chain.wf(),
                self.chain.blocks@.len() == 0,
                self.chain.finalized_height == old(self).chain.finalized_height,
                self.chain.finalized_hash@ == old(self).chain.finalized_hash@,
                self.verification_queue.wf(),
                self.verification_queue.segments@.len() == 0,
                self.verification_queue.base == old(self).chain.finalized_height + 1,
                self.next_source_id == old(self).next_source_id,
                self.next_request_id == old(self).next_request_id,
                self.download_ahead_blocks == old(self).download_ahead_blocks,
                self.download_ahead_blocks >= 1,
                self.finalized_runtime == old(self).finalized_runtime,
                self.best_runtime is None,
                self.full == old(self).full,
                (self.full <==> self.finalized_runtime is Some),
                self.pending_encoded_justifications@.len() == 0,
                self.best_to_finalized_storage_diff@.len() == 0,
                self.obsolete_requests@ == old(self).obsolete_requests@,
                forall|a: int, b: int|
                    0 <= a < old(self).sources@.len() && 0 <= b < old(self).sources@.len() && a
                        != b ==> #[trigger] old(self).sources@[a].id != #[trigger] old(
                        self,
                    ).sources@[b].id,
                forall|j: int|
                    si <= j < n ==> #[trigger] self.sources@[j] == old(self).sources@[j],
                forall|j: int|
                    0 <= j < si ==> {
                        let s = old(self).sources@[j];
                        let t = #[trigger] self.sources@[j];
                        t.id == s.id && t.user_data == s.user_data && t.best_block_number
                            == s.best_block_number && t.banned == s.banned
                            && t.num_ongoing_requests == count_obsolete(
                            self.obsolete_requests@,
                            s.id,
                        )
                    },
            decreases n - si,
        {
            proof {
                lemma_count_obsolete_le_len(self.obsolete_requests@, self.sources@[si as int].id);
            }
            let cnt = self.count_obsolete_for(self.sources[si].id);
            let mut e = self.sources.remove(si);
            e.num_ongoing_requests = cnt as u64;
            self.sources.insert(si, e);
            proof {
                assert(forall|j: int|
                    si + 1 <= j < n ==> #[trigger] self.sources@[j] == old(self).sources@[j]);
            }
            si = si + 1;
        }
        let mut cancelled: Vec<(RequestId, TRq)> = Vec::new();
        let mut drained = drained;
        while drained.len() > 0
            decreases drained@.len(),
        {
            let (rid, _, ud) = drained.remove(0);
            cancelled.push((RequestId(rid), ud));
        }
        proof {
            assert forall|j: int|
                0 <= j < self.sources@.len() implies (
            #[trigger] self.sources@[j]).num_ongoing_requests == count_requested(
                self.verification_queue.segments@,
                self.sources@[j].id,
            ) + count_obsolete(self.obsolete_requests@, self.sources@[j].id) by {
                crate::verification_queue::lemma_count_requested_from_contrib(
                    self.verification_queue.segments@,
                    self.sources@[j].id,
                );
            }
            assert forall|x: int|
                0 <= x < self.obsolete_requests@.len() implies !has_queued_request(
                self.verification_queue.segments@,
                (#[trigger] self.obsolete_requests@[x]).0,
            ) && self.obsolete_requests@[x].0 < self.next_request_id && has_opt_source(
                self.sources@,
                self.obsolete_requests@[x].1,
            ) by {
                assert(has_opt_source(old(self).sources@, self.obsolete_requests@[x].1));
                let w = opt_source_idx(old(self).sources@, self.obsolete_requests@[x].1);
                assert(self.sources@[w].id == self.obsolete_requests@[x].1);
            }
        }
        cancelled
    }

    /// Picks the next verification to perform: a pending justification of
    /// the freshly verified block first, else the first downloaded block of
    /// the queue. With neither, the machine is returned unchanged.
    pub fn process_one(self) -> (r: ProcessOne<TRq, TSrc, TBl>)
        requires
            self.wf(),
        ensures
            match r {
                ProcessOne::Idle { sync } => sync == self
                    && self.pending_encoded_justifications@.len() == 0 && !(
                self.verification_queue.segments@.len() > 0
                    && self.verification_queue.segments@[0].state matches SegmentState::Ready {
                    ..
                }),
                ProcessOne::VerifyJustification(v) => v.inner == self
                    && self.pending_encoded_justifications@.len() > 0,
                ProcessOne::VerifyBlock(v) => v.inner == self
                    && self.pending_encoded_justifications@.len() == 0
                    && self.verification_queue.segments@.len() > 0
                    && self.verification_queue.segments@[0].state matches SegmentState::Ready {
                    ..
                },
            },
    {
        if self.pending_encoded_justifications.len() > 0 {
            return ProcessOne::VerifyJustification(JustificationVerify { inner: self });
        }
        if self.verification_queue.blocks_ready() {
            ProcessOne::VerifyBlock(BlockVerify { inner: self })
        } else {
            ProcessOne::Idle { sync: self }
        }
    }
}

/// Looking a key up in a concatenation of diffs tries the front diff first.
pub proof fn lemma_diff_lookup_concat(
    a: Seq<(Vec<u8>, Option<Vec<u8>>)>,
    b: Seq<(Vec<u8>, Option<Vec<u8>>)>,
    k: Seq<u8>,
)
    ensures
        diff_lookup(a + b, k) == (match diff_lookup(a, k) {
            Option::Some(v) => Option::Some(v),
            Option::None => diff_lookup(b, k),
        }),
    decreases a.len(),
{
    if a.len() == 0 {
        assert(a + b =~= b);
    } else {
        assert((a + b)[0] == a[0]);
        assert((a + b).skip(1) =~= a.skip(1) + b);
        lemma_diff_lookup_concat(a.skip(1), b, k);
    }
}

/// Applies storage changes on top of the best-to-finalized diff: each
/// changed key shadows any earlier entry for the same key.
fn merge_into_diff(
    diff: &mut Vec<(Vec<u8>, Option<Vec<u8>>)>,
    changes: Vec<(Vec<u8>, Option<Vec<u8>>)>,
)
    ensures
        final(diff)@ == changes@ + old(diff)@,
        forall|k: Seq<u8>| #[trigger]
            diff_lookup(final(diff)@, k) == (match diff_lookup(changes@, k) {
                Option::Some(v) => Option::Some(v),
                Option::None => diff_lookup(old(diff)@, k),
            }),
{
    let mut merged = changes;
    let mut rest: Vec<(Vec<u8>, Option<Vec<u8>>)> = Vec::new();
    core::mem::swap(diff, &mut rest);
    let ghost orig_rest = rest@;
    let ghost base = merged@;
    while rest.len() > 0
        invariant
            rest@.len() <= orig_rest.len(),
            rest@ == orig_rest.skip(orig_rest.len() - rest@.len()),
            merged@ == base + orig_rest.take(orig_rest.len() - rest@.len()),
        decreases rest@.len(),
    {
        let ghost k = orig_rest.len() - rest@.len();
        proof {
            assert(rest@[0] == orig_rest.skip(k)[0]);
            assert(orig_rest.skip(k)[0] == orig_rest[k]);
        }
        let e = rest.remove(0);
        merged.push(e);
        proof {
            assert(rest@ =~= orig_rest.skip(k).skip(1));
            assert(orig_rest.skip(k).skip(1) =~= orig_rest.skip(k + 1));
            assert(merged@ =~= base + orig_rest.take(k + 1)) by {
                assert(orig_rest.take(k + 1) =~= orig_rest.take(k).push(orig_rest[k]));
            }
        }
    }
    *diff = merged;
    proof {
        assert(orig_rest.take(orig_rest.len() as int) =~= orig_rest);
        assert(final(diff)@ == base + orig_rest);
        assert forall|k: Seq<u8>| #[trigger]
            diff_lookup(final(diff)@, k) == (match diff_lookup(base, k) {
                Option::Some(v) => Option::Some(v),
                Option::None => diff_lookup(orig_rest, k),
            }) by {
            lemma_diff_lookup_concat(base, orig_rest, k);
        }
    }
}

/// The `:code` storage key.
pub open spec fn spec_code_key() -> Seq<u8> {
    seq![58u8, 99u8, 111u8, 100u8, 101u8]
}

/// The `:heappages` storage key.
pub open spec fn spec_heap_pages_key() -> Seq<u8> {
    seq![58u8, 104u8, 101u8, 97u8, 112u8, 112u8, 97u8, 103u8, 101u8, 115u8]
}

/// The storage changes of a block install a new runtime exactly when they
/// touch the `:code` or `:heappages` key.
pub open spec fn spec_changes_replace_runtime(changes: Seq<(Vec<u8>, Option<Vec<u8>>)>) -> bool {
    diff_lookup(changes, spec_code_key()) is Some || diff_lookup(
        changes,
        spec_heap_pages_key(),
    ) is Some
}

/// Value of `key` in a diff, read directly.
pub fn diff_get<'a>(diff: &'a Vec<(Vec<u8>, Option<Vec<u8>>)>, key: &Vec<u8>) -> (r: Option<
    &'a Option<Vec<u8>>,
>)
    ensures
        match r {
            Option::Some(v) => diff_lookup(diff@, key@) == Option::Some(
                match v {
                    Option::Some(bytes) => Option::Some(bytes@),
                    Option::None => Option::<Seq<u8>>::None,
                },
            ),
            Option::None => diff_lookup(diff@, key@) is None,
        },
{
    let mut i: usize = 0;
    proof {
        assert(diff@.skip(0) =~= diff@);
    }
    loop
        invariant
            i <= diff@.len(),
            diff_lookup(diff@, key@) == diff_lookup(diff@.skip(i as int), key@),
        decreases diff@.len() - i,
    {
        if i == diff.len() {
            return Option::None;
        }
        proof {
            assert(diff@.skip(i as int)[0] == diff@[i as int]);
            assert(diff@.skip(i as int).skip(1) =~= diff@.skip(i + 1));
        }
        if crate::bytes::bytes_eq(&diff[i].0, key) {
            return Option::Some(&diff[i].1);
        }
        i = i + 1;
    }
}

/// True when the storage changes of a block replace the runtime: they touch
/// the `:code` or `:heappages` key.
pub fn storage_changes_replace_runtime(changes: &Vec<(Vec<u8>, Option<Vec<u8>>)>) -> (r: bool)
    ensures
        r == spec_changes_replace_runtime(changes@),
{
    let code_key: Vec<u8> = vec![58u8, 99u8, 111u8, 100u8, 101u8];
    let heap_key: Vec<u8> = vec![
        58u8,
        104u8,
        101u8,
        97u8,
        112u8,
        112u8,
        97u8,
        103u8,
        101u8,
        115u8,
    ];
    proof {
        assert(code_key@ =~= spec_code_key());
        assert(heap_key@ =~= spec_heap_pages_key());
    }
    diff_get(changes, &code_key).is_some() || diff_get(changes, &heap_key).is_some()
}

impl<TRq, TSrc, TBl> BlockVerify<TRq, TSrc, TBl> {
    /// The engine produced this token: the first queue segment is ready.
    pub open spec fn wf(self) -> bool {
        &&& self.inner.wf()
        &&& self.inner.verification_queue.segments@.len() > 0
        &&& self.inner.verification_queue.segments@[0].state matches SegmentState::Ready { .. }
        &&& self.inner.pending_encoded_justifications@.len() == 0
    }

    /// Claimed height of the block about to be verified.
    pub fn height(&self) -> (r: u64)
        requires
            self.wf(),
        ensures
            r == self.inner.verification_queue.base,
    {
        self.inner.verification_queue.segments[0].start
    }

    /// Declared hash of the block about to be verified.
    pub fn hash(&self) -> (r: Vec<u8>)
        requires
            self.wf(),
        ensures
            ({
                let s0 = self.inner.verification_queue.segments@[0];
                match s0.state {
                    SegmentState::Ready { blocks, .. } => r@ == blocks@[0].header.hash@,
                    _ => false,
                }
            }),
    {
        match &self.inner.verification_queue.segments[0].state {
            SegmentState::Ready { blocks, .. } => clone_bytes(&blocks[0].header.hash),
            _ => {
                proof {
                    assert(false);
                }
                Vec::new()
            },
        }
    }

    /// True when block bodies are also verified, through
    /// [`BlockVerification::BodyVerify`].
    pub fn is_full_verification(&self) -> (r: bool)
        ensures
            r == self.inner.full,
    {
        self.inner.full
    }

    /// Do not verify anything; the block stays in the queue.
    pub fn cancel(self) -> (r: OptimisticSync<TRq, TSrc, TBl>)
        ensures
            r == self.inner,
    {
        self.inner
    }

    /// Consumes the first downloaded block. In full mode the body must be
    /// verified externally: a [`BodyVerify`] token is handed back. In
    /// header-only mode, `header_valid` is the verdict of the external
    /// header check: a canonical, valid block becomes the new best block,
    /// and anything else rolls the chain back to the finalized block and
    /// bans the source that served the block.
    #[verifier::rlimit(100)]
    #[verifier::spinoff_prover]
    pub fn start(self, header_valid: bool) -> (r: BlockVerification<TRq, TSrc, TBl>)
        requires
            self.wf(),
        ensures
            self.inner.full ==> r is BodyVerify,
            !self.inner.full && header_valid && self.inner.spec_canonical(
                spec_first_ready_block(self.inner.verification_queue).header,
            ) ==> r is NewBest,
            !self.inner.full && !(header_valid && self.inner.spec_canonical(
                spec_first_ready_block(self.inner.verification_queue).header,
            )) ==> r is Reset,
            match r {
                BlockVerification::BodyVerify(b) => self.inner.full && b.wf() && b.inner
                    == self.inner,
                BlockVerification::NewBest { sync, new_best_number, new_best_hash } => {
                    let block = spec_first_ready_block(self.inner.verification_queue);
                    &&& !self.inner.full
                    &&& header_valid
                    &&& self.inner.spec_canonical(block.header)
                    &&& sync.wf()
                    &&& new_best_number == block.header.number
                    &&& new_best_hash@ == block.header.hash@
                    &&& new_best_number == self.inner.chain.spec_best_height() + 1
                    &&& sync.chain.spec_best_height() == new_best_number
                    &&& sync.chain.spec_best_hash() == new_best_hash@
                    &&& sync.chain.finalized_height == self.inner.chain.finalized_height
                    &&& sync.sources@ == self.inner.sources@
                    &&& sync.pending_encoded_justifications@.len()
                        == block.scale_encoded_justifications@.len()
                },
                BlockVerification::Reset { sync, previous_best_height, reason, .. } => {
                    let block = spec_first_ready_block(self.inner.verification_queue);
                    let src = spec_first_ready_source(self.inner.verification_queue);
                    &&& !self.inner.full
                    &&& sync.wf()
                    &&& previous_best_height == self.inner.chain.spec_best_height()
                    &&& sync.chain.spec_best_height() == sync.chain.finalized_height
                    &&& sync.chain.finalized_height == self.inner.chain.finalized_height
                    &&& ((reason is NonCanonical) <==> !self.inner.spec_canonical(block.header))
                    &&& (reason is HeaderError ==> !header_valid)
                    &&& (reason is NonCanonical || reason is HeaderError)
                    &&& sync.best_to_finalized_storage_diff@.len() == 0
                    &&& sync.pending_encoded_justifications@.len() == 0
                    &&& sync.verification_queue.segments@.len() == 0
                    &&& (has_opt_source(self.inner.sources@, src) ==> ({
                        let si = opt_source_idx(self.inner.sources@, src);
                        if forall|j: int|
                            0 <= j < self.inner.sources@.len() && j != si ==> (
                            #[trigger] self.inner.sources@[j]).banned {
                            forall|j: int|
                                0 <= j < sync.sources@.len() ==> !(
                                #[trigger] sync.sources@[j]).banned
                        } else {
                            sync.sources@[si].banned && forall|j: int|
                                0 <= j < self.inner.sources@.len() && j != si ==> (
                                #[trigger] sync.sources@[j]).banned
                                    == self.inner.sources@[j].banned
                        }
                    }))
                },
            },
    {
        let mut sync = self.inner;
        if sync.full {
            return BlockVerification::BodyVerify(BodyVerify { inner: sync });
        }
        let (canonical, source) = {
            let (block, source) = sync.verification_queue.first_ready();
            proof {
                assert(*block == spec_first_ready_block(self.inner.verification_queue));
                assert(source == spec_first_ready_source(self.inner.verification_queue));
            }
            (sync.is_canonical_child(&block.header), source)
        };
        if !canonical || !header_valid {
            let reason = if !canonical {
                ResetCause::NonCanonical
            } else {
                ResetCause::HeaderError
            };
            let (previous_best_height, cancelled_requests) = sync.fail_and_reset(source);
            return BlockVerification::Reset {
                sync,
                previous_best_height,
                reason,
                cancelled_requests,
            };
        }
        let (block, source) = sync.verification_queue.pop_first_block();
        proof {
            assert(block == spec_first_ready_block(self.inner.verification_queue));
        }
        let new_best_number = block.header.number;
        let new_best_hash = clone_bytes(&block.header.hash);
        proof {
            lemma_parent_is_best(self.inner.chain, block.header);
        }
        sync.chain.insert(
            new_best_number,
            block.header.hash,
            block.header.parent_hash,
            block.user_data,
        );
        sync.queue_justifications(block.scale_encoded_justifications, source);
        BlockVerification::NewBest { sync, new_best_number, new_best_hash }
    }
}

/// A block that extends the best chain builds on the best block: when its
/// height is not just above the finalized block, its parent is the best
/// block itself, so the tree accepts it.
pub proof fn lemma_parent_is_best<TBl>(
    chain: crate::tree::NonFinalizedTree<TBl>,
    header: crate::all_forks::Header,
)
    requires
        chain.wf(),
        header.number == chain.spec_best_height() + 1,
        header.parent_hash@ == chain.spec_best_hash(),
        !has_hash_in(chain.blocks@, header.hash@),
        header.hash@ != chain.finalized_hash@,
    ensures
        if header.number == chain.finalized_height + 1 {
            header.parent_hash@ == chain.finalized_hash@
        } else {
            has_hash_in(chain.blocks@, header.parent_hash@) && chain.blocks@[crate::tree::hash_idx(
                chain.blocks@,
                header.parent_hash@,
            )].height + 1 == header.number
        },
        header.number > chain.finalized_height,
{
    match chain.best {
        Option::Some(b) => {
            assert(chain.blocks@[b as int].height > chain.finalized_height);
            if header.number != chain.finalized_height + 1 {
                assert(chain.blocks@[b as int].hash@ == header.parent_hash@);
                assert(has_hash_in(chain.blocks@, header.parent_hash@));
                let w = crate::tree::hash_idx(chain.blocks@, header.parent_hash@);
                if w != b {
                    assert(chain.blocks@[w].hash@ != chain.blocks@[b as int].hash@);
                    assert(false);
                }
            }
        },
        Option::None => {},
    }
}

impl<TRq, TSrc, TBl> OptimisticSync<TRq, TSrc, TBl> {
    /// Bans the source that served a bad block, lifting every ban instead
    /// when that would silence all sources, then rolls the chain back to
    /// the finalized block. Returns the best height before the rollback and
    /// the cancelled requests.
    /// Bans one source, with the collective unban if needed.
    #[verifier::rlimit(100)]
    #[verifier::spinoff_prover]
    fn ban_source_quietly(&mut self, si: usize)
        requires
            old(self).wf(),
            si < old(self).sources@.len(),
        ensures
            final(self).wf(),
            final(self).chain == old(self).chain,
            final(self).verification_queue == old(self).verification_queue,
            final(self).obsolete_requests@ == old(self).obsolete_requests@,
            final(self).pending_encoded_justifications == old(
                self,
            ).pending_encoded_justifications,
            final(self).full == old(self).full,
            Self::same_sources_except_bans(*old(self), *final(self)),
            if forall|j: int|
                0 <= j < old(self).sources@.len() && j != si ==> (
                #[trigger] old(self).sources@[j]).banned {
                forall|j: int|
                    0 <= j < final(self).sources@.len() ==> !(
                    #[trigger] final(self).sources@[j]).banned
            } else {
                final(self).sources@[si as int].banned && forall|j: int|
                    0 <= j < old(self).sources@.len() && j != si ==> (
                    #[trigger] final(self).sources@[j]).banned == old(self).sources@[j].banned
            },
    {
        self.set_ban_flag(si, true);
        if self.all_sources_banned() {
            self.unban_all();
        }
        proof {
            lemma_wf_after_ban_change(*old(self), *self);
        }
    }

    #[verifier::rlimit(100)]
    #[verifier::spinoff_prover]
    fn fail_and_reset(&mut self, source: u64) -> (r: (u64, Vec<(RequestId, TRq)>))
        requires
            old(self).wf(),
        ensures
            final(self).wf(),
            r.0 == old(self).chain.spec_best_height(),
            final(self).chain.spec_best_height() == final(self).chain.finalized_height,
            final(self).chain.finalized_height == old(self).chain.finalized_height,
            final(self).chain.finalized_hash@ == old(self).chain.finalized_hash@,
            final(self).full == old(self).full,
            final(self).best_to_finalized_storage_diff@.len() == 0,
            final(self).best_runtime is None,
            final(self).pending_encoded_justifications@.len() == 0,
            final(self).verification_queue.segments@.len() == 0,
            final(self).sources@.len() == old(self).sources@.len(),
            has_opt_source(old(self).sources@, source) ==> ({
                let si = opt_source_idx(old(self).sources@, source);
                if forall|j: int|
                    0 <= j < old(self).sources@.len() && j != si ==> (
                    #[trigger] old(self).sources@[j]).banned {
                    forall|j: int|
                        0 <= j < final(self).sources@.len() ==> !(
                        #[trigger] final(self).sources@[j]).banned
                } else {
                    final(self).sources@[si].banned && forall|j: int|
                        0 <= j < old(self).sources@.len() && j != si ==> (
                        #[trigger] final(self).sources@[j]).banned == old(self).sources@[j].banned
                }
            }),
            !has_opt_source(old(self).sources@, source) ==> forall|j: int|
                0 <= j < old(self).sources@.len() ==> (#[trigger] final(self).sources@[j]).banned
                    == old(self).sources@[j].banned,
    {
        let previous_best_height = self.chain.best_block_height();
        match self.find_source(source) {
            Option::Some(si) => {
                self.ban_source_quietly(si);
            },
            Option::None => {},
        }
        let ghost mid = *self;
        let cancelled = self.reset_to_finalized();
        proof {
            assert(self.chain.finalized_height == mid.chain.finalized_height);
            assert(forall|j: int|
                0 <= j < mid.sources@.len() ==> (#[trigger] final(self).sources@[j]).banned
                    == mid.sources@[j].banned);
        }
        (previous_best_height, cancelled)
    }
}

impl<TRq, TSrc, TBl> BodyVerify<TRq, TSrc, TBl> {
    /// The engine produced this token: full mode, first segment ready.
    pub open spec fn wf(self) -> bool {
        &&& self.inner.wf()
        &&& self.inner.verification_queue.segments@.len() > 0
        &&& self.inner.verification_queue.segments@[0].state matches SegmentState::Ready { .. }
        &&& self.inner.pending_encoded_justifications@.len() == 0
        &&& self.inner.full
    }

    /// Handle of the runtime to verify the body with: the best block's
    /// runtime when one exists, else the finalized block's.
    pub fn parent_runtime_handle(&self) -> (r: u64)
        requires
            self.wf(),
        ensures
            match self.inner.best_runtime {
                Option::Some(rt) => r == rt.handle,
                Option::None => self.inner.finalized_runtime matches Option::Some(rt) && r
                    == rt.handle,
            },
    {
        match &self.inner.best_runtime {
            Option::Some(rt) => rt.handle,
            Option::None => {
                match &self.inner.finalized_runtime {
                    Option::Some(rt) => rt.handle,
                    Option::None => {
                        proof {
                            assert(false);
                        }
                        0
                    },
                }
            },
        }
    }

    /// Reads a key of the best block's storage from the diff; `None` means
    /// the value must be read from the finalized block's storage, which the
    /// caller holds.
    pub fn storage_get(&self, key: &Vec<u8>) -> (r: Option<&Option<Vec<u8>>>)
        ensures
            match r {
                Option::Some(v) => diff_lookup(
                    self.inner.best_to_finalized_storage_diff@,
                    key@,
                ) == Option::Some(
                    match v {
                        Option::Some(bytes) => Option::Some(bytes@),
                        Option::None => Option::<Seq<u8>>::None,
                    },
                ),
                Option::None => diff_lookup(self.inner.best_to_finalized_storage_diff@, key@)
                    is None,
            },
    {
        self.inner.best_block_storage_get(key)
    }

    /// Do not verify anything; the block stays in the queue.
    pub fn cancel(self) -> (r: OptimisticSync<TRq, TSrc, TBl>)
        ensures
            r == self.inner,
    {
        self.inner
    }

    /// Applies the verdict of the external body verification.
    ///
    /// On success the block becomes the new best block, its storage changes
    /// join the diff, and the runtime handle returns to the best-block slot
    /// (replaced when the block changed the runtime code). On a failure, or
    /// for a block that does not extend the best chain, the chain rolls
    /// back to the finalized block and the serving source is banned.
    #[verifier::rlimit(100)]
    #[verifier::spinoff_prover]
    pub fn finish(self, outcome: Result<BodySuccess, ()>) -> (r: BlockVerification<
        TRq,
        TSrc,
        TBl,
    >)
        requires
            self.wf(),
            outcome matches Result::Ok(s) ==> ((s.new_runtime is Some)
                == spec_changes_replace_runtime(s.storage_top_trie_changes@)),
        ensures
            outcome is Ok && self.inner.spec_canonical(
                spec_first_ready_block(self.inner.verification_queue).header,
            ) ==> r is NewBest,
            !(outcome is Ok && self.inner.spec_canonical(
                spec_first_ready_block(self.inner.verification_queue).header,
            )) ==> r is Reset,
            match r {
                BlockVerification::BodyVerify(_) => false,
                BlockVerification::NewBest { sync, new_best_number, new_best_hash } => {
                    let block = spec_first_ready_block(self.inner.verification_queue);
                    &&& outcome is Ok
                    &&& self.inner.spec_canonical(block.header)
                    &&& sync.wf()
                    &&& new_best_number == block.header.number
                    &&& new_best_hash@ == block.header.hash@
                    &&& new_best_number == self.inner.chain.spec_best_height() + 1
                    &&& sync.chain.spec_best_height() == new_best_number
                    &&& sync.chain.spec_best_hash() == new_best_hash@
                    &&& sync.chain.finalized_height == self.inner.chain.finalized_height
                    &&& sync.full
                    &&& sync.sources@ == self.inner.sources@
                    &&& sync.pending_encoded_justifications@.len()
                        == block.scale_encoded_justifications@.len()
                    &&& (outcome matches Result::Ok(s) ==> ({
                        &&& sync.best_to_finalized_storage_diff@ == s.storage_top_trie_changes@
                            + self.inner.best_to_finalized_storage_diff@
                        &&& sync.finalized_runtime == self.inner.finalized_runtime
                        &&& sync.best_runtime == (match s.new_runtime {
                            Option::Some(rt) => Option::Some(rt),
                            Option::None => self.inner.best_runtime,
                        })
                    }))
                },
                BlockVerification::Reset { sync, previous_best_height, reason, .. } => {
                    let block = spec_first_ready_block(self.inner.verification_queue);
                    let src = spec_first_ready_source(self.inner.verification_queue);
                    &&& sync.wf()
                    &&& previous_best_height == self.inner.chain.spec_best_height()
                    &&& sync.chain.spec_best_height() == sync.chain.finalized_height
                    &&& sync.chain.finalized_height == self.inner.chain.finalized_height
                    &&& sync.full
                    &&& ((reason is NonCanonical) <==> !self.inner.spec_canonical(block.header))
                    &&& (reason is HeaderBodyError ==> outcome is Err)
                    &&& (reason is NonCanonical || reason is HeaderBodyError)
                    &&& sync.best_to_finalized_storage_diff@.len() == 0
                    &&& sync.pending_encoded_justifications@.len() == 0
                    &&& sync.verification_queue.segments@.len() == 0
                    &&& (has_opt_source(self.inner.sources@, src) ==> ({
                        let si = opt_source_idx(self.inner.sources@, src);
                        if forall|j: int|
                            0 <= j < self.inner.sources@.len() && j != si ==> (
                            #[trigger] self.inner.sources@[j]).banned {
                            forall|j: int|
                                0 <= j < sync.sources@.len() ==> !(
                                #[trigger] sync.sources@[j]).banned
                        } else {
                            sync.sources@[si].banned && forall|j: int|
                                0 <= j < self.inner.sources@.len() && j != si ==> (
                                #[trigger] sync.sources@[j]).banned
                                    == self.inner.sources@[j].banned
                        }
                    }))
                },
            },
    {
        let mut sync = self.inner;
        let (canonical, source) = {
            let (block, source) = sync.verification_queue.first_ready();
            proof {
                assert(*block == spec_first_ready_block(self.inner.verification_queue));
                assert(source == spec_first_ready_source(self.inner.verification_queue));
            }
            (sync.is_canonical_child(&block.header), source)
        };
        let failed = outcome.is_err();
        if !canonical || failed {
            let reason = if !canonical {
                ResetCause::NonCanonical
            } else {
                ResetCause::HeaderBodyError
            };
            let (previous_best_height, cancelled_requests) = sync.fail_and_reset(source);
            return BlockVerification::Reset {
                sync,
                previous_best_height,
                reason,
                cancelled_requests,
            };
        }
        let success = match outcome {
            Result::Ok(s) => s,
            Result::Err(()) => {
                proof {
                    assert(false);
                }
                vstd::pervasive::unreached()
            },
        };
        // the runtime that served this verification stays in place unless
        // the block installed a new one, which then serves the best block
        match success.new_runtime {
            Option::Some(new_rt) => {
                sync.best_runtime = Option::Some(new_rt);
            },
            Option::None => {},
        }
        merge_into_diff(&mut sync.best_to_finalized_storage_diff, success.storage_top_trie_changes);
        let (block, source) = sync.verification_queue.pop_first_block();
        proof {
            assert(block == spec_first_ready_block(self.inner.verification_queue));
        }
        let new_best_number = block.header.number;
        let new_best_hash = clone_bytes(&block.header.hash);
        proof {
            lemma_parent_is_best(self.inner.chain, block.header);
        }
        sync.chain.insert(
            new_best_number,
            block.header.hash,
            block.header.parent_hash,
            block.user_data,
        );
        sync.queue_justifications(block.scale_encoded_justifications, source);
        BlockVerification::NewBest { sync, new_best_number, new_best_hash }
    }
}

impl<TRq, TSrc, TBl> JustificationVerify<TRq, TSrc, TBl> {
    /// The engine produced this token: a justification is pending.
    pub open spec fn wf(self) -> bool {
        &&& self.inner.wf()
        &&& self.inner.pending_encoded_justifications@.len() > 0
    }

    /// Applies the verdict of the external justification check. A valid
    /// justification finalizes the best block and all its ancestors, which
    /// are handed back in increasing height order; an invalid one rolls the
    /// chain back to the finalized block and bans the serving source.
    #[verifier::rlimit(100)]
    #[verifier::spinoff_prover]
    pub fn perform(self, valid: bool) -> (r: (
        OptimisticSync<TRq, TSrc, TBl>,
        JustificationVerification<TRq, TBl>,
    ))
        requires
            self.wf(),
        ensures
            r.0.wf(),
            match r.1 {
                JustificationVerification::Reset { previous_best_height, .. } => {
                    &&& !valid
                    &&& previous_best_height == self.inner.chain.spec_best_height()
                    &&& r.0.chain.spec_best_height() == r.0.chain.finalized_height
                    &&& r.0.chain.finalized_height == self.inner.chain.finalized_height
                },
                JustificationVerification::Finalized { finalized_blocks } => {
                    &&& valid
                    &&& r.0.chain.finalized_height == self.inner.chain.spec_best_height()
                    &&& r.0.chain.blocks@.len() == 0
                    &&& finalized_blocks@.len() == self.inner.chain.spec_best_height()
                        - self.inner.chain.finalized_height
                    &&& (forall|i: int|
                        0 <= i < finalized_blocks@.len()
                            ==> (#[trigger] finalized_blocks@[i]).height
                            == self.inner.chain.finalized_height + 1 + i)
                    &&& r.0.best_to_finalized_storage_diff@.len() == 0
                },
            },
    {
        let mut sync = self.inner;
        let justification = sync.pending_encoded_justifications.remove(0);
        let source = justification.2;
        if !valid {
            let (previous_best_height, cancelled_requests) = sync.fail_and_reset(source);
            return (
                sync,
                JustificationVerification::Reset { previous_best_height, cancelled_requests },
            );
        }
        let finalized_blocks = sync.finalize_best();
        (sync, JustificationVerification::Finalized { finalized_blocks })
    }
}

impl<TRq, TSrc, TBl> OptimisticSync<TRq, TSrc, TBl> {
    /// Finalizes the best block and all its ancestors, handing them back in
    /// increasing height order. The storage diff empties and the best-block
    /// runtime, if any, becomes the finalized runtime.
    #[verifier::rlimit(100)]
    #[verifier::spinoff_prover]
    fn finalize_best(&mut self) -> (r: Vec<TreeBlock<TBl>>)
        requires
            old(self).wf(),
        ensures
            final(self).wf(),
            final(self).chain.finalized_height == old(self).chain.spec_best_height(),
            final(self).chain.blocks@.len() == 0,
            r@.len() == old(self).chain.spec_best_height() - old(self).chain.finalized_height,
            forall|i: int|
                0 <= i < r@.len() ==> (#[trigger] r@[i]).height == old(self).chain.finalized_height
                    + 1 + i,
            final(self).best_to_finalized_storage_diff@.len() == 0,
    {
        self.best_to_finalized_storage_diff = Vec::new();
        let mut promoted: Option<Runtime> = Option::None;
        core::mem::swap(&mut self.best_runtime, &mut promoted);
        match promoted {
            Option::Some(rt) => {
                self.finalized_runtime = Option::Some(rt);
            },
            Option::None => {},
        }
        if self.chain.len() == 0 {
            // the best block is the finalized block: nothing to finalize
            return Vec::new();
        }
        let best_height = self.chain.best_block_height();
        let best_hash = self.chain.best_block_hash();
        proof {
            match self.chain.best {
                Option::Some(b) => {
                    assert(self.chain.blocks@[b as int].hash@ == best_hash@);
                    assert(has_hash_in(self.chain.blocks@, best_hash@));
                    let w = crate::tree::hash_idx(self.chain.blocks@, best_hash@);
                    if w != b {
                        assert(self.chain.blocks@[w].hash@ != self.chain.blocks@[b as int].hash@);
                        assert(false);
                    }
                },
                Option::None => {
                    assert(false);
                },
            }
        }
        let (chain_desc, _updates_best) = self.chain.finalize(best_height, &best_hash);
        proof {
            assert(self.chain.blocks@.len() == 0) by {
                if self.chain.blocks@.len() > 0 {
                    // a survivor would sit above the old best block, yet the
                    // old best block had the greatest height of the tree
                    assert(self.chain.blocks@[0].height > best_height);
                    assert(old(self).chain.blocks@.contains(self.chain.blocks@[0]));
                    let w = choose|w: int|
                        0 <= w < old(self).chain.blocks@.len() && old(self).chain.blocks@[w]
                            == self.chain.blocks@[0];
                    assert(old(self).chain.blocks@[w].height <= best_height);
                    assert(false);
                }
            }
        }
        let mut chain_desc = chain_desc;
        let mut finalized_blocks: Vec<TreeBlock<TBl>> = Vec::new();
        let ghost total = chain_desc@.len();
        let ghost fin = old(self).chain.finalized_height;
        let ghost target = best_height;
        while chain_desc.len() > 0
            invariant
                chain_desc@.len() <= total,
                total == target - fin,
                forall|i: int|
                    0 <= i < chain_desc@.len() ==> (#[trigger] chain_desc@[i]).height == target
                        - i,
                finalized_blocks@.len() == total - chain_desc@.len(),
                forall|i: int|
                    0 <= i < finalized_blocks@.len()
                        ==> (#[trigger] finalized_blocks@[i]).height == fin + 1 + i,
            decreases chain_desc@.len(),
        {
            let ghost pre = chain_desc@;
            let b = match chain_desc.pop() {
                Option::Some(b) => b,
                Option::None => {
                    proof {
                        assert(false);
                    }
                    vstd::pervasive::unreached()
                },
            };
            proof {
                assert(b == pre[pre.len() - 1]);
                assert(b.height == target - (pre.len() - 1));
            }
            finalized_blocks.push(b);
        }
        finalized_blocks
    }
}

impl<TRq, TSrc, TBl> OptimisticSync<TRq, TSrc, TBl> {
    /// Drops every obsolete request naming the source, handing the dropped
    /// entries back.
    #[verifier::rlimit(100)]
    #[verifier::spinoff_prover]
    fn filter_obsolete_of(&mut self, sid: u64) -> (r: Vec<(RequestId, TRq)>)
        requires
            forall|x: int, y: int|
                0 <= x < old(self).obsolete_requests@.len() && 0 <= y < old(
                    self,
                ).obsolete_requests@.len() && x != y ==> (#[trigger] old(
                    self,
                ).obsolete_requests@[x]).0 != (#[trigger] old(self).obsolete_requests@[y]).0,
            forall|x: int|
                0 <= x < old(self).obsolete_requests@.len() ==> (#[trigger] old(
                    self,
                ).obsolete_requests@[x]).0 < old(self).next_request_id && !has_queued_request(
                    old(self).verification_queue.segments@,
                    old(self).obsolete_requests@[x].0,
                ) && has_opt_source(old(self).sources@, old(self).obsolete_requests@[x].1),
        ensures
            final(self).chain == old(self).chain,
            final(self).verification_queue == old(self).verification_queue,
            final(self).pending_encoded_justifications == old(
                self,
            ).pending_encoded_justifications,
            final(self).next_request_id == old(self).next_request_id,
            final(self).next_source_id == old(self).next_source_id,
            final(self).download_ahead_blocks == old(self).download_ahead_blocks,
            final(self).finalized_runtime == old(self).finalized_runtime,
            final(self).best_runtime == old(self).best_runtime,
            final(self).best_to_finalized_storage_diff == old(
                self,
            ).best_to_finalized_storage_diff,
            final(self).full == old(self).full,
            final(self).sources == old(self).sources,
            forall|x: int|
                0 <= x < final(self).obsolete_requests@.len()
                    ==> (#[trigger] final(self).obsolete_requests@[x]).1 != sid,
            forall|x: int, y: int|
                0 <= x < final(self).obsolete_requests@.len() && 0 <= y
                    < final(self).obsolete_requests@.len() && x != y
                    ==> (#[trigger] final(self).obsolete_requests@[x]).0
                    != (#[trigger] final(self).obsolete_requests@[y]).0,
            forall|x: int|
                0 <= x < final(self).obsolete_requests@.len()
                    ==> (#[trigger] final(self).obsolete_requests@[x]).0
                    < old(self).next_request_id && !has_queued_request(
                    old(self).verification_queue.segments@,
                    final(self).obsolete_requests@[x].0,
                ) && has_opt_source(old(self).sources@, final(self).obsolete_requests@[x].1),
            forall|s2: u64|
                s2 != sid ==> count_obsolete(final(self).obsolete_requests@, s2)
                    == count_obsolete(old(self).obsolete_requests@, s2),
            r@.len() == count_obsolete(old(self).obsolete_requests@, sid),
    {
        let ghost pre_obs = self.obsolete_requests@;
        let mut r: Vec<(RequestId, TRq)> = Vec::new();
        let mut i: usize = 0;
        while i < self.obsolete_requests.len()
            invariant
                self.chain == old(self).chain,
                self.verification_queue == old(self).verification_queue,
                self.pending_encoded_justifications == old(self).pending_encoded_justifications,
                self.next_request_id == old(self).next_request_id,
                self.next_source_id == old(self).next_source_id,
                self.download_ahead_blocks == old(self).download_ahead_blocks,
                self.finalized_runtime == old(self).finalized_runtime,
                self.best_runtime == old(self).best_runtime,
                self.best_to_finalized_storage_diff == old(self).best_to_finalized_storage_diff,
                self.full == old(self).full,
                self.sources == old(self).sources,
                i <= self.obsolete_requests@.len(),
                forall|x: int|
                    0 <= x < i ==> (#[trigger] self.obsolete_requests@[x]).1 != sid,
                forall|x: int, y: int|
                    0 <= x < self.obsolete_requests@.len() && 0 <= y
                        < self.obsolete_requests@.len() && x != y ==> (
                    #[trigger] self.obsolete_requests@[x]).0 != (
                    #[trigger] self.obsolete_requests@[y]).0,
                forall|x: int|
                    0 <= x < self.obsolete_requests@.len() ==> (
                    #[trigger] self.obsolete_requests@[x]).0 < old(self).next_request_id
                        && !has_queued_request(
                        old(self).verification_queue.segments@,
                        self.obsolete_requests@[x].0,
                    ) && has_opt_source(old(self).sources@, self.obsolete_requests@[x].1),
                forall|s2: u64|
                    s2 != sid ==> count_obsolete(self.obsolete_requests@, s2) == count_obsolete(
                        pre_obs,
                        s2,
                    ),
                r@.len() == count_obsolete(pre_obs, sid) - count_obsolete(
                    self.obsolete_requests@,
                    sid,
                ),
            decreases self.obsolete_requests@.len() - i,
        {
            if self.obsolete_requests[i].1 == sid {
                let ghost prev = self.obsolete_requests@;
                let e = self.obsolete_requests.remove(i);
                r.push((RequestId(e.0), e.2));
                proof {
                    assert forall|s2: u64| true implies count_obsolete(
                        self.obsolete_requests@,
                        s2,
                    ) == count_obsolete(prev, s2) - (if s2 == sid {
                        1int
                    } else {
                        0int
                    }) by {
                        lemma_count_obsolete_remove(prev, i as int, s2);
                    }
                    assert forall|x: int, y: int|
                        0 <= x < self.obsolete_requests@.len() && 0 <= y
                            < self.obsolete_requests@.len() && x != y implies (
                    #[trigger] self.obsolete_requests@[x]).0 != (
                    #[trigger] self.obsolete_requests@[y]).0 by {
                        let x2 = if x < i { x } else { x + 1 };
                        let y2 = if y < i { y } else { y + 1 };
                        assert(self.obsolete_requests@[x] == prev[x2]);
                        assert(self.obsolete_requests@[y] == prev[y2]);
                    }
                    assert forall|x: int|
                        0 <= x < self.obsolete_requests@.len() implies (
                    #[trigger] self.obsolete_requests@[x]).0 < old(self).next_request_id
                        && !has_queued_request(
                        old(self).verification_queue.segments@,
                        self.obsolete_requests@[x].0,
                    ) && has_opt_source(
                        old(self).sources@,
                        self.obsolete_requests@[x].1,
                    ) by {
                        let x2 = if x < i { x } else { x + 1 };
                        assert(self.obsolete_requests@[x] == prev[x2]);
                    }
                }
            } else {
                i = i + 1;
            }
        }
        proof {
            lemma_count_obsolete_zero(self.obsolete_requests@, sid);
        }
        r
    }

    /// Unregisters a source. Every request that names it — queued or
    /// obsolete — is cancelled and handed back; afterwards no request in
    /// the machine references the source.
    #[verifier::rlimit(100)]
    #[verifier::spinoff_prover]
    pub fn remove_source(&mut self, source_id: SourceId) -> (r: (TSrc, Vec<(RequestId, TRq)>))
        requires
            old(self).wf(),
            has_opt_source(old(self).sources@, source_id.0),
        ensures
            final(self).wf(),
            final(self).chain == old(self).chain,
            final(self).sources@ == old(self).sources@.remove(
                opt_source_idx(old(self).sources@, source_id.0),
            ),
            !has_opt_source(final(self).sources@, source_id.0),
            r.0 == old(self).sources@[opt_source_idx(old(self).sources@, source_id.0)].user_data,
            forall|i: int|
                0 <= i < final(self).obsolete_requests@.len()
                    ==> (#[trigger] final(self).obsolete_requests@[i]).1 != source_id.0,
            count_requested(final(self).verification_queue.segments@, source_id.0) == 0,
            r.1@.len() == count_requested(old(self).verification_queue.segments@, source_id.0)
                + count_obsolete(old(self).obsolete_requests@, source_id.0),
    {
        let si = self.find_source(source_id.0).unwrap();
        let drained_q = self.verification_queue.drain_source(source_id.0);
        let mut r: Vec<(RequestId, TRq)> = Vec::new();
        let mut drained_q = drained_q;
        let ghost n_q = drained_q@.len();
        while drained_q.len() > 0
            invariant
                r@.len() == n_q - drained_q@.len(),
            decreases drained_q@.len(),
        {
            let (rid, ud) = drained_q.remove(0);
            r.push((RequestId(rid), ud));
        }
        proof {
            assert forall|x: int|
                0 <= x < self.obsolete_requests@.len() implies !has_queued_request(
                self.verification_queue.segments@,
                (#[trigger] self.obsolete_requests@[x]).0,
            ) by {
                assert(!has_queued_request(
                    old(self).verification_queue.segments@,
                    self.obsolete_requests@[x].0,
                ));
            }
        }
        let mut drained_o = self.filter_obsolete_of(source_id.0);
        let ghost n_o = drained_o@.len();
        while drained_o.len() > 0
            invariant
                r@.len() == n_q + (n_o - drained_o@.len()),
            decreases drained_o@.len(),
        {
            let e = drained_o.remove(0);
            r.push(e);
        }
        let entry = self.drop_source_entry(si, source_id, Ghost(*old(self)));
        (entry, r)
    }

    /// Removes the registry entry of a fully drained source, re-establishing
    /// well-formedness from the state `orig` the draining started from.
    #[verifier::rlimit(100)]
    #[verifier::spinoff_prover]
    fn drop_source_entry(
        &mut self,
        si: usize,
        source_id: SourceId,
        Ghost(orig): Ghost<OptimisticSync<TRq, TSrc, TBl>>,
    ) -> (r: TSrc)
        requires
            orig.wf(),
            0 <= si < orig.sources@.len(),
            orig.sources@[si as int].id == source_id.0,
            old(self).sources@ == orig.sources@,
            old(self).chain == orig.chain,
            old(self).pending_encoded_justifications == orig.pending_encoded_justifications,
            old(self).next_request_id == orig.next_request_id,
            old(self).next_source_id == orig.next_source_id,
            old(self).download_ahead_blocks == orig.download_ahead_blocks,
            old(self).finalized_runtime == orig.finalized_runtime,
            old(self).best_runtime == orig.best_runtime,
            old(self).full == orig.full,
            old(self).verification_queue.wf(),
            old(self).verification_queue.base == orig.verification_queue.base,
            count_requested(old(self).verification_queue.segments@, source_id.0) == 0,
            forall|s2: u64|
                s2 != source_id.0 ==> count_requested(old(self).verification_queue.segments@, s2)
                    == count_requested(orig.verification_queue.segments@, s2),
            forall|x: int|
                0 <= x < old(self).verification_queue.segments@.len() ==> match (#[trigger] old(
                    self,
                ).verification_queue.segments@[x]).state {
                    SegmentState::Requested { .. } => exists|w: int|
                        0 <= w < orig.verification_queue.segments@.len()
                            && orig.verification_queue.segments@[w] == old(
                            self,
                        ).verification_queue.segments@[x],
                    _ => true,
                },
            forall|x: int|
                0 <= x < old(self).obsolete_requests@.len() ==> (#[trigger] old(
                    self,
                ).obsolete_requests@[x]).1 != source_id.0,
            forall|x: int, y: int|
                0 <= x < old(self).obsolete_requests@.len() && 0 <= y < old(
                    self,
                ).obsolete_requests@.len() && x != y ==> (#[trigger] old(
                    self,
                ).obsolete_requests@[x]).0 != (#[trigger] old(self).obsolete_requests@[y]).0,
            forall|x: int|
                0 <= x < old(self).obsolete_requests@.len() ==> (#[trigger] old(
                    self,
                ).obsolete_requests@[x]).0 < old(self).next_request_id && !has_queued_request(
                    old(self).verification_queue.segments@,
                    old(self).obsolete_requests@[x].0,
                ) && has_opt_source(orig.sources@, old(self).obsolete_requests@[x].1),
            forall|s2: u64|
                s2 != source_id.0 ==> count_obsolete(old(self).obsolete_requests@, s2)
                    == count_obsolete(orig.obsolete_requests@, s2),
        ensures
            final(self).wf(),
            final(self).chain == old(self).chain,
            final(self).obsolete_requests@ == old(self).obsolete_requests@,
            final(self).verification_queue == old(self).verification_queue,
            final(self).sources@ == old(self).sources@.remove(si as int),
            !has_opt_source(final(self).sources@, source_id.0),
            r == old(self).sources@[si as int].user_data,
    {
        let entry = self.sources.remove(si);
        proof {
            lemma_wf_after_source_removed(
                OptimisticSync {
                    sources: orig.sources,
                    chain: old(self).chain,
                    verification_queue: orig.verification_queue,
                    pending_encoded_justifications: old(self).pending_encoded_justifications,
                    next_request_id: old(self).next_request_id,
                    next_source_id: old(self).next_source_id,
                    download_ahead_blocks: old(self).download_ahead_blocks,
                    finalized_runtime: old(self).finalized_runtime,
                    best_runtime: old(self).best_runtime,
                    full: old(self).full,
                    obsolete_requests: orig.obsolete_requests,
                    best_to_finalized_storage_diff: orig.best_to_finalized_storage_diff,
                },
                *self,
                si as int,
                source_id.0,
            );
        }
        entry.user_data
    }
}

/// Well-formedness survives removing a source together with every request
/// that named it.
#[verifier::rlimit(100)]
#[verifier::spinoff_prover]
pub proof fn lemma_wf_after_source_removed<TRq, TSrc, TBl>(
    pre: OptimisticSync<TRq, TSrc, TBl>,
    post: OptimisticSync<TRq, TSrc, TBl>,
    si: int,
    sid: u64,
)
    requires
        pre.wf(),
        0 <= si < pre.sources@.len(),
        pre.sources@[si].id == sid,
        post.sources@ == pre.sources@.remove(si),
        post.chain == pre.chain,
        post.pending_encoded_justifications == pre.pending_encoded_justifications,
        post.next_request_id == pre.next_request_id,
        post.next_source_id == pre.next_source_id,
        post.download_ahead_blocks == pre.download_ahead_blocks,
        post.finalized_runtime == pre.finalized_runtime,
        post.best_runtime == pre.best_runtime,
        post.full == pre.full,
        post.verification_queue.wf(),
        post.verification_queue.base == pre.verification_queue.base,
        count_requested(post.verification_queue.segments@, sid) == 0,
        forall|s2: u64|
            s2 != sid ==> count_requested(post.verification_queue.segments@, s2)
                == count_requested(pre.verification_queue.segments@, s2),
        forall|x: int|
            0 <= x < post.verification_queue.segments@.len() ==> match (
            #[trigger] post.verification_queue.segments@[x]).state {
                SegmentState::Requested { .. } => exists|w: int|
                    0 <= w < pre.verification_queue.segments@.len()
                        && pre.verification_queue.segments@[w]
                        == post.verification_queue.segments@[x],
                _ => true,
            },
        forall|x: int|
            0 <= x < post.obsolete_requests@.len() ==> (
            #[trigger] post.obsolete_requests@[x]).1 != sid,
        forall|x: int, y: int|
            0 <= x < post.obsolete_requests@.len() && 0 <= y < post.obsolete_requests@.len() && x
                != y ==> (#[trigger] post.obsolete_requests@[x]).0 != (
            #[trigger] post.obsolete_requests@[y]).0,
        forall|x: int|
            0 <= x < post.obsolete_requests@.len() ==> (
            #[trigger] post.obsolete_requests@[x]).0 < post.next_request_id
                && !has_queued_request(
                post.verification_queue.segments@,
                post.obsolete_requests@[x].0,
            ) && has_opt_source(pre.sources@, post.obsolete_requests@[x].1),
        forall|s2: u64|
            s2 != sid ==> count_obsolete(post.obsolete_requests@, s2) == count_obsolete(
                pre.obsolete_requests@,
                s2,
            ),
    ensures
        post.wf(),
        !has_opt_source(post.sources@, sid),
{
    assert forall|j: int|
        0 <= j < post.sources@.len() implies #[trigger] post.sources@[j].id != sid by {
        let j2 = if j < si {
            j
        } else {
            j + 1
        };
        assert(post.sources@[j] == pre.sources@[j2]);
    }
    assert forall|j: int|
        0 <= j < post.sources@.len() implies (#[trigger] post.sources@[j]).num_ongoing_requests
        == count_requested(post.verification_queue.segments@, post.sources@[j].id)
        + count_obsolete(post.obsolete_requests@, post.sources@[j].id) by {
        let j2 = if j < si {
            j
        } else {
            j + 1
        };
        assert(post.sources@[j] == pre.sources@[j2]);
        assert(post.sources@[j].id != sid);
    }
    assert forall|a: int, b: int|
        0 <= a < post.sources@.len() && 0 <= b < post.sources@.len() && a != b implies
        #[trigger] post.sources@[a].id != #[trigger] post.sources@[b].id by {
        let a2 = if a < si {
            a
        } else {
            a + 1
        };
        let b2 = if b < si {
            b
        } else {
            b + 1
        };
        assert(post.sources@[a] == pre.sources@[a2]);
        assert(post.sources@[b] == pre.sources@[b2]);
    }
    assert forall|j: int|
        0 <= j < post.sources@.len() implies (#[trigger] post.sources@[j]).id
        < post.next_source_id by {
        let j2 = if j < si {
            j
        } else {
            j + 1
        };
        assert(post.sources@[j] == pre.sources@[j2]);
    }
    assert forall|x: int|
        0 <= x < post.verification_queue.segments@.len() implies match (
    #[trigger] post.verification_queue.segments@[x]).state {
        SegmentState::Requested { request_id, source, .. } => request_id < post.next_request_id
            && has_opt_source(post.sources@, source),
        _ => true,
    } by {
        match post.verification_queue.segments@[x].state {
            SegmentState::Requested { request_id: r2, source: s2, .. } => {
                let w = choose|w: int|
                    0 <= w < pre.verification_queue.segments@.len()
                        && pre.verification_queue.segments@[w]
                        == post.verification_queue.segments@[x];
                assert(has_opt_source(pre.sources@, s2));
                assert(s2 != sid) by {
                    if s2 == sid {
                        lemma_count_requested_zero(post.verification_queue.segments@, sid);
                        assert(false);
                    }
                }
                let v = opt_source_idx(pre.sources@, s2);
                assert(v != si);
                if v < si {
                    assert(post.sources@[v].id == s2);
                } else {
                    assert(post.sources@[v - 1] == pre.sources@[v]);
                    assert(post.sources@[v - 1].id == s2);
                }
            },
            _ => {},
        }
    }
    assert forall|x: int|
        0 <= x < post.obsolete_requests@.len() implies has_opt_source(
        post.sources@,
        (#[trigger] post.obsolete_requests@[x]).1,
    ) by {
        assert(has_opt_source(pre.sources@, post.obsolete_requests@[x].1));
        assert(post.obsolete_requests@[x].1 != sid);
        let v = opt_source_idx(pre.sources@, post.obsolete_requests@[x].1);
        assert(v != si);
        if v < si {
            assert(post.sources@[v].id == post.obsolete_requests@[x].1);
        } else {
            assert(post.sources@[v - 1] == pre.sources@[v]);
            assert(post.sources@[v - 1].id == post.obsolete_requests@[x].1);
        }
    }
}

impl<TRq, TSrc, TBl> OptimisticSync<TRq, TSrc, TBl> {
    /// Dismantles the engine into its raw components: the finalized block,
    /// the registered sources with their declared best blocks, and every
    /// ongoing request.
    pub fn disassemble(self) -> (r: Disassemble<TRq, TSrc>)
        requires
            self.wf(),
        ensures
            r.finalized_block_height == self.chain.finalized_height,
            r.finalized_block_hash@ == self.chain.finalized_hash@,
            r.sources@.len() == self.sources@.len(),
            forall|j: int|
                0 <= j < r.sources@.len() ==> (#[trigger] r.sources@[j]).id.0
                    == self.sources@[j].id && r.sources@[j].user_data == self.sources@[j].user_data
                    && r.sources@[j].best_block_number == self.sources@[j].best_block_number,
    {
        let mut this = self;
        let finalized_block_height = this.chain.finalized_height;
        let finalized_block_hash = clone_bytes(&this.chain.finalized_hash);
        let mut sources: Vec<DisassembleSource<TSrc>> = Vec::new();
        let mut raw_sources: Vec<OptSource<TSrc>> = Vec::new();
        core::mem::swap(&mut this.sources, &mut raw_sources);
        let ghost orig = raw_sources@;
        while raw_sources.len() > 0
            invariant
                raw_sources@.len() <= orig.len(),
                raw_sources@ == orig.skip(orig.len() - raw_sources@.len()),
                sources@.len() == orig.len() - raw_sources@.len(),
                forall|j: int|
                    0 <= j < sources@.len() ==> (#[trigger] sources@[j]).id.0 == orig[j].id
                        && sources@[j].user_data == orig[j].user_data
                        && sources@[j].best_block_number == orig[j].best_block_number,
            decreases raw_sources@.len(),
        {
            let ghost k = orig.len() - raw_sources@.len();
            proof {
                assert(raw_sources@[0] == orig.skip(k)[0]);
                assert(orig.skip(k)[0] == orig[k]);
            }
            let e = raw_sources.remove(0);
            sources.push(
                DisassembleSource {
                    id: SourceId(e.id),
                    user_data: e.user_data,
                    best_block_number: e.best_block_number,
                },
            );
            proof {
                assert(raw_sources@ =~= orig.skip(k).skip(1));
                assert(orig.skip(k).skip(1) =~= orig.skip(k + 1));
            }
        }
        let drained = this.verification_queue.drain_all(0);
        let mut requests: Vec<(RequestId, TRq)> = Vec::new();
        let mut drained = drained;
        while drained.len() > 0
            decreases drained@.len(),
        {
            let (rid, _, ud) = drained.remove(0);
            requests.push((RequestId(rid), ud));
        }
        let mut obsolete: Vec<(u64, u64, TRq)> = Vec::new();
        core::mem::swap(&mut this.obsolete_requests, &mut obsolete);
        while obsolete.len() > 0
            decreases obsolete@.len(),
        {
            let (rid, _, ud) = obsolete.remove(0);
            requests.push((RequestId(rid), ud));
        }
        Disassemble { finalized_block_height, finalized_block_hash, sources, requests }
    }
}

impl<TRq, TSrc, TBl> OptimisticSync<TRq, TSrc, TBl> {
    /// Records a started request and raises its source's counter. A request
    /// that matches no missing span of the queue is immediately filed as
    /// obsolete; either way the counter and the request table stay in step.
    #[verifier::rlimit(100)]
    #[verifier::spinoff_prover]
    pub fn insert_request(&mut self, detail: RequestDetail, user_data: TRq) -> (r: RequestId)
        requires
            old(self).wf(),
            has_opt_source(old(self).sources@, detail.source_id.0),
            old(self).next_request_id < u64::MAX,
            detail.num_blocks >= 1,
            detail.block_height + detail.num_blocks <= u64::MAX,
            old(self).verification_queue.segments@.len() + old(self).obsolete_requests@.len()
                < u64::MAX,
        ensures
            final(self).wf(),
            final(self).chain == old(self).chain,
            r.0 == old(self).next_request_id,
            final(self).next_request_id == old(self).next_request_id + 1,
            !old(self).has_request(r.0),
            final(self).has_request(r.0),
            ({
                let si = opt_source_idx(old(self).sources@, detail.source_id.0);
                final(self).sources@[si].num_ongoing_requests == old(
                    self,
                ).sources@[si].num_ongoing_requests + 1
            }),
            has_queued_request(final(self).verification_queue.segments@, r.0)
                ==> final(self).obsolete_requests@ == old(self).obsolete_requests@,
            !has_queued_request(final(self).verification_queue.segments@, r.0) ==> ({
                &&& final(self).verification_queue == old(self).verification_queue
                &&& final(self).obsolete_requests@.len() == old(self).obsolete_requests@.len() + 1
                &&& (forall|x: int|
                    0 <= x < old(self).obsolete_requests@.len()
                        ==> final(self).obsolete_requests@[x] == old(self).obsolete_requests@[x])
                &&& final(self).obsolete_requests@.last().0 == r.0
                &&& final(self).obsolete_requests@.last().1 == detail.source_id.0
                &&& final(self).obsolete_requests@.last().2 == user_data
            }),
    {
        let rid = self.next_request_id;
        self.next_request_id = rid + 1;
        let si = self.find_source(detail.source_id.0).unwrap();
        proof {
            crate::verification_queue::lemma_count_requested_le_len(
                old(self).verification_queue.segments@,
                detail.source_id.0,
            );
            lemma_count_obsolete_le_len(old(self).obsolete_requests@, detail.source_id.0);
            assert forall|x: int|
                0 <= x < old(self).verification_queue.segments@.len() implies !((
            #[trigger] old(self).verification_queue.segments@[x]).state
                matches SegmentState::Requested { request_id: rx, .. } && rx == rid) by {}
            assert(!has_queued_request(old(self).verification_queue.segments@, rid));
            assert forall|x: int|
                0 <= x < old(self).obsolete_requests@.len() implies (
            #[trigger] old(self).obsolete_requests@[x]).0 != rid by {}
            assert(!has_obsolete(old(self).obsolete_requests@, rid));
        }
        let rejected = self.verification_queue.insert_request(
            detail.block_height,
            detail.num_blocks,
            detail.source_id.0,
            rid,
            user_data,
        );
        let went_to_queue = rejected.is_none();
        match rejected {
            Option::Some(ud) => {
                self.obsolete_requests.push((rid, detail.source_id.0, ud));
                proof {
                    assert(self.obsolete_requests@[self.obsolete_requests@.len() - 1].0 == rid);
                    assert(has_obsolete(self.obsolete_requests@, rid));
                }
            },
            Option::None => {},
        }
        let mut e = self.sources.remove(si);
        e.num_ongoing_requests = e.num_ongoing_requests + 1;
        self.sources.insert(si, e);
        proof {
            assert(self.sources@ =~= old(self).sources@.update(si as int, self.sources@[si as int]));
            lemma_wf_after_new_request(*old(self), *self, rid, detail.source_id.0, went_to_queue);
        }
        RequestId(rid)
    }
}

/// Well-formedness survives starting a request: exactly one source's
/// counter rose by one, and the new request went to the queue or straight
/// to the obsolete list under a fresh identifier.
#[verifier::rlimit(100)]
pub proof fn lemma_wf_after_new_request<TRq, TSrc, TBl>(
    pre: OptimisticSync<TRq, TSrc, TBl>,
    post: OptimisticSync<TRq, TSrc, TBl>,
    rid: u64,
    sid: u64,
    went_to_queue: bool,
)
    requires
        pre.wf(),
        has_opt_source(pre.sources@, sid),
        rid == pre.next_request_id,
        rid < u64::MAX,
        post.next_request_id == rid + 1,
        post.chain == pre.chain,
        post.pending_encoded_justifications == pre.pending_encoded_justifications,
        post.next_source_id == pre.next_source_id,
        post.download_ahead_blocks == pre.download_ahead_blocks,
        post.finalized_runtime == pre.finalized_runtime,
        post.best_runtime == pre.best_runtime,
        post.full == pre.full,
        post.verification_queue.wf(),
        post.verification_queue.base == pre.verification_queue.base,
        went_to_queue ==> {
            &&& post.obsolete_requests@ == pre.obsolete_requests@
            &&& has_queued_request(post.verification_queue.segments@, rid)
            &&& count_requested(post.verification_queue.segments@, sid) == count_requested(
                pre.verification_queue.segments@,
                sid,
            ) + 1
            &&& (forall|s2: u64|
                s2 != sid ==> count_requested(post.verification_queue.segments@, s2)
                    == count_requested(pre.verification_queue.segments@, s2))
            &&& (forall|rid2: u64|
                rid2 != rid ==> has_queued_request(post.verification_queue.segments@, rid2)
                    == has_queued_request(pre.verification_queue.segments@, rid2))
            &&& (forall|x: int|
                0 <= x < post.verification_queue.segments@.len() ==> match (
                #[trigger] post.verification_queue.segments@[x]).state {
                    SegmentState::Requested { request_id: r2, source: s2, .. } => (r2 == rid && s2
                        == sid) || exists|w: int|
                        0 <= w < pre.verification_queue.segments@.len()
                            && pre.verification_queue.segments@[w]
                            == post.verification_queue.segments@[x],
                    _ => true,
                })
        },
        !went_to_queue ==> {
            &&& post.verification_queue == pre.verification_queue
            &&& post.obsolete_requests@.len() == pre.obsolete_requests@.len() + 1
            &&& (forall|x: int|
                0 <= x < pre.obsolete_requests@.len() ==> post.obsolete_requests@[x]
                    == pre.obsolete_requests@[x])
            &&& post.obsolete_requests@.last().0 == rid
            &&& post.obsolete_requests@.last().1 == sid
        },
        post.sources@.len() == pre.sources@.len(),
        ({
            let si = opt_source_idx(pre.sources@, sid);
            &&& (forall|j: int|
                0 <= j < pre.sources@.len() && j != si ==> post.sources@[j] == pre.sources@[j])
            &&& ({
                let s = pre.sources@[si];
                let t = post.sources@[si];
                t.id == s.id && t.user_data == s.user_data && t.best_block_number
                    == s.best_block_number && t.banned == s.banned && t.num_ongoing_requests
                    == s.num_ongoing_requests + 1
            })
        }),
    ensures
        post.wf(),
{
    let si = opt_source_idx(pre.sources@, sid);
    assert(pre.sources@[si].id == sid);
    assert(forall|j: int|
        0 <= j < post.sources@.len() ==> #[trigger] post.sources@[j].id == pre.sources@[j].id);
    assert forall|j: int|
        0 <= j < post.sources@.len() implies (#[trigger] post.sources@[j]).num_ongoing_requests
        == count_requested(post.verification_queue.segments@, post.sources@[j].id)
        + count_obsolete(post.obsolete_requests@, post.sources@[j].id) by {
        if !went_to_queue {
            assert(post.obsolete_requests@ =~= pre.obsolete_requests@.push(
                post.obsolete_requests@.last(),
            ));
            lemma_count_obsolete_push(
                pre.obsolete_requests@,
                post.obsolete_requests@.last(),
                post.sources@[j].id,
            );
        }
        if j != si {
            assert(post.sources@[j] == pre.sources@[j]);
            assert(post.sources@[j].id != sid);
        }
    }
    assert forall|x: int, y: int|
        0 <= x < post.obsolete_requests@.len() && 0 <= y < post.obsolete_requests@.len() && x != y
        implies (#[trigger] post.obsolete_requests@[x]).0 != (
    #[trigger] post.obsolete_requests@[y]).0 by {
        let n = pre.obsolete_requests@.len() as int;
        if x < n && y < n {
            assert(post.obsolete_requests@[x] == pre.obsolete_requests@[x]);
            assert(post.obsolete_requests@[y] == pre.obsolete_requests@[y]);
        } else if x < n {
            assert(post.obsolete_requests@[x] == pre.obsolete_requests@[x]);
            assert(post.obsolete_requests@[x].0 < rid);
        } else if y < n {
            assert(post.obsolete_requests@[y] == pre.obsolete_requests@[y]);
            assert(post.obsolete_requests@[y].0 < rid);
        }
    }
    assert forall|x: int|
        0 <= x < post.obsolete_requests@.len() implies !has_queued_request(
        post.verification_queue.segments@,
        (#[trigger] post.obsolete_requests@[x]).0,
    ) && post.obsolete_requests@[x].0 < post.next_request_id && has_opt_source(
        post.sources@,
        post.obsolete_requests@[x].1,
    ) by {
        let n = pre.obsolete_requests@.len() as int;
        if x < n {
            assert(post.obsolete_requests@[x] == pre.obsolete_requests@[x]);
            assert(!has_queued_request(
                pre.verification_queue.segments@,
                pre.obsolete_requests@[x].0,
            ));
            assert(pre.obsolete_requests@[x].0 != rid);
            assert(has_opt_source(pre.sources@, pre.obsolete_requests@[x].1));
            let w = opt_source_idx(pre.sources@, pre.obsolete_requests@[x].1);
            assert(post.sources@[w].id == pre.obsolete_requests@[x].1);
        } else {
            assert(post.obsolete_requests@[x].0 == rid);
            assert(post.sources@[si].id == sid);
        }
    }
    assert forall|x: int|
        0 <= x < post.verification_queue.segments@.len() implies match (
    #[trigger] post.verification_queue.segments@[x]).state {
        SegmentState::Requested { request_id, source, .. } => request_id < post.next_request_id
            && has_opt_source(post.sources@, source),
        _ => true,
    } by {
        match post.verification_queue.segments@[x].state {
            SegmentState::Requested { request_id: r2, source: s2, .. } => {
                if went_to_queue && !(r2 == rid && s2 == sid) {
                    let w = choose|w: int|
                        0 <= w < pre.verification_queue.segments@.len()
                            && pre.verification_queue.segments@[w]
                            == post.verification_queue.segments@[x];
                    assert(has_opt_source(pre.sources@, s2));
                    assert(r2 < rid);
                } else if !went_to_queue {
                    assert(post.verification_queue.segments@[x]
                        == pre.verification_queue.segments@[x]);
                    assert(has_opt_source(pre.sources@, s2));
                    assert(r2 < rid);
                }
                if has_opt_source(pre.sources@, s2) {
                    let w = opt_source_idx(pre.sources@, s2);
                    assert(post.sources@[w].id == s2);
                } else {
                    assert(post.sources@[si].id == sid);
                }
            },
            _ => {},
        }
    }
}

/// A source's obsolete count never exceeds the obsolete list's length.
pub proof fn lemma_count_obsolete_le_len<TRq>(obsolete: Seq<(u64, u64, TRq)>, sid: u64)
    ensures
        0 <= count_obsolete(obsolete, sid) <= obsolete.len(),
    decreases obsolete.len(),
{
    if obsolete.len() > 0 {
        lemma_count_obsolete_le_len(obsolete.drop_last(), sid);
    }
}

/// Well-formedness survives a change that only touches banned flags.
pub proof fn lemma_wf_after_ban_change<TRq, TSrc, TBl>(
    pre: OptimisticSync<TRq, TSrc, TBl>,
    post: OptimisticSync<TRq, TSrc, TBl>,
)
    requires
        pre.wf(),
        OptimisticSync::<TRq, TSrc, TBl>::same_sources_except_bans(pre, post),
        post.chain == pre.chain,
        post.verification_queue == pre.verification_queue,
        post.obsolete_requests@ == pre.obsolete_requests@,
        post.pending_encoded_justifications == pre.pending_encoded_justifications,
        post.next_request_id == pre.next_request_id,
        post.next_source_id == pre.next_source_id,
        post.download_ahead_blocks == pre.download_ahead_blocks,
        post.finalized_runtime == pre.finalized_runtime,
        post.best_runtime == pre.best_runtime,
        post.full == pre.full,
    ensures
        post.wf(),
{
    assert(forall|j: int|
        0 <= j < post.sources@.len() ==> #[trigger] post.sources@[j].id == pre.sources@[j].id
            && post.sources@[j].num_ongoing_requests
            == pre.sources@[j].num_ongoing_requests);
    assert forall|x: int|
        0 <= x < post.verification_queue.segments@.len() implies match (
    #[trigger] post.verification_queue.segments@[x]).state {
        SegmentState::Requested { request_id, source, .. } => request_id < post.next_request_id
            && has_opt_source(post.sources@, source),
        _ => true,
    } by {
        match post.verification_queue.segments@[x].state {
            SegmentState::Requested { source: s2, .. } => {
                assert(has_opt_source(pre.sources@, s2));
                let w = opt_source_idx(pre.sources@, s2);
                assert(post.sources@[w].id == s2);
            },
            _ => {},
        }
    }
    assert forall|x: int|
        0 <= x < post.obsolete_requests@.len() implies has_opt_source(
        post.sources@,
        (#[trigger] post.obsolete_requests@[x]).1,
    ) by {
        assert(has_opt_source(pre.sources@, post.obsolete_requests@[x].1));
        let w = opt_source_idx(pre.sources@, post.obsolete_requests@[x].1);
        assert(post.sources@[w].id == post.obsolete_requests@[x].1);
    }
}

/// A source that no segment names has a zero queue count.
pub proof fn lemma_queue_count_zero_for_unknown<TRq, TSrc, TB>(
    segments: Seq<Segment<TRq, TB>>,
    sources: Seq<OptSource<TSrc>>,
    id: u64,
)
    requires
        forall|i: int|
            0 <= i < segments.len() ==> match (#[trigger] segments[i]).state {
                SegmentState::Requested { source, .. } => has_opt_source(sources, source),
                _ => true,
            },
        forall|i: int| 0 <= i < sources.len() ==> (#[trigger] sources[i]).id != id,
    ensures
        count_requested(segments, id) == 0,
    decreases segments.len(),
{
    if segments.len() > 0 {
        assert(forall|i: int|
            0 <= i < segments.len() - 1 ==> segments.drop_last()[i] == segments[i]);
        lemma_queue_count_zero_for_unknown(segments.drop_last(), sources, id);
        match segments.last().state {
            SegmentState::Requested { source, .. } => {
                assert(has_opt_source(sources, source));
                let w = opt_source_idx(sources, source);
                assert(sources[w].id == source);
                assert(source != id);
            },
            _ => {},
        }
    }
}

} // verus!
