//! Blocks whose ancestry with the finalized chain is unknown, the sources
//! that claim to know them, and the requests in flight towards those sources.
//!
//! The *disjoint set* holds blocks above the finalized height whose link to
//! the finalized chain has not been established yet. Each source carries its
//! best block, the set of blocks it is believed to know, and a counter of its
//! ongoing requests, which always equals the number of entries of the request
//! table that name it.

use vstd::prelude::*;

use crate::bytes::bytes_eq;

verus! {

/// Identifier of a source of blocks. Stale after the source is removed.
#[derive(Debug, Clone, Copy, PartialEq, Eq, Structural, Hash)]
pub struct SourceId(pub u64);

/// Identifier of an ongoing request. Stale after the request finishes.
#[derive(Debug, Clone, Copy, PartialEq, Eq, Structural, Hash)]
pub struct RequestId(pub u64);

/// Parameters of an ancestry search: download `num_blocks` blocks starting at
/// `(first_block_height, first_block_hash)` and descending by parent hash.
pub struct RequestParams {
    pub first_block_hash: Vec<u8>,
    pub first_block_height: u64,
    pub num_blocks: u64,
}

/// How much is known about an unverified block.
pub enum UnverifiedBlockState {
    /// Only the height and hash are known.
    HeightHashKnown,
    /// The header, and therefore the parent hash, is known.
    HeaderKnown { parent_hash: Vec<u8> },
    /// The block is known to be bad; it is never verified and never descended
    /// from. This state is terminal.
    BadKnown { bad_parent_hash: Option<Vec<u8>> },
}

impl UnverifiedBlockState {
    /// Parent hash, if learned.
    pub open spec fn parent(self) -> Option<Seq<u8>> {
        match self {
            UnverifiedBlockState::HeightHashKnown => Option::None,
            UnverifiedBlockState::HeaderKnown { parent_hash } => Option::Some(parent_hash@),
            UnverifiedBlockState::BadKnown { bad_parent_hash: parent_hash } => match parent_hash {
                Option::Some(p) => Option::Some(p@),
                Option::None => Option::None,
            },
        }
    }

    /// True for blocks known to be bad.
    pub open spec fn is_bad(self) -> bool {
        self is BadKnown
    }
}

/// One entry of the disjoint set.
pub struct BlockEntry<TBl> {
    pub height: u64,
    pub hash: Vec<u8>,
    pub state: UnverifiedBlockState,
    pub user_data: TBl,
}

/// A block a source is believed to know.
pub struct KnownBlock {
    pub height: u64,
    pub hash: Vec<u8>,
}

/// One registered source of blocks.
pub struct SourceEntry<TSrc> {
    pub id: u64,
    pub user_data: TSrc,
    pub best_height: u64,
    pub best_hash: Vec<u8>,
    pub known: Vec<KnownBlock>,
    pub num_requests: usize,
}

/// One request in flight.
pub struct RequestEntry<TRq> {
    pub id: u64,
    pub source: u64,
    pub params: RequestParams,
    pub user_data: TRq,
}

/// The entry is keyed by this (height, hash) pair.
pub open spec fn block_matches<TBl>(e: BlockEntry<TBl>, height: u64, hash: Seq<u8>) -> bool {
    e.height == height && e.hash@ == hash
}

/// Some entry of `blocks` is keyed by this (height, hash) pair.
pub open spec fn has_block_in<TBl>(blocks: Seq<BlockEntry<TBl>>, height: u64, hash: Seq<u8>) -> bool {
    exists|i: int| 0 <= i < blocks.len() && block_matches(blocks[i], height, hash)
}

/// Index of the entry keyed by this (height, hash) pair.
pub open spec fn block_idx<TBl>(blocks: Seq<BlockEntry<TBl>>, height: u64, hash: Seq<u8>) -> int {
    choose|i: int| 0 <= i < blocks.len() && block_matches(blocks[i], height, hash)
}

/// The known-blocks entry is keyed by this (height, hash) pair.
pub open spec fn known_matches(e: KnownBlock, height: u64, hash: Seq<u8>) -> bool {
    e.height == height && e.hash@ == hash
}

/// The source is believed to know the block (height, hash).
pub open spec fn knows_in(known: Seq<KnownBlock>, height: u64, hash: Seq<u8>) -> bool {
    exists|i: int| 0 <= i < known.len() && known_matches(known[i], height, hash)
}

/// No two known-blocks entries share a key.
pub open spec fn known_unique(known: Seq<KnownBlock>) -> bool {
    forall|i: int, j: int|
        0 <= i < known.len() && 0 <= j < known.len() && i != j ==> !known_matches(
            known[i],
            known[j].height,
            known[j].hash@,
        )
}

/// Some source entry carries this identifier.
pub open spec fn has_source_in<TSrc>(sources: Seq<SourceEntry<TSrc>>, id: u64) -> bool {
    exists|i: int| 0 <= i < sources.len() && sources[i].id == id
}

/// Index of the source entry carrying this identifier.
pub open spec fn source_idx<TSrc>(sources: Seq<SourceEntry<TSrc>>, id: u64) -> int {
    choose|i: int| 0 <= i < sources.len() && sources[i].id == id
}

/// Some request entry carries this identifier.
pub open spec fn has_request_in<TRq>(requests: Seq<RequestEntry<TRq>>, id: u64) -> bool {
    exists|i: int| 0 <= i < requests.len() && requests[i].id == id
}

/// Index of the request entry carrying this identifier.
pub open spec fn request_idx<TRq>(requests: Seq<RequestEntry<TRq>>, id: u64) -> int {
    choose|i: int| 0 <= i < requests.len() && requests[i].id == id
}

/// Number of requests that name the source `sid`.
pub open spec fn count_reqs<TRq>(requests: Seq<RequestEntry<TRq>>, sid: u64) -> int
    decreases requests.len(),
{
    if requests.len() == 0 {
        0
    } else {
        count_reqs(requests.drop_last(), sid) + if requests.last().source == sid {
            1int
        } else {
            0int
        }
    }
}

/// Appending a request raises exactly its own source's count by one.
pub proof fn lemma_count_reqs_push<TRq>(
    requests: Seq<RequestEntry<TRq>>,
    e: RequestEntry<TRq>,
    sid: u64,
)
    ensures
        count_reqs(requests.push(e), sid) == count_reqs(requests, sid) + if e.source == sid {
            1int
        } else {
            0int
        },
{
    assert(requests.push(e).drop_last() =~= requests);
    assert(requests.push(e).last() == e);
}

/// Removing a request lowers exactly its own source's count by one.
pub proof fn lemma_count_reqs_remove<TRq>(requests: Seq<RequestEntry<TRq>>, i: int, sid: u64)
    requires
        0 <= i < requests.len(),
    ensures
        count_reqs(requests.remove(i), sid) == count_reqs(requests, sid) - if requests[i].source
            == sid {
            1int
        } else {
            0int
        },
    decreases requests.len(),
{
    if i == requests.len() - 1 {
        assert(requests.remove(i) =~= requests.drop_last());
    } else {
        let r2 = requests.remove(i);
        assert(r2.drop_last() =~= requests.drop_last().remove(i));
        assert(r2.last() == requests.last());
        lemma_count_reqs_remove(requests.drop_last(), i, sid);
    }
}

/// A source's count is zero exactly when no request names it.
pub proof fn lemma_count_reqs_zero<TRq>(requests: Seq<RequestEntry<TRq>>, sid: u64)
    ensures
        (count_reqs(requests, sid) == 0) <==> (forall|i: int|
            0 <= i < requests.len() ==> requests[i].source != sid),
        count_reqs(requests, sid) >= 0,
    decreases requests.len(),
{
    if requests.len() > 0 {
        lemma_count_reqs_zero(requests.drop_last(), sid);
        assert(forall|i: int|
            0 <= i < requests.len() - 1 ==> requests.drop_last()[i] == requests[i]);
    }
}

/// Well-formedness of the known-blocks sets carries over when at most one
/// source entry changed and that entry's set is itself well-formed.
pub proof fn lemma_known_unique_transfer<TSrc>(
    pre: Seq<SourceEntry<TSrc>>,
    post: Seq<SourceEntry<TSrc>>,
    except: int,
    fin: u64,
)
    requires
        post.len() == pre.len(),
        forall|j: int| 0 <= j < pre.len() && j != except ==> post[j] == pre[j],
        forall|j: int| 0 <= j < pre.len() ==> known_unique(#[trigger] pre[j].known@),
        forall|j: int, k: int|
            0 <= j < pre.len() && 0 <= k < pre[j].known@.len()
                ==> (#[trigger] pre[j].known@[k]).height > fin,
        0 <= except < post.len() ==> known_unique(post[except].known@) && forall|k: int|
            0 <= k < post[except].known@.len() ==> (#[trigger] post[except].known@[k]).height
                > fin,
    ensures
        forall|j: int| 0 <= j < post.len() ==> known_unique(#[trigger] post[j].known@),
        forall|j: int, k: int|
            0 <= j < post.len() && 0 <= k < post[j].known@.len()
                ==> (#[trigger] post[j].known@[k]).height > fin,
{
    assert forall|j: int| 0 <= j < post.len() implies known_unique(#[trigger] post[j].known@) by {
        if j != except {
            assert(post[j] == pre[j]);
            assert(known_unique(pre[j].known@));
        }
    }
    assert forall|j: int, k: int|
        0 <= j < post.len() && 0 <= k < post[j].known@.len() implies (#[trigger] post[j].known@[k]).height
        > fin by {
        if j != except {
            assert(post[j] == pre[j]);
            assert(pre[j].known@[k].height > fin);
        }
    }
}

/// The disjoint set, the source registry and the request table.
pub struct PendingBlocks<TBl, TRq, TSrc> {
    /// Height of the latest finalized block; nothing at or below it is kept.
    pub finalized_height: u64,
    /// Bound on the number of entries of the disjoint set. The engines run a
    /// collection pass after every insertion that reaches the bound.
    pub max_disjoint: usize,
    /// Maximum number of simultaneous requests towards the same block.
    pub max_requests_per_block: u64,
    pub blocks: Vec<BlockEntry<TBl>>,
    pub sources: Vec<SourceEntry<TSrc>>,
    pub requests: Vec<RequestEntry<TRq>>,
    pub next_source_id: u64,
    pub next_request_id: u64,
}

impl<TBl, TRq, TSrc> PendingBlocks<TBl, TRq, TSrc> {
    /// Disjoint-set entries have unique keys and sit above the finalized
    /// height.
    pub open spec fn blocks_wf(self) -> bool {
        &&& forall|i: int, j: int|
            0 <= i < self.blocks@.len() && 0 <= j < self.blocks@.len() && i != j
                ==> !block_matches(self.blocks@[i], self.blocks@[j].height, self.blocks@[j].hash@)
        &&& forall|i: int|
            0 <= i < self.blocks@.len() ==> #[trigger] self.blocks@[i].height
                > self.finalized_height
    }

    /// Source identifiers are unique and below the allocation counter; each
    /// source's known-blocks set has unique keys, all above the finalized
    /// height.
    pub open spec fn sources_wf(self) -> bool {
        &&& forall|i: int, j: int|
            0 <= i < self.sources@.len() && 0 <= j < self.sources@.len() && i != j
                ==> #[trigger] self.sources@[i].id != #[trigger] self.sources@[j].id
        &&& forall|i: int|
            0 <= i < self.sources@.len() ==> #[trigger] self.sources@[i].id < self.next_source_id
        &&& forall|i: int|
            0 <= i < self.sources@.len() ==> known_unique(#[trigger] self.sources@[i].known@)
        &&& forall|i: int, k: int|
            0 <= i < self.sources@.len() && 0 <= k < self.sources@[i].known@.len()
                ==> (#[trigger] self.sources@[i].known@[k]).height > self.finalized_height
    }

    /// Request identifiers are unique and below the allocation counter; every
    /// request names an existing source; every source's request counter
    /// equals the number of requests that name it.
    pub open spec fn requests_wf(self) -> bool {
        &&& forall|i: int, j: int|
            0 <= i < self.requests@.len() && 0 <= j < self.requests@.len() && i != j
                ==> #[trigger] self.requests@[i].id != #[trigger] self.requests@[j].id
        &&& forall|i: int|
            0 <= i < self.requests@.len() ==> #[trigger] self.requests@[i].id
                < self.next_request_id
        &&& forall|i: int|
            0 <= i < self.requests@.len() ==> has_source_in(
                self.sources@,
                #[trigger] self.requests@[i].source,
            )
        &&& forall|i: int|
            0 <= i < self.sources@.len() ==> #[trigger] self.sources@[i].num_requests == count_reqs(
                self.requests@,
                self.sources@[i].id,
            )
    }

    pub open spec fn wf(self) -> bool {
        self.blocks_wf() && self.sources_wf() && self.requests_wf()
    }

    /// The disjoint set holds an entry for (height, hash).
    pub open spec fn has_block(self, height: u64, hash: Seq<u8>) -> bool {
        has_block_in(self.blocks@, height, hash)
    }

    /// A source with this identifier is registered.
    pub open spec fn has_source(self, id: u64) -> bool {
        has_source_in(self.sources@, id)
    }

    /// A request with this identifier is in flight.
    pub open spec fn has_request(self, id: u64) -> bool {
        has_request_in(self.requests@, id)
    }

    /// Creates an empty structure.
    pub fn new(finalized_height: u64, max_disjoint: usize, max_requests_per_block: u64) -> (r:
        PendingBlocks<TBl, TRq, TSrc>)
        ensures
            r.wf(),
            r.finalized_height == finalized_height,
            r.max_disjoint == max_disjoint,
            r.max_requests_per_block == max_requests_per_block,
            r.blocks@.len() == 0,
            r.sources@.len() == 0,
            r.requests@.len() == 0,
    {
        PendingBlocks {
            finalized_height,
            max_disjoint,
            max_requests_per_block,
            blocks: Vec::new(),
            sources: Vec::new(),
            requests: Vec::new(),
            next_source_id: 0,
            next_request_id: 0,
        }
    }

    /// Number of entries in the disjoint set.
    pub fn num_unverified_blocks(&self) -> (r: usize)
        ensures
            r == self.blocks@.len(),
    {
        self.blocks.len()
    }

    /// Index of the disjoint-set entry for (height, hash), if any.
    pub fn find_block(&self, height: u64, hash: &Vec<u8>) -> (r: Option<usize>)
        requires
            self.blocks_wf(),
        ensures
            match r {
                Option::Some(i) => i < self.blocks@.len() && block_matches(
                    self.blocks@[i as int],
                    height,
                    hash@,
                ) && i == block_idx(self.blocks@, height, hash@) && self.has_block(height, hash@),
                Option::None => !self.has_block(height, hash@),
            },
    {
        let mut i: usize = 0;
        loop
            invariant
                self.blocks_wf(),
                i <= self.blocks@.len(),
                forall|j: int| 0 <= j < i ==> !block_matches(self.blocks@[j], height, hash@),
            decreases self.blocks@.len() - i,
        {
            if i == self.blocks.len() {
                return Option::None;
            }
            if self.blocks[i].height == height && bytes_eq(&self.blocks[i].hash, hash) {
                return Option::Some(i);
            }
            i = i + 1;
        }
    }

    /// True if the disjoint set holds an entry for (height, hash).
    pub fn contains_unverified_block(&self, height: u64, hash: &Vec<u8>) -> (r: bool)
        requires
            self.blocks_wf(),
        ensures
            r == self.has_block(height, hash@),
    {
        self.find_block(height, hash).is_some()
    }

    /// Read access to a disjoint-set entry by index.
    pub fn block_at(&self, i: usize) -> (r: &BlockEntry<TBl>)
        requires
            i < self.blocks@.len(),
        ensures
            *r == self.blocks@[i as int],
    {
        &self.blocks[i]
    }

    /// Inserts a block in the disjoint set. If an entry with the same
    /// (height, hash) already exists, nothing changes and the user data is
    /// handed back: insertion is idempotent by block identity.
    pub fn insert_unverified_block(
        &mut self,
        height: u64,
        hash: Vec<u8>,
        state: UnverifiedBlockState,
        user_data: TBl,
    ) -> (r: Option<TBl>)
        requires
            old(self).wf(),
            height > old(self).finalized_height,
        ensures
            final(self).wf(),
            final(self).sources@ == old(self).sources@,
            final(self).requests@ == old(self).requests@,
            final(self).finalized_height == old(self).finalized_height,
            final(self).max_disjoint == old(self).max_disjoint,
            final(self).max_requests_per_block == old(self).max_requests_per_block,
            final(self).next_source_id == old(self).next_source_id,
            final(self).next_request_id == old(self).next_request_id,
            if old(self).has_block(height, hash@) {
                final(self).blocks@ == old(self).blocks@ && (r matches Option::Some(ud) && ud
                    == user_data)
            } else {
                final(self).blocks@ == old(self).blocks@.push(
                    (BlockEntry { height, hash, state, user_data }),
                ) && r is None
            },
    {
        if self.find_block(height, &hash).is_some() {
            return Option::Some(user_data);
        }
        self.blocks.push(BlockEntry { height, hash, state, user_data });
        proof {
            assert(forall|j: int|
                0 <= j < old(self).blocks@.len() ==> final(self).blocks@[j] == old(
                    self,
                ).blocks@[j]);
        }
        Option::None
    }

    /// Records the parent of a block once its header is learned: transitions
    /// the entry from [`UnverifiedBlockState::HeightHashKnown`] to
    /// [`UnverifiedBlockState::HeaderKnown`]. A bad entry stays bad, only
    /// learning its parent; an entry that already knows its header is left
    /// alone.
    pub fn set_unverified_block_header_known(&mut self, height: u64, hash: &Vec<u8>, parent_hash: Vec<u8>)
        requires
            old(self).wf(),
            old(self).has_block(height, hash@),
        ensures
            final(self).wf(),
            final(self).sources@ == old(self).sources@,
            final(self).requests@ == old(self).requests@,
            final(self).finalized_height == old(self).finalized_height,
            final(self).max_disjoint == old(self).max_disjoint,
            final(self).max_requests_per_block == old(self).max_requests_per_block,
            final(self).next_source_id == old(self).next_source_id,
            final(self).next_request_id == old(self).next_request_id,
            ({
                let i = block_idx(old(self).blocks@, height, hash@);
                let e = old(self).blocks@[i];
                let new_state = match e.state {
                    UnverifiedBlockState::HeightHashKnown => (UnverifiedBlockState::HeaderKnown {
                        parent_hash: parent_hash,
                    }),
                    UnverifiedBlockState::HeaderKnown { parent_hash: p } => (
                    UnverifiedBlockState::HeaderKnown { parent_hash: p }),
                    UnverifiedBlockState::BadKnown { bad_parent_hash: p } => (
                    UnverifiedBlockState::BadKnown {
                        bad_parent_hash: match p {
                            Option::Some(q) => Option::Some(q),
                            Option::None => Option::Some(parent_hash),
                        },
                    }),
                };
                final(self).blocks@ == old(self).blocks@.update(
                    i,
                    (BlockEntry {
                        height: e.height,
                        hash: e.hash,
                        state: new_state,
                        user_data: e.user_data,
                    }),
                )
            }),
    {
        let i = self.find_block(height, hash).unwrap();
        let e = self.blocks.remove(i);
        let new_state = match e.state {
            UnverifiedBlockState::HeightHashKnown => UnverifiedBlockState::HeaderKnown {
                parent_hash,
            },
            UnverifiedBlockState::HeaderKnown { parent_hash: p } => {
                UnverifiedBlockState::HeaderKnown { parent_hash: p }
            },
            UnverifiedBlockState::BadKnown { bad_parent_hash: p } => {
                let q = match p {
                    Option::Some(q) => Option::Some(q),
                    Option::None => Option::Some(parent_hash),
                };
                UnverifiedBlockState::BadKnown { bad_parent_hash: q }
            },
        };
        self.blocks.insert(
            i,
            BlockEntry { height: e.height, hash: e.hash, state: new_state, user_data: e.user_data },
        );
        proof {
            assert(final(self).blocks@ =~= old(self).blocks@.update(
                i as int,
                final(self).blocks@[i as int],
            ));
        }
    }

    /// Exchanges the user data of a disjoint-set block with the given value.
    pub fn swap_block_user_data(&mut self, height: u64, hash: &Vec<u8>, user_data: &mut TBl)
        requires
            old(self).wf(),
            old(self).has_block(height, hash@),
        ensures
            final(self).wf(),
            final(self).sources@ == old(self).sources@,
            final(self).requests@ == old(self).requests@,
            final(self).finalized_height == old(self).finalized_height,
            final(self).max_disjoint == old(self).max_disjoint,
            final(self).max_requests_per_block == old(self).max_requests_per_block,
            final(self).next_source_id == old(self).next_source_id,
            final(self).next_request_id == old(self).next_request_id,
            ({
                let i = block_idx(old(self).blocks@, height, hash@);
                let e = old(self).blocks@[i];
                &&& *final(user_data) == e.user_data
                &&& final(self).blocks@ == old(self).blocks@.update(
                    i,
                    (BlockEntry {
                        height: e.height,
                        hash: e.hash,
                        state: e.state,
                        user_data: *old(user_data),
                    }),
                )
            }),
    {
        let i = self.find_block(height, hash).unwrap();
        let mut e = self.blocks.remove(i);
        core::mem::swap(&mut e.user_data, user_data);
        self.blocks.insert(i, e);
        proof {
            assert(self.blocks@ =~= old(self).blocks@.update(i as int, self.blocks@[i as int]));
        }
    }

    /// Marks a block of the disjoint set as bad, keeping whatever is known of
    /// its parent. The transition is terminal.
    pub fn mark_unverified_block_as_bad(&mut self, height: u64, hash: &Vec<u8>)
        requires
            old(self).wf(),
            old(self).has_block(height, hash@),
        ensures
            final(self).wf(),
            final(self).sources@ == old(self).sources@,
            final(self).requests@ == old(self).requests@,
            final(self).finalized_height == old(self).finalized_height,
            final(self).max_disjoint == old(self).max_disjoint,
            final(self).max_requests_per_block == old(self).max_requests_per_block,
            final(self).next_source_id == old(self).next_source_id,
            final(self).next_request_id == old(self).next_request_id,
            ({
                let i = block_idx(old(self).blocks@, height, hash@);
                let e = old(self).blocks@[i];
                final(self).blocks@ == old(self).blocks@.update(
                    i,
                    (BlockEntry {
                        height: e.height,
                        hash: e.hash,
                        state: (UnverifiedBlockState::BadKnown { bad_parent_hash: e.state.spec_parent_vec() }),
                        user_data: e.user_data,
                    }),
                )
            }),
    {
        let i = self.find_block(height, hash).unwrap();
        let e = self.blocks.remove(i);
        let p = match e.state {
            UnverifiedBlockState::HeightHashKnown => Option::None,
            UnverifiedBlockState::HeaderKnown { parent_hash } => Option::Some(parent_hash),
            UnverifiedBlockState::BadKnown { bad_parent_hash: parent_hash } => parent_hash,
        };
        self.blocks.insert(
            i,
            BlockEntry {
                height: e.height,
                hash: e.hash,
                state: UnverifiedBlockState::BadKnown { bad_parent_hash: p },
                user_data: e.user_data,
            },
        );
        proof {
            assert(final(self).blocks@ =~= old(self).blocks@.update(
                i as int,
                final(self).blocks@[i as int],
            ));
        }
    }

    /// Removes a block from the disjoint set, handing back its user data.
    /// Exactly the entry keyed by (height, hash) disappears; everything else
    /// is untouched, so an insertion followed by this removal is a no-op.
    pub fn remove_unverified_block(&mut self, height: u64, hash: &Vec<u8>) -> (r: TBl)
        requires
            old(self).wf(),
            old(self).has_block(height, hash@),
        ensures
            final(self).wf(),
            final(self).sources@ == old(self).sources@,
            final(self).requests@ == old(self).requests@,
            final(self).finalized_height == old(self).finalized_height,
            final(self).max_disjoint == old(self).max_disjoint,
            final(self).max_requests_per_block == old(self).max_requests_per_block,
            final(self).next_source_id == old(self).next_source_id,
            final(self).next_request_id == old(self).next_request_id,
            final(self).blocks@ == old(self).blocks@.remove(
                block_idx(old(self).blocks@, height, hash@),
            ),
            r == old(self).blocks@[block_idx(old(self).blocks@, height, hash@)].user_data,
            !final(self).has_block(height, hash@),
    {
        let i = self.find_block(height, hash).unwrap();
        let e = self.blocks.remove(i);
        proof {
            assert(forall|j: int|
                0 <= j < final(self).blocks@.len() ==> final(self).blocks@[j] == if j < i {
                    old(self).blocks@[j]
                } else {
                    old(self).blocks@[j + 1]
                });
        }
        e.user_data
    }
}

impl<TBl, TRq, TSrc> PendingBlocks<TBl, TRq, TSrc> {
    /// Everything but the source registry and its allocation counter is the
    /// same in the two states.
    pub open spec fn same_except_sources(pre: Self, post: Self) -> bool {
        &&& post.blocks@ == pre.blocks@
        &&& post.requests@ == pre.requests@
        &&& post.finalized_height == pre.finalized_height
        &&& post.max_disjoint == pre.max_disjoint
        &&& post.max_requests_per_block == pre.max_requests_per_block
        &&& post.next_request_id == pre.next_request_id
    }

    /// Index of the source with this identifier, if any.
    pub fn find_source(&self, id: u64) -> (r: Option<usize>)
        requires
            self.sources_wf(),
        ensures
            match r {
                Option::Some(i) => i < self.sources@.len() && self.sources@[i as int].id == id && i
                    == source_idx(self.sources@, id) && self.has_source(id),
                Option::None => !self.has_source(id),
            },
    {
        let mut i: usize = 0;
        loop
            invariant
                self.sources_wf(),
                i <= self.sources@.len(),
                forall|j: int| 0 <= j < i ==> self.sources@[j].id != id,
            decreases self.sources@.len() - i,
        {
            if i == self.sources.len() {
                return Option::None;
            }
            if self.sources[i].id == id {
                return Option::Some(i);
            }
            i = i + 1;
        }
    }

    /// Identifiers of the registered sources, in registration order.
    pub fn sources(&self) -> (r: Vec<SourceId>)
        ensures
            r@.len() == self.sources@.len(),
            forall|i: int| 0 <= i < r@.len() ==> r@[i].0 == self.sources@[i].id,
    {
        let mut r: Vec<SourceId> = Vec::new();
        let mut i: usize = 0;
        while i < self.sources.len()
            invariant
                i <= self.sources@.len(),
                r@.len() == i,
                forall|j: int| 0 <= j < i ==> r@[j].0 == self.sources@[j].id,
            decreases self.sources@.len() - i,
        {
            r.push(SourceId(self.sources[i].id));
            i = i + 1;
        }
        r
    }

    /// Registers a new source, which is believed to know its declared best
    /// block when that block is above the finalized height.
    pub fn add_source(&mut self, user_data: TSrc, best_height: u64, best_hash: Vec<u8>) -> (r:
        SourceId)
        requires
            old(self).wf(),
            old(self).next_source_id < u64::MAX,
        ensures
            final(self).wf(),
            Self::same_except_sources(*old(self), *final(self)),
            final(self).next_source_id == old(self).next_source_id + 1,
            r.0 == old(self).next_source_id,
            !old(self).has_source(r.0),
            final(self).has_source(r.0),
            final(self).sources@.len() == old(self).sources@.len() + 1,
            forall|j: int|
                0 <= j < old(self).sources@.len() ==> final(self).sources@[j] == old(
                    self,
                ).sources@[j],
            ({
                let e = final(self).sources@.last();
                &&& e.id == r.0
                &&& e.user_data == user_data
                &&& e.best_height == best_height
                &&& e.best_hash@ == best_hash@
                &&& e.num_requests == 0
                &&& if best_height > old(self).finalized_height {
                    e.known@.len() == 1 && known_matches(e.known@[0], best_height, best_hash@)
                } else {
                    e.known@.len() == 0
                }
            }),
    {
        let id = self.next_source_id;
        self.next_source_id = id + 1;
        let mut known: Vec<KnownBlock> = Vec::new();
        if best_height > self.finalized_height {
            let hash_copy = crate::bytes::clone_bytes(&best_hash);
            known.push(KnownBlock { height: best_height, hash: hash_copy });
        }
        self.sources.push(
            SourceEntry { id, user_data, best_height, best_hash, known, num_requests: 0 },
        );
        proof {
            let n = old(self).sources@.len() as int;
            assert(forall|j: int|
                0 <= j < n ==> self.sources@[j] == old(self).sources@[j]);
            assert(self.sources@[n].id == id);
            assert(has_source_in(self.sources@, id));
            assert(known_unique(self.sources@[n].known@));
            lemma_count_reqs_zero(self.requests@, id);
            assert forall|k: int|
                0 <= k < self.requests@.len() implies self.requests@[k].source != id by {
                assert(has_source_in(old(self).sources@, self.requests@[k].source));
                let w = choose|w: int|
                    0 <= w < n && old(self).sources@[w].id == self.requests@[k].source;
                assert(old(self).sources@[w].id < id);
            }
            assert forall|i: int|
                0 <= i < self.sources@.len() implies #[trigger] self.sources@[i].num_requests
                == count_reqs(self.requests@, self.sources@[i].id) by {
                if i < n {
                    assert(self.sources@[i] == old(self).sources@[i]);
                }
            }
            assert forall|k2: int|
                0 <= k2 < self.requests@.len() implies has_source_in(
                self.sources@,
                #[trigger] self.requests@[k2].source,
            ) by {
                assert(has_source_in(old(self).sources@, self.requests@[k2].source));
                let w = choose|w: int|
                    0 <= w < old(self).sources@.len() && old(self).sources@[w].id
                        == self.requests@[k2].source;
                assert(self.sources@[w].id == self.requests@[k2].source);
            }
            assert forall|j: int|
                0 <= j < self.sources@.len() implies known_unique(
                #[trigger] self.sources@[j].known@,
            ) by {
                if j < n {
                    assert(self.sources@[j] == old(self).sources@[j]);
                    assert(known_unique(old(self).sources@[j].known@));
                }
            }
            assert forall|j: int, k: int|
                0 <= j < self.sources@.len() && 0 <= k < self.sources@[j].known@.len() implies (
            #[trigger] self.sources@[j].known@[k]).height > self.finalized_height by {
                if j < n {
                    assert(self.sources@[j] == old(self).sources@[j]);
                    assert(old(self).sources@[j].known@[k].height > self.finalized_height);
                }
            }
        }
        SourceId(id)
    }

    /// Read access to a source's opaque user data.
    pub fn source_user_data(&self, source_id: SourceId) -> (r: &TSrc)
        requires
            self.wf(),
            self.has_source(source_id.0),
        ensures
            *r == self.sources@[source_idx(self.sources@, source_id.0)].user_data,
    {
        let i = self.find_source(source_id.0).unwrap();
        &self.sources[i].user_data
    }

    /// Exchanges a source's opaque user data with the given value.
    pub fn swap_source_user_data(&mut self, source_id: SourceId, user_data: &mut TSrc)
        requires
            old(self).wf(),
            old(self).has_source(source_id.0),
        ensures
            final(self).wf(),
            Self::same_except_sources(*old(self), *final(self)),
            final(self).next_source_id == old(self).next_source_id,
            ({
                let si = source_idx(old(self).sources@, source_id.0);
                let s = old(self).sources@[si];
                &&& *final(user_data) == s.user_data
                &&& final(self).sources@ == old(self).sources@.update(
                    si,
                    (SourceEntry {
                        id: s.id,
                        user_data: *old(user_data),
                        best_height: s.best_height,
                        best_hash: s.best_hash,
                        known: s.known,
                        num_requests: s.num_requests,
                    }),
                )
            }),
    {
        let i = self.find_source(source_id.0).unwrap();
        let mut e = self.sources.remove(i);
        core::mem::swap(&mut e.user_data, user_data);
        self.sources.insert(i, e);
        proof {
            assert(self.sources@ =~= old(self).sources@.update(
                i as int,
                self.sources@[i as int],
            ));
            assert(forall|j: int|
                0 <= j < self.sources@.len() ==> #[trigger] self.sources@[j].id == old(
                    self,
                ).sources@[j].id && self.sources@[j].num_requests == old(
                    self,
                ).sources@[j].num_requests && self.sources@[j].known == old(
                    self,
                ).sources@[j].known);
            assert(known_unique(old(self).sources@[i as int].known@));
            lemma_known_unique_transfer(old(self).sources@, self.sources@, i as int, self.finalized_height);
            assert forall|k2: int|
                0 <= k2 < self.requests@.len() implies has_source_in(
                self.sources@,
                #[trigger] self.requests@[k2].source,
            ) by {
                assert(has_source_in(old(self).sources@, self.requests@[k2].source));
                let w = choose|w: int|
                    0 <= w < old(self).sources@.len() && old(self).sources@[w].id
                        == self.requests@[k2].source;
                assert(self.sources@[w].id == self.requests@[k2].source);
            }
        }
    }

    /// The source's current best block, as reported by it.
    pub fn source_best_block(&self, source_id: SourceId) -> (r: (u64, Vec<u8>))
        requires
            self.wf(),
            self.has_source(source_id.0),
        ensures
            ({
                let s = self.sources@[source_idx(self.sources@, source_id.0)];
                r.0 == s.best_height && r.1@ == s.best_hash@
            }),
    {
        let i = self.find_source(source_id.0).unwrap();
        (self.sources[i].best_height, crate::bytes::clone_bytes(&self.sources[i].best_hash))
    }

    /// Number of ongoing requests that name this source.
    pub fn source_num_ongoing_requests(&self, source_id: SourceId) -> (r: usize)
        requires
            self.wf(),
            self.has_source(source_id.0),
        ensures
            r == count_reqs(self.requests@, source_id.0),
    {
        let i = self.find_source(source_id.0).unwrap();
        self.sources[i].num_requests
    }

    /// Index of the known-blocks entry for (height, hash), if any.
    fn scan_known(known: &Vec<KnownBlock>, height: u64, hash: &Vec<u8>) -> (r: Option<usize>)
        ensures
            match r {
                Option::Some(k) => k < known@.len() && known_matches(known@[k as int], height, hash@)
                    && knows_in(known@, height, hash@) && forall|j: int|
                    0 <= j < k ==> !known_matches(known@[j], height, hash@),
                Option::None => !knows_in(known@, height, hash@),
            },
    {
        let mut k: usize = 0;
        loop
            invariant
                k <= known@.len(),
                forall|j: int| 0 <= j < k ==> !known_matches(known@[j], height, hash@),
            decreases known@.len() - k,
        {
            if k == known.len() {
                return Option::None;
            }
            if known[k].height == height && bytes_eq(&known[k].hash, hash) {
                return Option::Some(k);
            }
            k = k + 1;
        }
    }

    /// True if the source has earlier been registered as knowing this block.
    ///
    /// Finalized blocks are intentionally not tracked, so the height must be
    /// above the finalized height.
    pub fn source_knows_non_finalized_block(
        &self,
        source_id: SourceId,
        height: u64,
        hash: &Vec<u8>,
    ) -> (r: bool)
        requires
            self.wf(),
            self.has_source(source_id.0),
            height > self.finalized_height,
        ensures
            r == knows_in(
                self.sources@[source_idx(self.sources@, source_id.0)].known@,
                height,
                hash@,
            ),
    {
        let i = self.find_source(source_id.0).unwrap();
        Self::scan_known(&self.sources[i].known, height, hash).is_some()
    }

    /// Identifiers of all the sources believed to know this block.
    pub fn knows_non_finalized_block(&self, height: u64, hash: &Vec<u8>) -> (r: Vec<SourceId>)
        requires
            self.wf(),
            height > self.finalized_height,
        ensures
            forall|k: int|
                0 <= k < r@.len() ==> self.has_source(#[trigger] r@[k].0) && knows_in(
                    self.sources@[source_idx(self.sources@, r@[k].0)].known@,
                    height,
                    hash@,
                ),
            forall|i: int|
                0 <= i < self.sources@.len() && knows_in(
                    #[trigger] self.sources@[i].known@,
                    height,
                    hash@,
                ) ==> r@.contains(SourceId(self.sources@[i].id)),
    {
        let mut r: Vec<SourceId> = Vec::new();
        let mut i: usize = 0;
        while i < self.sources.len()
            invariant
                self.wf(),
                i <= self.sources@.len(),
                forall|k: int|
                    0 <= k < r@.len() ==> self.has_source(#[trigger] r@[k].0) && knows_in(
                        self.sources@[source_idx(self.sources@, r@[k].0)].known@,
                        height,
                        hash@,
                    ),
                forall|j: int|
                    0 <= j < i && knows_in(#[trigger] self.sources@[j].known@, height, hash@)
                        ==> r@.contains(SourceId(self.sources@[j].id)),
            decreases self.sources@.len() - i,
        {
            let ghost old_r = r@;
            if Self::scan_known(&self.sources[i].known, height, hash).is_some() {
                proof {
                    assert(self.sources@[source_idx(self.sources@, self.sources@[i as int].id)]
                        == self.sources@[i as int]);
                }
                r.push(SourceId(self.sources[i].id));
                proof {
                    assert forall|j: int|
                        0 <= j < i + 1 && knows_in(
                            #[trigger] self.sources@[j].known@,
                            height,
                            hash@,
                        ) implies r@.contains(SourceId(self.sources@[j].id)) by {
                        if j < i {
                            let w = choose|w: int|
                                0 <= w < old_r.len() && old_r[w] == SourceId(self.sources@[j].id);
                            assert(r@[w] == SourceId(self.sources@[j].id));
                        } else {
                            assert(r@[r@.len() - 1] == SourceId(self.sources@[i as int].id));
                        }
                    }
                }
            }
            i = i + 1;
        }
        r
    }

    /// Registers that a source knows a block. Has no effect if the height is
    /// at or below the finalized height, or if the source is already known to
    /// know this block — so repeating the same call changes nothing.
    pub fn add_known_block_to_source(&mut self, source_id: SourceId, height: u64, hash: Vec<u8>)
        requires
            old(self).wf(),
            old(self).has_source(source_id.0),
        ensures
            final(self).wf(),
            Self::same_except_sources(*old(self), *final(self)),
            final(self).next_source_id == old(self).next_source_id,
            ({
                let si = source_idx(old(self).sources@, source_id.0);
                let s = old(self).sources@[si];
                if height <= old(self).finalized_height || knows_in(s.known@, height, hash@) {
                    final(self).sources@ == old(self).sources@
                } else {
                    &&& final(self).sources@.len() == old(self).sources@.len()
                    &&& forall|j: int|
                        0 <= j < old(self).sources@.len() && j != si ==> final(self).sources@[j]
                            == old(self).sources@[j]
                    &&& ({
                        let t = final(self).sources@[si];
                        &&& t.id == s.id
                        &&& t.user_data == s.user_data
                        &&& t.best_height == s.best_height
                        &&& t.best_hash == s.best_hash
                        &&& t.num_requests == s.num_requests
                        &&& t.known@ == s.known@.push((KnownBlock { height, hash }))
                    })
                }
            }),
            height > old(self).finalized_height ==> knows_in(
                final(self).sources@[source_idx(old(self).sources@, source_id.0)].known@,
                height,
                hash@,
            ),
    {
        if height <= self.finalized_height {
            return ;
        }
        let i = self.find_source(source_id.0).unwrap();
        let mut e = self.sources.remove(i);
        let already = Self::scan_known(&e.known, height, &hash).is_some();
        if !already {
            e.known.push(KnownBlock { height, hash });
        }
        self.sources.insert(i, e);
        proof {
            let s = old(self).sources@[i as int];
            let t = self.sources@[i as int];
            if already {
                assert(self.sources@ =~= old(self).sources@);
                let w = choose|w: int|
                    0 <= w < s.known@.len() && known_matches(s.known@[w], height, hash@);
                assert(knows_in(t.known@, height, hash@));
            } else {
                assert(self.sources@ =~= old(self).sources@.update(i as int, t));
                assert(t.known@ == s.known@.push((KnownBlock { height, hash })));
                assert(known_matches(t.known@[t.known@.len() - 1], height, hash@));
                assert(knows_in(t.known@, height, hash@));
                assert(known_unique(t.known@)) by {
                    assert forall|a: int, b: int|
                        0 <= a < t.known@.len() && 0 <= b < t.known@.len() && a != b implies
                        !known_matches(t.known@[a], t.known@[b].height, t.known@[b].hash@) by {
                        let n = s.known@.len() as int;
                        if a < n && b < n {
                            assert(t.known@[a] == s.known@[a]);
                            assert(t.known@[b] == s.known@[b]);
                        } else if a < n {
                            assert(t.known@[a] == s.known@[a]);
                            assert(t.known@[b] == (KnownBlock { height, hash }));
                            assert(!known_matches(s.known@[a], height, hash@));
                        } else {
                            assert(t.known@[a] == (KnownBlock { height, hash }));
                            assert(t.known@[b] == s.known@[b]);
                            assert(!known_matches(s.known@[b], height, hash@));
                        }
                    }
                }
            }
            assert(forall|j: int|
                0 <= j < self.sources@.len() ==> #[trigger] self.sources@[j].id == old(
                    self,
                ).sources@[j].id && self.sources@[j].num_requests == old(
                    self,
                ).sources@[j].num_requests);
            lemma_known_unique_transfer(old(self).sources@, self.sources@, i as int, self.finalized_height);
            assert forall|k2: int|
                0 <= k2 < self.requests@.len() implies has_source_in(
                self.sources@,
                #[trigger] self.requests@[k2].source,
            ) by {
                assert(has_source_in(old(self).sources@, self.requests@[k2].source));
                let w = choose|w: int|
                    0 <= w < old(self).sources@.len() && old(self).sources@[w].id
                        == self.requests@[k2].source;
                assert(self.sources@[w].id == self.requests@[k2].source);
            }
        }
    }

    /// Registers that a source knows a block and records that block as the
    /// source's best block. The best block is set even when the height is at
    /// or below the finalized height; knowledge is only recorded above it.
    pub fn add_known_block_to_source_and_set_best(
        &mut self,
        source_id: SourceId,
        height: u64,
        hash: Vec<u8>,
    )
        requires
            old(self).wf(),
            old(self).has_source(source_id.0),
        ensures
            final(self).wf(),
            Self::same_except_sources(*old(self), *final(self)),
            final(self).next_source_id == old(self).next_source_id,
            ({
                let si = source_idx(old(self).sources@, source_id.0);
                let s = old(self).sources@[si];
                &&& final(self).sources@.len() == old(self).sources@.len()
                &&& forall|j: int|
                    0 <= j < old(self).sources@.len() && j != si ==> final(self).sources@[j] == old(
                        self,
                    ).sources@[j]
                &&& ({
                    let t = final(self).sources@[si];
                    &&& t.id == s.id
                    &&& t.user_data == s.user_data
                    &&& t.best_height == height
                    &&& t.best_hash@ == hash@
                    &&& t.num_requests == s.num_requests
                    &&& if height <= old(self).finalized_height || knows_in(
                        s.known@,
                        height,
                        hash@,
                    ) {
                        t.known@ == s.known@
                    } else {
                        t.known@.len() == s.known@.len() + 1 && (forall|j: int|
                            0 <= j < s.known@.len() ==> t.known@[j] == s.known@[j])
                            && known_matches(t.known@.last(), height, hash@)
                    }
                })
            }),
    {
        let i = self.find_source(source_id.0).unwrap();
        let mut e = self.sources.remove(i);
        if height > self.finalized_height {
            if Self::scan_known(&e.known, height, &hash).is_none() {
                let hash_copy = crate::bytes::clone_bytes(&hash);
                e.known.push(KnownBlock { height, hash: hash_copy });
            }
        }
        e.best_height = height;
        e.best_hash = hash;
        self.sources.insert(i, e);
        proof {
            let s = old(self).sources@[i as int];
            let t = self.sources@[i as int];
            assert(self.sources@ =~= old(self).sources@.update(i as int, t));
            if height > old(self).finalized_height && !knows_in(s.known@, height, hash@) {
                assert(t.known@.len() == s.known@.len() + 1);
                assert(t.known@.last().height == height && t.known@.last().hash@ == hash@);
                assert(known_unique(t.known@)) by {
                    assert forall|a: int, b: int|
                        0 <= a < t.known@.len() && 0 <= b < t.known@.len() && a != b implies
                        !known_matches(t.known@[a], t.known@[b].height, t.known@[b].hash@) by {
                        let n = s.known@.len() as int;
                        if a < n && b < n {
                            assert(t.known@[a] == s.known@[a]);
                            assert(t.known@[b] == s.known@[b]);
                        } else if a < n {
                            assert(t.known@[a] == s.known@[a]);
                            assert(t.known@[b].height == height && t.known@[b].hash@ == hash@);
                            assert(!known_matches(s.known@[a], height, hash@));
                        } else {
                            assert(t.known@[a].height == height && t.known@[a].hash@ == hash@);
                            assert(t.known@[b] == s.known@[b]);
                            assert(!known_matches(s.known@[b], height, hash@));
                        }
                    }
                }
            }
            assert(forall|j: int|
                0 <= j < self.sources@.len() ==> #[trigger] self.sources@[j].id == old(
                    self,
                ).sources@[j].id && self.sources@[j].num_requests == old(
                    self,
                ).sources@[j].num_requests);
            lemma_known_unique_transfer(old(self).sources@, self.sources@, i as int, self.finalized_height);
            assert forall|k2: int|
                0 <= k2 < self.requests@.len() implies has_source_in(
                self.sources@,
                #[trigger] self.requests@[k2].source,
            ) by {
                assert(has_source_in(old(self).sources@, self.requests@[k2].source));
                let w = choose|w: int|
                    0 <= w < old(self).sources@.len() && old(self).sources@[w].id
                        == self.requests@[k2].source;
                assert(self.sources@[w].id == self.requests@[k2].source);
            }
        }
    }

    /// Withdraws the belief that a source knows a block. Used when the source
    /// failed to serve a block it had claimed to know.
    pub fn remove_known_block_of_source(&mut self, source_id: SourceId, height: u64, hash: &Vec<u8>)
        requires
            old(self).wf(),
            old(self).has_source(source_id.0),
        ensures
            final(self).wf(),
            Self::same_except_sources(*old(self), *final(self)),
            final(self).next_source_id == old(self).next_source_id,
            ({
                let si = source_idx(old(self).sources@, source_id.0);
                let s = old(self).sources@[si];
                &&& final(self).sources@.len() == old(self).sources@.len()
                &&& forall|j: int|
                    0 <= j < old(self).sources@.len() && j != si ==> final(self).sources@[j] == old(
                        self,
                    ).sources@[j]
                &&& ({
                    let t = final(self).sources@[si];
                    &&& t.id == s.id
                    &&& t.user_data == s.user_data
                    &&& t.best_height == s.best_height
                    &&& t.best_hash == s.best_hash
                    &&& t.num_requests == s.num_requests
                    &&& !knows_in(t.known@, height, hash@)
                    &&& forall|h2: u64, hs2: Seq<u8>|
                        !(h2 == height && hs2 == hash@) ==> #[trigger] knows_in(t.known@, h2, hs2)
                            == knows_in(s.known@, h2, hs2)
                })
            }),
    {
        let i = self.find_source(source_id.0).unwrap();
        let mut e = self.sources.remove(i);
        let scan = Self::scan_known(&e.known, height, hash);
        match scan {
            Option::Some(k) => {
                e.known.remove(k);
            },
            Option::None => {},
        }
        self.sources.insert(i, e);
        proof {
            let s = old(self).sources@[i as int];
            let t = self.sources@[i as int];
            assert(self.sources@ =~= old(self).sources@.update(i as int, t));
            match scan {
                Option::Some(k) => {
                    let x = k as int;
                    assert(t.known@ == s.known@.remove(x));
                    assert(forall|j: int|
                        0 <= j < t.known@.len() ==> t.known@[j] == if j < x {
                            s.known@[j]
                        } else {
                            s.known@[j + 1]
                        });
                    assert forall|j: int|
                        0 <= j < t.known@.len() implies !known_matches(t.known@[j], height, hash@)
                        by {
                        if j < x {
                            assert(t.known@[j] == s.known@[j]);
                        } else {
                            assert(t.known@[j] == s.known@[j + 1]);
                            assert(!known_matches(s.known@[j + 1], s.known@[x].height, s.known@[x].hash@));
                        }
                    }
                    assert(known_unique(t.known@)) by {
                        assert forall|a: int, b: int|
                            0 <= a < t.known@.len() && 0 <= b < t.known@.len() && a != b implies
                            !known_matches(t.known@[a], t.known@[b].height, t.known@[b].hash@) by {
                            let a2 = if a < x { a } else { a + 1 };
                            let b2 = if b < x { b } else { b + 1 };
                            assert(t.known@[a] == s.known@[a2]);
                            assert(t.known@[b] == s.known@[b2]);
                        }
                    }
                    assert forall|h2: u64, hs2: Seq<u8>|
                        !(h2 == height && hs2 == hash@) implies #[trigger] knows_in(t.known@, h2, hs2)
                        == knows_in(s.known@, h2, hs2) by {
                        if knows_in(s.known@, h2, hs2) {
                            let w = choose|w: int|
                                0 <= w < s.known@.len() && known_matches(s.known@[w], h2, hs2);
                            if w < x {
                                assert(known_matches(t.known@[w], h2, hs2));
                            } else if w > x {
                                assert(known_matches(t.known@[w - 1], h2, hs2));
                            } else {
                                assert(h2 == height && hs2 == hash@);
                            }
                        }
                        if knows_in(t.known@, h2, hs2) {
                            let w = choose|w: int|
                                0 <= w < t.known@.len() && known_matches(t.known@[w], h2, hs2);
                            if w < x {
                                assert(known_matches(s.known@[w], h2, hs2));
                            } else {
                                assert(known_matches(s.known@[w + 1], h2, hs2));
                            }
                        }
                    }
                },
                Option::None => {
                    assert(self.sources@ =~= old(self).sources@);
                },
            }
            assert(forall|j: int|
                0 <= j < self.sources@.len() ==> #[trigger] self.sources@[j].id == old(
                    self,
                ).sources@[j].id && self.sources@[j].num_requests == old(
                    self,
                ).sources@[j].num_requests);
            lemma_known_unique_transfer(old(self).sources@, self.sources@, i as int, self.finalized_height);
            assert forall|k2: int|
                0 <= k2 < self.requests@.len() implies has_source_in(
                self.sources@,
                #[trigger] self.requests@[k2].source,
            ) by {
                assert(has_source_in(old(self).sources@, self.requests@[k2].source));
                let w = choose|w: int|
                    0 <= w < old(self).sources@.len() && old(self).sources@[w].id
                        == self.requests@[k2].source;
                assert(self.sources@[w].id == self.requests@[k2].source);
            }
        }
    }
}

/// A source's request count never exceeds the number of requests.
pub proof fn lemma_count_reqs_le_len<TRq>(requests: Seq<RequestEntry<TRq>>, sid: u64)
    ensures
        0 <= count_reqs(requests, sid) <= requests.len(),
    decreases requests.len(),
{
    if requests.len() > 0 {
        lemma_count_reqs_le_len(requests.drop_last(), sid);
    }
}

impl<TBl, TRq, TSrc> PendingBlocks<TBl, TRq, TSrc> {
    /// Index of the request with this identifier, if any.
    pub fn find_request(&self, id: u64) -> (r: Option<usize>)
        requires
            self.requests_wf(),
        ensures
            match r {
                Option::Some(i) => i < self.requests@.len() && self.requests@[i as int].id == id
                    && i == request_idx(self.requests@, id) && self.has_request(id),
                Option::None => !self.has_request(id),
            },
    {
        let mut i: usize = 0;
        loop
            invariant
                self.requests_wf(),
                i <= self.requests@.len(),
                forall|j: int| 0 <= j < i ==> self.requests@[j].id != id,
            decreases self.requests@.len() - i,
        {
            if i == self.requests.len() {
                return Option::None;
            }
            if self.requests[i].id == id {
                return Option::Some(i);
            }
            i = i + 1;
        }
    }

    /// Starts a request towards a source: appends it to the request table and
    /// raises the source's request counter, keeping the two in step.
    pub fn add_request(&mut self, source_id: SourceId, params: RequestParams, user_data: TRq) -> (r:
        RequestId)
        requires
            old(self).wf(),
            old(self).has_source(source_id.0),
            old(self).next_request_id < u64::MAX,
            old(self).requests@.len() < usize::MAX,
        ensures
            final(self).wf(),
            final(self).blocks@ == old(self).blocks@,
            final(self).finalized_height == old(self).finalized_height,
            final(self).max_disjoint == old(self).max_disjoint,
            final(self).max_requests_per_block == old(self).max_requests_per_block,
            final(self).next_source_id == old(self).next_source_id,
            final(self).next_request_id == old(self).next_request_id + 1,
            r.0 == old(self).next_request_id,
            !old(self).has_request(r.0),
            final(self).has_request(r.0),
            final(self).requests@ == old(self).requests@.push(
                (RequestEntry { id: r.0, source: source_id.0, params, user_data }),
            ),
            final(self).sources@.len() == old(self).sources@.len(),
            forall|j: int|
                0 <= j < old(self).sources@.len() && j != source_idx(
                    old(self).sources@,
                    source_id.0,
                ) ==> final(self).sources@[j] == old(self).sources@[j],
            ({
                let si = source_idx(old(self).sources@, source_id.0);
                let s = old(self).sources@[si];
                let t = final(self).sources@[si];
                &&& t.id == s.id
                &&& t.user_data == s.user_data
                &&& t.best_height == s.best_height
                &&& t.best_hash == s.best_hash
                &&& t.known == s.known
                &&& t.num_requests == s.num_requests + 1
            }),
    {
        let id = self.next_request_id;
        self.next_request_id = id + 1;
        let i = self.find_source(source_id.0).unwrap();
        proof {
            lemma_count_reqs_le_len(self.requests@, source_id.0);
        }
        self.requests.push(RequestEntry { id, source: source_id.0, params, user_data });
        let mut e = self.sources.remove(i);
        e.num_requests = e.num_requests + 1;
        self.sources.insert(i, e);
        proof {
            assert(self.sources@ =~= old(self).sources@.update(i as int, self.sources@[i as int]));
            assert(self.requests@[self.requests@.len() - 1].id == id);
            assert(has_request_in(self.requests@, id));
            assert forall|k: int|
                0 <= k < old(self).requests@.len() implies old(self).requests@[k].id != id by {}
            assert forall|j: int|
                0 <= j < self.sources@.len() implies #[trigger] self.sources@[j].num_requests
                == count_reqs(self.requests@, self.sources@[j].id) by {
                lemma_count_reqs_push(
                    old(self).requests@,
                    self.requests@.last(),
                    self.sources@[j].id,
                );
                if j != i {
                    assert(self.sources@[j] == old(self).sources@[j]);
                    assert(self.sources@[j].id != source_id.0);
                }
            }
            assert forall|k2: int|
                0 <= k2 < self.requests@.len() implies has_source_in(
                self.sources@,
                #[trigger] self.requests@[k2].source,
            ) by {
                if k2 < old(self).requests@.len() {
                    assert(has_source_in(old(self).sources@, self.requests@[k2].source));
                    let w = choose|w: int|
                        0 <= w < old(self).sources@.len() && old(self).sources@[w].id
                            == self.requests@[k2].source;
                    assert(self.sources@[w].id == self.requests@[k2].source);
                } else {
                    assert(self.sources@[i as int].id == source_id.0);
                }
            }
            lemma_known_unique_transfer(
                old(self).sources@,
                self.sources@,
                i as int,
                self.finalized_height,
            );
        }
        RequestId(id)
    }

    /// Ends a request: removes exactly its entry from the request table,
    /// lowers its source's counter, and hands back its parameters, its source
    /// and its user data.
    pub fn finish_request(&mut self, request_id: RequestId) -> (r: (RequestParams, SourceId, TRq))
        requires
            old(self).wf(),
            old(self).has_request(request_id.0),
        ensures
            final(self).wf(),
            final(self).blocks@ == old(self).blocks@,
            final(self).finalized_height == old(self).finalized_height,
            final(self).max_disjoint == old(self).max_disjoint,
            final(self).max_requests_per_block == old(self).max_requests_per_block,
            final(self).next_source_id == old(self).next_source_id,
            final(self).next_request_id == old(self).next_request_id,
            !final(self).has_request(request_id.0),
            ({
                let ri = request_idx(old(self).requests@, request_id.0);
                let req = old(self).requests@[ri];
                &&& r.0 == req.params
                &&& r.1.0 == req.source
                &&& r.2 == req.user_data
                &&& final(self).requests@ == old(self).requests@.remove(ri)
                &&& final(self).sources@.len() == old(self).sources@.len()
                &&& forall|j: int|
                    0 <= j < old(self).sources@.len() && j != source_idx(
                        old(self).sources@,
                        req.source,
                    ) ==> final(self).sources@[j] == old(self).sources@[j]
                &&& ({
                    let si = source_idx(old(self).sources@, req.source);
                    let s = old(self).sources@[si];
                    let t = final(self).sources@[si];
                    &&& t.id == s.id
                    &&& t.user_data == s.user_data
                    &&& t.best_height == s.best_height
                    &&& t.best_hash == s.best_hash
                    &&& t.known == s.known
                    &&& t.num_requests == s.num_requests - 1
                })
            }),
    {
        let ri = self.find_request(request_id.0).unwrap();
        let req = self.requests.remove(ri);
        let i = self.find_source(req.source).unwrap();
        proof {
            lemma_count_reqs_zero(old(self).requests@, req.source);
            assert(old(self).requests@[ri as int].source == req.source);
            assert(count_reqs(old(self).requests@, req.source) != 0);
            lemma_count_reqs_le_len(old(self).requests@, req.source);
        }
        let mut e = self.sources.remove(i);
        e.num_requests = e.num_requests - 1;
        self.sources.insert(i, e);
        proof {
            assert(self.sources@ =~= old(self).sources@.update(i as int, self.sources@[i as int]));
            assert forall|j: int|
                0 <= j < self.requests@.len() implies #[trigger] self.requests@[j].id
                != request_id.0 by {
                if j < ri {
                    assert(self.requests@[j] == old(self).requests@[j]);
                } else {
                    assert(self.requests@[j] == old(self).requests@[j + 1]);
                }
            }
            assert forall|j: int|
                0 <= j < self.sources@.len() implies #[trigger] self.sources@[j].num_requests
                == count_reqs(self.requests@, self.sources@[j].id) by {
                lemma_count_reqs_remove(old(self).requests@, ri as int, self.sources@[j].id);
                if j != i {
                    assert(self.sources@[j] == old(self).sources@[j]);
                    assert(self.sources@[j].id != req.source);
                }
            }
            assert forall|a: int, b: int|
                0 <= a < self.requests@.len() && 0 <= b < self.requests@.len() && a != b implies
                #[trigger] self.requests@[a].id != #[trigger] self.requests@[b].id by {
                let a2 = if a < ri { a } else { a + 1 };
                let b2 = if b < ri { b } else { b + 1 };
                assert(self.requests@[a] == old(self).requests@[a2]);
                assert(self.requests@[b] == old(self).requests@[b2]);
            }
            assert forall|k2: int|
                0 <= k2 < self.requests@.len() implies has_source_in(
                self.sources@,
                #[trigger] self.requests@[k2].source,
            ) by {
                let k3 = if k2 < ri { k2 } else { k2 + 1 };
                assert(self.requests@[k2] == old(self).requests@[k3]);
                assert(has_source_in(old(self).sources@, old(self).requests@[k3].source));
                let w = choose|w: int|
                    0 <= w < old(self).sources@.len() && old(self).sources@[w].id == old(
                        self,
                    ).requests@[k3].source;
                assert(self.sources@[w].id == self.requests@[k2].source);
            }
            assert forall|j: int|
                0 <= j < self.requests@.len() implies #[trigger] self.requests@[j].id
                < self.next_request_id by {
                let j2 = if j < ri { j } else { j + 1 };
                assert(self.requests@[j] == old(self).requests@[j2]);
            }
            lemma_known_unique_transfer(
                old(self).sources@,
                self.sources@,
                i as int,
                self.finalized_height,
            );
        }
        (req.params, SourceId(req.source), req.user_data)
    }
}

impl<TBl, TRq, TSrc> PendingBlocks<TBl, TRq, TSrc> {
    /// Unregisters a source. Every request that names it is cancelled and
    /// handed back, in order; afterwards no request references the source.
    pub fn remove_source(&mut self, source_id: SourceId) -> (r: (
        TSrc,
        Vec<(RequestId, RequestParams, TRq)>,
    ))
        requires
            old(self).wf(),
            old(self).has_source(source_id.0),
        ensures
            final(self).wf(),
            final(self).blocks@ == old(self).blocks@,
            final(self).finalized_height == old(self).finalized_height,
            final(self).max_disjoint == old(self).max_disjoint,
            final(self).max_requests_per_block == old(self).max_requests_per_block,
            final(self).next_source_id == old(self).next_source_id,
            final(self).next_request_id == old(self).next_request_id,
            final(self).sources@ == old(self).sources@.remove(
                source_idx(old(self).sources@, source_id.0),
            ),
            !final(self).has_source(source_id.0),
            r.0 == old(self).sources@[source_idx(old(self).sources@, source_id.0)].user_data,
            final(self).requests@ == old(self).requests@.filter(
                |rq: RequestEntry<TRq>| rq.source != source_id.0,
            ),
            forall|i: int|
                0 <= i < final(self).requests@.len() ==> #[trigger] final(self).requests@[i].source
                    != source_id.0,
            r.1@ == old(self).requests@.filter(
                |rq: RequestEntry<TRq>| rq.source == source_id.0,
            ).map_values(
                |rq: RequestEntry<TRq>| (RequestId(rq.id), rq.params, rq.user_data),
            ),
    {
        let ghost orig = old(self).requests@;
        let ghost sid = source_id.0;
        let ghost keep = |rq: RequestEntry<TRq>| rq.source != source_id.0;
        let ghost sel = |rq: RequestEntry<TRq>| rq.source == source_id.0;
        let ghost f = |rq: RequestEntry<TRq>| (RequestId(rq.id), rq.params, rq.user_data);
        let si = self.find_source(source_id.0).unwrap();
        let e = self.sources.remove(si);
        let mut drained: Vec<(RequestId, RequestParams, TRq)> = Vec::new();
        let mut i: usize = 0;
        proof {
            assert(self.requests@.take(0) =~= orig.take(0).filter(keep));
            assert(orig.take(0).filter(sel) =~= Seq::<RequestEntry<TRq>>::empty());
            assert(drained@ =~= orig.take(0).filter(sel).map_values(f));
            assert(self.requests@.skip(0) =~= orig.skip(0));
            assert(orig.skip(0) =~= orig);
        }
        while i < self.requests.len()
            invariant
                old(self).wf(),
                0 <= si < old(self).sources@.len(),
                old(self).sources@[si as int].id == sid,
                sid == source_id.0,
                orig == old(self).requests@,
                keep == (|rq: RequestEntry<TRq>| rq.source != source_id.0),
                sel == (|rq: RequestEntry<TRq>| rq.source == source_id.0),
                f == (|rq: RequestEntry<TRq>| (RequestId(rq.id), rq.params, rq.user_data)),
                self.blocks@ == old(self).blocks@,
                self.sources@ == old(self).sources@.remove(si as int),
                self.finalized_height == old(self).finalized_height,
                self.max_disjoint == old(self).max_disjoint,
                self.max_requests_per_block == old(self).max_requests_per_block,
                self.next_source_id == old(self).next_source_id,
                self.next_request_id == old(self).next_request_id,
                i <= self.requests@.len(),
                i + drained@.len() <= orig.len(),
                self.requests@.take(i as int) == orig.take((i + drained@.len()) as int).filter(
                    keep,
                ),
                self.requests@.skip(i as int) == orig.skip((i + drained@.len()) as int),
                drained@ == orig.take((i + drained@.len()) as int).filter(sel).map_values(f),
                forall|s2: u64|
                    s2 != sid ==> count_reqs(self.requests@, s2) == count_reqs(orig, s2),
            decreases self.requests@.len() - i,
        {
            let ghost k = (i + drained@.len()) as int;
            let ghost prev = self.requests@;
            proof {
                reveal(Seq::filter);
                assert(prev.skip(i as int).len() == prev.len() - i);
                assert(orig.skip(k).len() == orig.len() - k);
                assert(k < orig.len());
                assert(prev.skip(i as int)[0] == prev[i as int]);
                assert(orig.skip(k)[0] == orig[k]);
                assert(prev[i as int] == orig[k]);
                assert(orig.take(k + 1).drop_last() =~= orig.take(k));
                assert(orig.take(k + 1).last() == orig[k]);
            }
            if self.requests[i].source == source_id.0 {
                let rq = self.requests.remove(i);
                drained.push((RequestId(rq.id), rq.params, rq.user_data));
                proof {
                    assert(self.requests@.take(i as int) =~= prev.take(i as int));
                    assert(orig.take(k + 1).filter(keep) =~= orig.take(k).filter(keep));
                    assert(self.requests@.skip(i as int) =~= prev.skip(i as int).skip(1));
                    assert(prev.skip(i as int).skip(1) =~= orig.skip(k).skip(1));
                    assert(orig.skip(k).skip(1) =~= orig.skip(k + 1));
                    assert(orig.take(k + 1).filter(sel) =~= orig.take(k).filter(sel).push(
                        orig[k],
                    ));
                    assert(drained@ =~= orig.take(k).filter(sel).map_values(f).push(f(orig[k])));
                    assert(orig.take(k).filter(sel).map_values(f).push(f(orig[k])) =~= orig.take(
                        k + 1,
                    ).filter(sel).map_values(f));
                    assert forall|s2: u64|
                        s2 != sid implies count_reqs(self.requests@, s2) == count_reqs(
                        orig,
                        s2,
                    ) by {
                        lemma_count_reqs_remove(prev, i as int, s2);
                    }
                }
            } else {
                proof {
                    assert(self.requests@.take(i + 1) =~= self.requests@.take(i as int).push(
                        self.requests@[i as int],
                    ));
                    assert(orig.take(k + 1).filter(keep) =~= orig.take(k).filter(keep).push(
                        orig[k],
                    ));
                    assert(orig.take(k + 1).filter(sel) =~= orig.take(k).filter(sel));
                    assert(self.requests@.skip(i + 1) =~= self.requests@.skip(i as int).skip(1));
                    assert(self.requests@.skip(i as int).skip(1) =~= orig.skip(k).skip(1));
                    assert(orig.skip(k).skip(1) =~= orig.skip(k + 1));
                }
                i = i + 1;
            }
        }
        proof {
            let k = (i + drained@.len()) as int;
            assert(self.requests@.skip(i as int).len() == 0);
            assert(k == orig.len());
            assert(orig.take(k) =~= orig);
            assert(self.requests@.take(i as int) =~= self.requests@);
            assert(self.requests@ == orig.filter(keep));
            Seq::lemma_filter_len(orig, keep);
            assert forall|x: int|
                0 <= x < self.requests@.len() implies #[trigger] self.requests@[x].source
                != sid by {
                Seq::lemma_filter_pred(orig, keep, x);
            }
            // the remaining requests are among the original ones
            assert forall|x: int|
                0 <= x < self.requests@.len() implies exists|w: int|
                0 <= w < orig.len() && orig[w] == #[trigger] self.requests@[x] by {
                lemma_filter_elem_from(orig, keep, x);
            }
            // identifiers stay unique: a request id appears at most once in
            // the table, and filtering keeps each entry at most once
            lemma_filter_keeps_uniqueness(orig, keep);
            assert forall|j: int|
                0 <= j < self.requests@.len() implies #[trigger] self.requests@[j].id
                < self.next_request_id by {
                let w = choose|w: int| 0 <= w < orig.len() && orig[w] == self.requests@[j];
                assert(orig[w].id < old(self).next_request_id);
            }
            assert forall|k2: int|
                0 <= k2 < self.requests@.len() implies has_source_in(
                self.sources@,
                #[trigger] self.requests@[k2].source,
            ) by {
                let w = choose|w: int| 0 <= w < orig.len() && orig[w] == self.requests@[k2];
                assert(has_source_in(old(self).sources@, orig[w].source));
                let v = choose|v: int|
                    0 <= v < old(self).sources@.len() && old(self).sources@[v].id == orig[w].source;
                assert(old(self).sources@[v].id != sid);
                assert(v != si);
                if v < si {
                    assert(self.sources@[v].id == self.requests@[k2].source);
                } else {
                    assert(self.sources@[v - 1] == old(self).sources@[v]);
                    assert(self.sources@[v - 1].id == self.requests@[k2].source);
                }
            }
            assert forall|j: int|
                0 <= j < self.sources@.len() implies #[trigger] self.sources@[j].num_requests
                == count_reqs(self.requests@, self.sources@[j].id) by {
                let j2 = if j < si { j } else { j + 1 };
                assert(self.sources@[j] == old(self).sources@[j2]);
                assert(self.sources@[j].id != sid);
            }
            assert forall|a: int, b: int|
                0 <= a < self.sources@.len() && 0 <= b < self.sources@.len() && a != b implies
                #[trigger] self.sources@[a].id != #[trigger] self.sources@[b].id by {
                let a2 = if a < si { a } else { a + 1 };
                let b2 = if b < si { b } else { b + 1 };
                assert(self.sources@[a] == old(self).sources@[a2]);
                assert(self.sources@[b] == old(self).sources@[b2]);
            }
            assert forall|j: int|
                0 <= j < self.sources@.len() implies #[trigger] self.sources@[j].id
                < self.next_source_id by {
                let j2 = if j < si { j } else { j + 1 };
                assert(self.sources@[j] == old(self).sources@[j2]);
            }
            assert forall|j: int|
                0 <= j < self.sources@.len() implies known_unique(
                #[trigger] self.sources@[j].known@,
            ) by {
                let j2 = if j < si { j } else { j + 1 };
                assert(self.sources@[j] == old(self).sources@[j2]);
                assert(known_unique(old(self).sources@[j2].known@));
            }
            assert forall|j: int, k3: int|
                0 <= j < self.sources@.len() && 0 <= k3 < self.sources@[j].known@.len() implies (
            #[trigger] self.sources@[j].known@[k3]).height > self.finalized_height by {
                let j2 = if j < si { j } else { j + 1 };
                assert(self.sources@[j] == old(self).sources@[j2]);
                assert(old(self).sources@[j2].known@[k3].height > self.finalized_height);
            }
            assert forall|j: int|
                0 <= j < self.sources@.len() implies #[trigger] self.sources@[j].id != sid by {
                let j2 = if j < si { j } else { j + 1 };
                assert(self.sources@[j] == old(self).sources@[j2]);
            }
        }
        (e.user_data, drained)
    }
}

/// Every element of a filtered sequence occurs in the original sequence.
pub proof fn lemma_filter_elem_from<A>(s: Seq<A>, pred: spec_fn(A) -> bool, i: int)
    requires
        0 <= i < s.filter(pred).len(),
    ensures
        exists|w: int| 0 <= w < s.len() && s[w] == s.filter(pred)[i],
    decreases s.len(),
{
    reveal(Seq::filter);
    if s.len() > 0 {
        let head = s.drop_last();
        assert(forall|x: int| 0 <= x < head.len() ==> head[x] == s[x]);
        if pred(s.last()) && i == head.filter(pred).len() {
            assert(s.filter(pred)[i] == s.last());
            assert(s[s.len() - 1] == s.filter(pred)[i]);
        } else {
            lemma_filter_elem_from(head, pred, i);
            let w = choose|w: int| 0 <= w < head.len() && head[w] == head.filter(pred)[i];
            assert(s[w] == s.filter(pred)[i]);
        }
    }
}

/// Filtering a sequence of requests whose identifiers are pairwise distinct
/// yields a sequence whose identifiers are pairwise distinct.
pub proof fn lemma_filter_keeps_uniqueness<TRq>(
    requests: Seq<RequestEntry<TRq>>,
    pred: spec_fn(RequestEntry<TRq>) -> bool,
)
    requires
        forall|a: int, b: int|
            0 <= a < requests.len() && 0 <= b < requests.len() && a != b ==> #[trigger] requests[a].id
                != #[trigger] requests[b].id,
    ensures
        forall|a: int, b: int|
            0 <= a < requests.filter(pred).len() && 0 <= b < requests.filter(pred).len() && a != b
                ==> #[trigger] requests.filter(pred)[a].id != #[trigger] requests.filter(
                pred,
            )[b].id,
    decreases requests.len(),
{
    reveal(Seq::filter);
    if requests.len() > 0 {
        let head = requests.drop_last();
        assert(forall|a: int, b: int|
            0 <= a < head.len() && 0 <= b < head.len() && a != b ==> #[trigger] head[a].id
                != #[trigger] head[b].id);
        lemma_filter_keeps_uniqueness(head, pred);
        let hf = head.filter(pred);
        if pred(requests.last()) {
            assert(requests.filter(pred) == hf.push(requests.last()));
            assert forall|a: int|
                0 <= a < hf.len() implies #[trigger] hf[a].id != requests.last().id by {
                lemma_filter_elem_from(head, pred, a);
                let w = choose|w: int| 0 <= w < head.len() && head[w] == hf[a];
                assert(head[w] == requests[w]);
                assert(requests[w].id != requests[requests.len() - 1].id);
            }
        }
    }
}

/// Filtering preserves pairwise distinctness of any key of the elements.
pub proof fn lemma_filter_injective_keys<A, K>(
    s: Seq<A>,
    pred: spec_fn(A) -> bool,
    key: spec_fn(A) -> K,
)
    requires
        forall|a: int, b: int|
            0 <= a < s.len() && 0 <= b < s.len() && a != b ==> key(s[a]) != key(s[b]),
    ensures
        forall|a: int, b: int|
            0 <= a < s.filter(pred).len() && 0 <= b < s.filter(pred).len() && a != b ==> key(
                s.filter(pred)[a],
            ) != key(s.filter(pred)[b]),
    decreases s.len(),
{
    reveal(Seq::filter);
    if s.len() > 0 {
        let head = s.drop_last();
        assert(forall|x: int| 0 <= x < head.len() ==> head[x] == s[x]);
        lemma_filter_injective_keys(head, pred, key);
        let hf = head.filter(pred);
        if pred(s.last()) {
            assert(s.filter(pred) == hf.push(s.last()));
            assert forall|a: int| 0 <= a < hf.len() implies key(hf[a]) != key(s.last()) by {
                lemma_filter_elem_from(head, pred, a);
                let w = choose|w: int| 0 <= w < head.len() && head[w] == hf[a];
                assert(key(s[w]) != key(s[s.len() - 1]));
            }
        }
    }
}

/// Drops every known-blocks entry at or below the given height.
fn prune_known(known: &mut Vec<KnownBlock>, h: u64)
    ensures
        final(known)@ == old(known)@.filter(|kb: KnownBlock| kb.height > h),
{
    let ghost orig = known@;
    let ghost pred = |kb: KnownBlock| kb.height > h;
    let ghost mut removed: int = 0;
    let mut i: usize = 0;
    proof {
        assert(known@.take(0) =~= orig.take(0).filter(pred));
        assert(known@.skip(0) =~= orig.skip(0));
        assert(orig.skip(0) =~= orig);
    }
    while i < known.len()
        invariant
            orig == old(known)@,
            pred == (|kb: KnownBlock| kb.height > h),
            i <= known@.len(),
            0 <= removed,
            i + removed <= orig.len(),
            known@.take(i as int) == orig.take(i + removed).filter(pred),
            known@.skip(i as int) == orig.skip(i + removed),
        decreases known@.len() - i,
    {
        let ghost k = i + removed;
        let ghost prev = known@;
        proof {
            reveal(Seq::filter);
            assert(prev.skip(i as int).len() == prev.len() - i);
            assert(orig.skip(k).len() == orig.len() - k);
            assert(k < orig.len());
            assert(prev.skip(i as int)[0] == prev[i as int]);
            assert(orig.skip(k)[0] == orig[k]);
            assert(prev[i as int] == orig[k]);
            assert(orig.take(k + 1).drop_last() =~= orig.take(k));
            assert(orig.take(k + 1).last() == orig[k]);
        }
        if known[i].height <= h {
            known.remove(i);
            proof {
                removed = removed + 1;
                assert(known@.take(i as int) =~= prev.take(i as int));
                assert(orig.take(k + 1).filter(pred) =~= orig.take(k).filter(pred));
                assert(known@.skip(i as int) =~= prev.skip(i as int).skip(1));
                assert(prev.skip(i as int).skip(1) =~= orig.skip(k).skip(1));
                assert(orig.skip(k).skip(1) =~= orig.skip(k + 1));
            }
        } else {
            proof {
                assert(known@.take(i + 1) =~= known@.take(i as int).push(known@[i as int]));
                assert(orig.take(k + 1).filter(pred) =~= orig.take(k).filter(pred).push(orig[k]));
                assert(known@.skip(i + 1) =~= known@.skip(i as int).skip(1));
                assert(known@.skip(i as int).skip(1) =~= orig.skip(k).skip(1));
                assert(orig.skip(k).skip(1) =~= orig.skip(k + 1));
            }
            i = i + 1;
        }
    }
    proof {
        assert(known@.skip(i as int).len() == 0);
        assert(i + removed == orig.len());
        assert(orig.take(i + removed) =~= orig);
        assert(known@.take(i as int) =~= known@);
    }
}

impl<TBl, TRq, TSrc> PendingBlocks<TBl, TRq, TSrc> {
    /// A request is obsolete when the block it was started for is no longer
    /// in the disjoint set, or is known to be bad: its response can no longer
    /// be useful.
    pub open spec fn request_is_obsolete(self, i: int) -> bool {
        let rq = self.requests@[i];
        !has_block_in(self.blocks@, rq.params.first_block_height, rq.params.first_block_hash@)
            || self.blocks@[block_idx(
            self.blocks@,
            rq.params.first_block_height,
            rq.params.first_block_hash@,
        )].state.is_bad()
    }

    /// Identifiers of the requests whose outcome is no longer desired.
    pub fn obsolete_requests(&self) -> (r: Vec<RequestId>)
        requires
            self.wf(),
        ensures
            forall|x: int|
                0 <= x < r@.len() ==> self.has_request(#[trigger] r@[x].0)
                    && self.request_is_obsolete(request_idx(self.requests@, r@[x].0)),
            forall|i: int|
                0 <= i < self.requests@.len() && self.request_is_obsolete(i) ==> exists|x: int|
                    0 <= x < r@.len() && #[trigger] r@[x].0 == self.requests@[i].id,
    {
        let mut r: Vec<RequestId> = Vec::new();
        let mut i: usize = 0;
        while i < self.requests.len()
            invariant
                self.wf(),
                i <= self.requests@.len(),
                forall|x: int|
                    0 <= x < r@.len() ==> self.has_request(#[trigger] r@[x].0)
                        && self.request_is_obsolete(request_idx(self.requests@, r@[x].0)),
                forall|j: int|
                    0 <= j < i && self.request_is_obsolete(j) ==> exists|x: int|
                        0 <= x < r@.len() && #[trigger] r@[x].0 == self.requests@[j].id,
            decreases self.requests@.len() - i,
        {
            let ghost old_r = r@;
            let obsolete = match self.find_block(
                self.requests[i].params.first_block_height,
                &self.requests[i].params.first_block_hash,
            ) {
                Option::Some(bi) => matches!(
                    self.blocks[bi].state,
                    UnverifiedBlockState::BadKnown { .. }
                ),
                Option::None => true,
            };
            if obsolete {
                r.push(RequestId(self.requests[i].id));
                proof {
                    assert(self.request_is_obsolete(i as int));
                    assert forall|x: int|
                        0 <= x < r@.len() implies self.has_request(#[trigger] r@[x].0)
                        && self.request_is_obsolete(request_idx(self.requests@, r@[x].0)) by {
                        if x < old_r.len() {
                            assert(r@[x] == old_r[x]);
                        } else {
                            assert(r@[x].0 == self.requests@[i as int].id);
                            assert(has_request_in(self.requests@, r@[x].0));
                            let w = request_idx(self.requests@, r@[x].0);
                            assert(0 <= w < self.requests@.len() && self.requests@[w].id
                                == r@[x].0);
                            assert(w == i as int);
                        }
                    }
                    assert forall|j: int|
                        0 <= j < i + 1 && self.request_is_obsolete(j) implies exists|x: int|
                        0 <= x < r@.len() && #[trigger] r@[x].0 == self.requests@[j].id by {
                        if j < i {
                            let x = choose|x: int|
                                0 <= x < old_r.len() && old_r[x].0 == self.requests@[j].id;
                            assert(r@[x].0 == self.requests@[j].id);
                        } else {
                            assert(r@[r@.len() - 1].0 == self.requests@[i as int].id);
                        }
                    }
                }
            } else {
                proof {
                    assert(!self.request_is_obsolete(i as int));
                }
            }
            i = i + 1;
        }
        r
    }

    /// Index of the disjoint-set entry with the greatest height, breaking
    /// ties by lexicographically smallest hash. This entry is always safe to
    /// evict: no block of the set builds on it.
    pub fn highest_block_index(&self) -> (r: Option<usize>)
        requires
            self.blocks_wf(),
        ensures
            match r {
                Option::Some(i) => i < self.blocks@.len() && forall|j: int|
                    0 <= j < self.blocks@.len() && j != i
                        ==> self.blocks@[j].height < self.blocks@[i as int].height || (
                    self.blocks@[j].height == self.blocks@[i as int].height
                        && crate::bytes::lex_lt(
                        self.blocks@[i as int].hash@,
                        self.blocks@[j].hash@,
                    )),
                Option::None => self.blocks@.len() == 0,
            },
    {
        if self.blocks.len() == 0 {
            return Option::None;
        }
        let mut best: usize = 0;
        let mut j: usize = 1;
        while j < self.blocks.len()
            invariant
                self.blocks_wf(),
                best < j,
                j <= self.blocks@.len(),
                forall|x: int|
                    0 <= x < j && x != best ==> self.blocks@[x].height < self.blocks@[best as int].height
                        || (self.blocks@[x].height == self.blocks@[best as int].height
                        && crate::bytes::lex_lt(
                        self.blocks@[best as int].hash@,
                        self.blocks@[x].hash@,
                    )),
            decreases self.blocks@.len() - j,
        {
            let better = if self.blocks[j].height > self.blocks[best].height {
                true
            } else if self.blocks[j].height == self.blocks[best].height {
                crate::bytes::bytes_lt(&self.blocks[j].hash, &self.blocks[best].hash)
            } else {
                false
            };
            if better {
                proof {
                    assert forall|x: int|
                        0 <= x < j + 1 && x != j implies self.blocks@[x].height
                        < self.blocks@[j as int].height || (self.blocks@[x].height
                        == self.blocks@[j as int].height && crate::bytes::lex_lt(
                        self.blocks@[j as int].hash@,
                        self.blocks@[x].hash@,
                    )) by {
                        if self.blocks@[x].height == self.blocks@[j as int].height {
                            assert(!block_matches(
                                self.blocks@[x],
                                self.blocks@[j as int].height,
                                self.blocks@[j as int].hash@,
                            ));
                            if x == best {
                                // the new candidate beat the running best on
                                // equal heights, so its hash is smaller
                            } else {
                                // x lost to the running best; chain the two
                                // comparisons
                                assert(self.blocks@[x].height
                                    == self.blocks@[best as int].height);
                                assert(crate::bytes::lex_lt(
                                    self.blocks@[best as int].hash@,
                                    self.blocks@[x].hash@,
                                ));
                                crate::bytes::lemma_lex_transitive(
                                    self.blocks@[j as int].hash@,
                                    self.blocks@[best as int].hash@,
                                    self.blocks@[x].hash@,
                                );
                            }
                        }
                    }
                }
                best = j;
            } else {
                proof {
                    if self.blocks@[j as int].height == self.blocks@[best as int].height {
                        crate::bytes::lemma_lex_trichotomy(
                            self.blocks@[best as int].hash@,
                            self.blocks@[j as int].hash@,
                        );
                        assert(!block_matches(
                            self.blocks@[j as int],
                            self.blocks@[best as int].height,
                            self.blocks@[best as int].hash@,
                        ));
                    }
                }
            }
            j = j + 1;
        }
        Option::Some(best)
    }

    /// Raises the finalized height: every disjoint-set entry and every
    /// known-blocks entry at or below the new height is dropped, so that
    /// nothing at or below the finalized block is ever tracked.
    pub fn set_finalized_block_height(&mut self, height: u64)
        requires
            old(self).wf(),
            height >= old(self).finalized_height,
        ensures
            final(self).wf(),
            final(self).finalized_height == height,
            final(self).max_disjoint == old(self).max_disjoint,
            final(self).max_requests_per_block == old(self).max_requests_per_block,
            final(self).next_source_id == old(self).next_source_id,
            final(self).next_request_id == old(self).next_request_id,
            final(self).requests@ == old(self).requests@,
            final(self).blocks@ == old(self).blocks@.filter(
                |e: BlockEntry<TBl>| e.height > height,
            ),
            final(self).sources@.len() == old(self).sources@.len(),
            forall|j: int|
                0 <= j < old(self).sources@.len() ==> {
                    let s = old(self).sources@[j];
                    let t = #[trigger] final(self).sources@[j];
                    t.id == s.id && t.user_data == s.user_data && t.best_height == s.best_height
                        && t.best_hash == s.best_hash && t.num_requests == s.num_requests
                        && t.known@ == s.known@.filter(|kb: KnownBlock| kb.height > height)
                },
    {
        self.finalized_height = height;
        let ghost origb = self.blocks@;
        let ghost predb = |e: BlockEntry<TBl>| e.height > height;
        let ghost mut removed: int = 0;
        let mut i: usize = 0;
        proof {
            assert(self.blocks@.take(0) =~= origb.take(0).filter(predb));
            assert(self.blocks@.skip(0) =~= origb.skip(0));
            assert(origb.skip(0) =~= origb);
        }
        while i < self.blocks.len()
            invariant
                origb == old(self).blocks@,
                predb == (|e: BlockEntry<TBl>| e.height > height),
                i <= self.blocks@.len(),
                0 <= removed,
                i + removed <= origb.len(),
                self.blocks@.take(i as int) == origb.take(i + removed).filter(predb),
                self.blocks@.skip(i as int) == origb.skip(i + removed),
                self.sources@ == old(self).sources@,
                self.requests@ == old(self).requests@,
                self.finalized_height == height,
                self.max_disjoint == old(self).max_disjoint,
                self.max_requests_per_block == old(self).max_requests_per_block,
                self.next_source_id == old(self).next_source_id,
                self.next_request_id == old(self).next_request_id,
            decreases self.blocks@.len() - i,
        {
            let ghost k = i + removed;
            let ghost prev = self.blocks@;
            proof {
                reveal(Seq::filter);
                assert(prev.skip(i as int).len() == prev.len() - i);
                assert(origb.skip(k).len() == origb.len() - k);
                assert(k < origb.len());
                assert(prev.skip(i as int)[0] == prev[i as int]);
                assert(origb.skip(k)[0] == origb[k]);
                assert(prev[i as int] == origb[k]);
                assert(origb.take(k + 1).drop_last() =~= origb.take(k));
                assert(origb.take(k + 1).last() == origb[k]);
            }
            if self.blocks[i].height <= height {
                self.blocks.remove(i);
                proof {
                    removed = removed + 1;
                    assert(self.blocks@.take(i as int) =~= prev.take(i as int));
                    assert(origb.take(k + 1).filter(predb) =~= origb.take(k).filter(predb));
                    assert(self.blocks@.skip(i as int) =~= prev.skip(i as int).skip(1));
                    assert(prev.skip(i as int).skip(1) =~= origb.skip(k).skip(1));
                    assert(origb.skip(k).skip(1) =~= origb.skip(k + 1));
                }
            } else {
                proof {
                    assert(self.blocks@.take(i + 1) =~= self.blocks@.take(i as int).push(
                        self.blocks@[i as int],
                    ));
                    assert(origb.take(k + 1).filter(predb) =~= origb.take(k).filter(predb).push(
                        origb[k],
                    ));
                    assert(self.blocks@.skip(i + 1) =~= self.blocks@.skip(i as int).skip(1));
                    assert(self.blocks@.skip(i as int).skip(1) =~= origb.skip(k).skip(1));
                    assert(origb.skip(k).skip(1) =~= origb.skip(k + 1));
                }
                i = i + 1;
            }
        }
        proof {
            assert(self.blocks@.skip(i as int).len() == 0);
            assert(origb.take(i + removed) =~= origb);
            assert(self.blocks@.take(i as int) =~= self.blocks@);
            assert(self.blocks@ == origb.filter(predb));
        }
        let mut si: usize = 0;
        while si < self.sources.len()
            invariant
                si <= self.sources@.len(),
                self.sources@.len() == old(self).sources@.len(),
                forall|j: int|
                    si <= j < old(self).sources@.len() ==> #[trigger] self.sources@[j] == old(
                        self,
                    ).sources@[j],
                forall|j: int|
                    0 <= j < si ==> {
                        let s = old(self).sources@[j];
                        let t = #[trigger] self.sources@[j];
                        t.id == s.id && t.user_data == s.user_data && t.best_height
                            == s.best_height && t.best_hash == s.best_hash && t.num_requests
                            == s.num_requests && t.known@ == s.known@.filter(
                            |kb: KnownBlock| kb.height > height,
                        )
                    },
                self.blocks@ == old(self).blocks@.filter(|e: BlockEntry<TBl>| e.height > height),
                self.requests@ == old(self).requests@,
                self.finalized_height == height,
                self.max_disjoint == old(self).max_disjoint,
                self.max_requests_per_block == old(self).max_requests_per_block,
                self.next_source_id == old(self).next_source_id,
                self.next_request_id == old(self).next_request_id,
            decreases self.sources@.len() - si,
        {
            let mut e = self.sources.remove(si);
            prune_known(&mut e.known, height);
            self.sources.insert(si, e);
            proof {
                assert forall|j: int|
                    si + 1 <= j < old(self).sources@.len() implies #[trigger] self.sources@[j]
                    == old(self).sources@[j] by {}
            }
            si = si + 1;
        }
        proof {
            let fin = *self;
            let pre = *old(self);
            assert forall|a: int, b: int|
                0 <= a < fin.blocks@.len() && 0 <= b < fin.blocks@.len() && a != b implies
                !block_matches(fin.blocks@[a], fin.blocks@[b].height, fin.blocks@[b].hash@) by {
                let key = |e: BlockEntry<TBl>| (e.height, e.hash@);
                assert forall|a2: int, b2: int|
                    0 <= a2 < pre.blocks@.len() && 0 <= b2 < pre.blocks@.len() && a2 != b2 implies
                    key(pre.blocks@[a2]) != key(pre.blocks@[b2]) by {
                    assert(!block_matches(
                        pre.blocks@[a2],
                        pre.blocks@[b2].height,
                        pre.blocks@[b2].hash@,
                    ));
                }
                lemma_filter_injective_keys(pre.blocks@, predb, key);
            }
            assert forall|a: int|
                0 <= a < fin.blocks@.len() implies (#[trigger] fin.blocks@[a]).height
                > fin.finalized_height by {
                Seq::lemma_filter_pred(pre.blocks@, predb, a);
            }
            assert forall|j: int|
                0 <= j < fin.sources@.len() implies known_unique(
                #[trigger] fin.sources@[j].known@,
            ) by {
                let key = |kb: KnownBlock| (kb.height, kb.hash@);
                assert(known_unique(pre.sources@[j].known@));
                assert forall|a2: int, b2: int|
                    0 <= a2 < pre.sources@[j].known@.len() && 0 <= b2 < pre.sources@[j].known@.len()
                        && a2 != b2 implies key(pre.sources@[j].known@[a2]) != key(
                    pre.sources@[j].known@[b2],
                ) by {
                    assert(!known_matches(
                        pre.sources@[j].known@[a2],
                        pre.sources@[j].known@[b2].height,
                        pre.sources@[j].known@[b2].hash@,
                    ));
                }
                lemma_filter_injective_keys(
                    pre.sources@[j].known@,
                    |kb: KnownBlock| kb.height > height,
                    key,
                );
                assert forall|a: int, b: int|
                    0 <= a < fin.sources@[j].known@.len() && 0 <= b < fin.sources@[j].known@.len()
                        && a != b implies !known_matches(
                    fin.sources@[j].known@[a],
                    fin.sources@[j].known@[b].height,
                    fin.sources@[j].known@[b].hash@,
                ) by {}
            }
            assert forall|j: int, k3: int|
                0 <= j < fin.sources@.len() && 0 <= k3 < fin.sources@[j].known@.len() implies (
            #[trigger] fin.sources@[j].known@[k3]).height > fin.finalized_height by {
                Seq::lemma_filter_pred(
                    pre.sources@[j].known@,
                    |kb: KnownBlock| kb.height > height,
                    k3,
                );
            }
            assert forall|k2: int|
                0 <= k2 < fin.requests@.len() implies has_source_in(
                fin.sources@,
                #[trigger] fin.requests@[k2].source,
            ) by {
                assert(has_source_in(pre.sources@, fin.requests@[k2].source));
                let w = choose|w: int|
                    0 <= w < pre.sources@.len() && pre.sources@[w].id == fin.requests@[k2].source;
                assert(fin.sources@[w].id == fin.requests@[k2].source);
            }
        }
    }
}

impl UnverifiedBlockState {
    /// The stored parent hash, as an `Option<Vec<u8>>` value.
    pub open spec fn spec_parent_vec(self) -> Option<Vec<u8>> {
        match self {
            UnverifiedBlockState::HeightHashKnown => Option::None,
            UnverifiedBlockState::HeaderKnown { parent_hash } => Option::Some(parent_hash),
            UnverifiedBlockState::BadKnown { bad_parent_hash: parent_hash } => parent_hash,
        }
    }
}

/// Inserting a fresh entry and then removing it restores the disjoint set
/// exactly: the insertion appends the entry, and the removal takes away
/// precisely the appended index.
pub proof fn lemma_insert_then_remove_is_noop<TBl>(blocks: Seq<BlockEntry<TBl>>, e: BlockEntry<TBl>)
    ensures
        blocks.push(e).remove(blocks.len() as int) == blocks,
{
    assert(blocks.push(e).remove(blocks.len() as int) =~= blocks);
}

} // verus!
