//! The tree of verified-but-not-finalized blocks.
//!
//! Every block in the tree descends from the latest finalized block: its
//! parent is either the finalized block itself or another block of the tree,
//! one height below, stored before it (ancestry order). The *best* block is
//! a block of greatest height; a newly inserted block becomes best only when
//! it is strictly higher than the current best.

use vstd::prelude::*;

use crate::bytes::{bytes_eq, clone_bytes};

verus! {

/// One verified, non-finalized block.
pub struct TreeBlock<TBl> {
    pub height: u64,
    pub hash: Vec<u8>,
    pub parent_hash: Vec<u8>,
    pub user_data: TBl,
}

/// Some tree entry carries this hash.
pub open spec fn has_hash_in<TBl>(blocks: Seq<TreeBlock<TBl>>, hash: Seq<u8>) -> bool {
    exists|i: int| 0 <= i < blocks.len() && blocks[i].hash@ == hash
}

/// Index of the tree entry carrying this hash.
pub open spec fn hash_idx<TBl>(blocks: Seq<TreeBlock<TBl>>, hash: Seq<u8>) -> int {
    choose|i: int| 0 <= i < blocks.len() && blocks[i].hash@ == hash
}

/// The tree of non-finalized blocks, rooted just above the finalized block.
pub struct NonFinalizedTree<TBl> {
    pub finalized_height: u64,
    pub finalized_hash: Vec<u8>,
    pub blocks: Vec<TreeBlock<TBl>>,
    /// Index of the best block; `None` exactly when the tree is empty.
    pub best: Option<usize>,
}

impl<TBl> NonFinalizedTree<TBl> {
    /// Hashes are unique; every block sits above the finalized height; every
    /// block's parent is the finalized block or an earlier tree block one
    /// height below; the best block is a block of greatest height.
    pub open spec fn wf(self) -> bool {
        &&& forall|i: int, j: int|
            0 <= i < self.blocks@.len() && 0 <= j < self.blocks@.len() && i != j
                ==> self.blocks@[i].hash@ != self.blocks@[j].hash@
        &&& forall|i: int|
            0 <= i < self.blocks@.len() ==> (#[trigger] self.blocks@[i]).height
                > self.finalized_height
        &&& forall|i: int|
            0 <= i < self.blocks@.len() ==> if self.blocks@[i].height == self.finalized_height
                + 1 {
                (#[trigger] self.blocks@[i]).parent_hash@ == self.finalized_hash@
            } else {
                exists|j: int|
                    0 <= j < i && (#[trigger] self.blocks@[j]).hash@ == self.blocks@[i].parent_hash@
                        && self.blocks@[j].height + 1 == self.blocks@[i].height
            }
        &&& forall|i: int|
            0 <= i < self.blocks@.len() ==> (#[trigger] self.blocks@[i]).hash@
                != self.finalized_hash@
        &&& match self.best {
            Option::Some(b) => b < self.blocks@.len() && forall|i: int|
                0 <= i < self.blocks@.len() ==> (#[trigger] self.blocks@[i]).height
                    <= self.blocks@[b as int].height,
            Option::None => self.blocks@.len() == 0,
        }
    }

    /// Height of the best block; the finalized height when the tree is empty.
    pub open spec fn spec_best_height(self) -> u64 {
        match self.best {
            Option::Some(b) => self.blocks@[b as int].height,
            Option::None => self.finalized_height,
        }
    }

    /// Hash of the best block; the finalized hash when the tree is empty.
    pub open spec fn spec_best_hash(self) -> Seq<u8> {
        match self.best {
            Option::Some(b) => self.blocks@[b as int].hash@,
            Option::None => self.finalized_hash@,
        }
    }

    /// A tree holding no block, on top of the given finalized block.
    pub fn new(finalized_height: u64, finalized_hash: Vec<u8>) -> (r: NonFinalizedTree<TBl>)
        ensures
            r.wf(),
            r.finalized_height == finalized_height,
            r.finalized_hash@ == finalized_hash@,
            r.blocks@.len() == 0,
    {
        NonFinalizedTree { finalized_height, finalized_hash, blocks: Vec::new(), best: Option::None }
    }

    /// Number of non-finalized blocks.
    pub fn len(&self) -> (r: usize)
        ensures
            r == self.blocks@.len(),
    {
        self.blocks.len()
    }

    /// Height of the best block.
    pub fn best_block_height(&self) -> (r: u64)
        requires
            self.wf(),
        ensures
            r == self.spec_best_height(),
    {
        match self.best {
            Option::Some(b) => self.blocks[b].height,
            Option::None => self.finalized_height,
        }
    }

    /// Hash of the best block.
    pub fn best_block_hash(&self) -> (r: Vec<u8>)
        requires
            self.wf(),
        ensures
            r@ == self.spec_best_hash(),
    {
        match self.best {
            Option::Some(b) => clone_bytes(&self.blocks[b].hash),
            Option::None => clone_bytes(&self.finalized_hash),
        }
    }

    /// Index of the tree entry with this hash, if any.
    pub fn find_by_hash(&self, hash: &Vec<u8>) -> (r: Option<usize>)
        requires
            self.wf(),
        ensures
            match r {
                Option::Some(i) => i < self.blocks@.len() && self.blocks@[i as int].hash@ == hash@
                    && i == hash_idx(self.blocks@, hash@) && has_hash_in(self.blocks@, hash@),
                Option::None => !has_hash_in(self.blocks@, hash@),
            },
    {
        let mut i: usize = 0;
        loop
            invariant
                self.wf(),
                i <= self.blocks@.len(),
                forall|j: int| 0 <= j < i ==> self.blocks@[j].hash@ != hash@,
            decreases self.blocks@.len() - i,
        {
            if i == self.blocks.len() {
                return Option::None;
            }
            if bytes_eq(&self.blocks[i].hash, hash) {
                return Option::Some(i);
            }
            i = i + 1;
        }
    }

    /// True if a non-finalized block with this hash is in the tree.
    pub fn contains_non_finalized_block(&self, hash: &Vec<u8>) -> (r: bool)
        requires
            self.wf(),
        ensures
            r == has_hash_in(self.blocks@, hash@),
    {
        self.find_by_hash(hash).is_some()
    }

    /// Read access to a tree entry by index.
    pub fn block_at(&self, i: usize) -> (r: &TreeBlock<TBl>)
        requires
            i < self.blocks@.len(),
        ensures
            *r == self.blocks@[i as int],
    {
        &self.blocks[i]
    }

    /// Inserts a verified block whose parent is the finalized block or a
    /// block already in the tree. Returns true when the new block becomes
    /// the best block, which happens exactly when it is strictly higher than
    /// the previous best.
    pub fn insert(&mut self, height: u64, hash: Vec<u8>, parent_hash: Vec<u8>, user_data: TBl) -> (r:
        bool)
        requires
            old(self).wf(),
            !has_hash_in(old(self).blocks@, hash@),
            hash@ != old(self).finalized_hash@,
            if height == old(self).finalized_height + 1 {
                parent_hash@ == old(self).finalized_hash@
            } else {
                has_hash_in(old(self).blocks@, parent_hash@) && old(self).blocks@[hash_idx(
                    old(self).blocks@,
                    parent_hash@,
                )].height + 1 == height
            },
            height > old(self).finalized_height,
        ensures
            final(self).wf(),
            final(self).finalized_height == old(self).finalized_height,
            final(self).finalized_hash == old(self).finalized_hash,
            final(self).blocks@ == old(self).blocks@.push(
                (TreeBlock { height, hash, parent_hash, user_data }),
            ),
            r == (height > old(self).spec_best_height()),
            r ==> final(self).spec_best_height() == height && final(self).spec_best_hash()
                == hash@,
            !r ==> final(self).spec_best_height() == old(self).spec_best_height()
                && final(self).spec_best_hash() == old(self).spec_best_hash(),
    {
        let is_new_best = match self.best {
            Option::Some(b) => height > self.blocks[b].height,
            Option::None => true,
        };
        proof {
            if height != old(self).finalized_height + 1 {
                let j = hash_idx(old(self).blocks@, parent_hash@);
                assert(0 <= j < old(self).blocks@.len() && old(self).blocks@[j].hash@
                    == parent_hash@);
            }
        }
        let new_idx = self.blocks.len();
        self.blocks.push(TreeBlock { height, hash, parent_hash, user_data });
        if is_new_best {
            self.best = Option::Some(new_idx);
        }
        proof {
            assert(forall|j: int|
                0 <= j < old(self).blocks@.len() ==> self.blocks@[j] == old(self).blocks@[j]);
            if height != old(self).finalized_height + 1 {
                let j = hash_idx(old(self).blocks@, parent_hash@);
                assert(self.blocks@[j].hash@ == self.blocks@[new_idx as int].parent_hash@
                    && self.blocks@[j].height + 1 == self.blocks@[new_idx as int].height);
            }
            match old(self).best {
                Option::Some(b) => {
                    assert(old(self).blocks@[b as int].height == old(self).spec_best_height());
                },
                Option::None => {},
            }
        }
        is_new_best
    }

    /// Exchanges the user data of the block with the given hash.
    pub fn swap_user_data(&mut self, hash: &Vec<u8>, user_data: &mut TBl)
        requires
            old(self).wf(),
            has_hash_in(old(self).blocks@, hash@),
        ensures
            final(self).wf(),
            final(self).finalized_height == old(self).finalized_height,
            final(self).finalized_hash == old(self).finalized_hash,
            final(self).best == old(self).best,
            ({
                let i = hash_idx(old(self).blocks@, hash@);
                let b = old(self).blocks@[i];
                &&& *final(user_data) == b.user_data
                &&& final(self).blocks@ == old(self).blocks@.update(
                    i,
                    (TreeBlock {
                        height: b.height,
                        hash: b.hash,
                        parent_hash: b.parent_hash,
                        user_data: *old(user_data),
                    }),
                )
            }),
    {
        let i = self.find_by_hash(hash).unwrap();
        let mut e = self.blocks.remove(i);
        core::mem::swap(&mut e.user_data, user_data);
        self.blocks.insert(i, e);
        proof {
            assert(self.blocks@ =~= old(self).blocks@.update(i as int, self.blocks@[i as int]));
            assert forall|x: int|
                0 <= x < self.blocks@.len() implies (if self.blocks@[x].height
                == self.finalized_height + 1 {
                (#[trigger] self.blocks@[x]).parent_hash@ == self.finalized_hash@
            } else {
                exists|j: int|
                    0 <= j < x && (#[trigger] self.blocks@[j]).hash@ == self.blocks@[x].parent_hash@
                        && self.blocks@[j].height + 1 == self.blocks@[x].height
            }) by {
                assert(self.blocks@[x].height == old(self).blocks@[x].height
                    && self.blocks@[x].parent_hash@ == old(self).blocks@[x].parent_hash@);
                if self.blocks@[x].height != self.finalized_height + 1 {
                    let j = choose|j: int|
                        0 <= j < x && old(self).blocks@[j].hash@ == old(
                            self,
                        ).blocks@[x].parent_hash@ && old(self).blocks@[j].height + 1 == old(
                            self,
                        ).blocks@[x].height;
                    assert(self.blocks@[j].hash@ == self.blocks@[x].parent_hash@
                        && self.blocks@[j].height + 1 == self.blocks@[x].height);
                }
            }
        }
    }
}

impl<TBl> NonFinalizedTree<TBl> {
    /// First index carrying this hash, with no well-formedness assumption.
    fn scan_hash(blocks: &Vec<TreeBlock<TBl>>, hash: &Vec<u8>) -> (r: Option<usize>)
        ensures
            match r {
                Option::Some(i) => i < blocks@.len() && blocks@[i as int].hash@ == hash@,
                Option::None => forall|j: int| 0 <= j < blocks@.len() ==> blocks@[j].hash@ != hash@,
            },
    {
        let mut i: usize = 0;
        loop
            invariant
                i <= blocks@.len(),
                forall|j: int| 0 <= j < i ==> blocks@[j].hash@ != hash@,
            decreases blocks@.len() - i,
        {
            if i == blocks.len() {
                return Option::None;
            }
            if bytes_eq(&blocks[i].hash, hash) {
                return Option::Some(i);
            }
            i = i + 1;
        }
    }

    /// Finalizes a block of the tree. The chain from that block down to the
    /// previously finalized block leaves the tree and is returned in
    /// decreasing height order, the newly finalized block first. Blocks that
    /// do not descend from the newly finalized block are pruned, and the
    /// best block is recomputed among the survivors. The second component of
    /// the result says whether the best block changed.
    pub fn finalize(&mut self, target_height: u64, target_hash: &Vec<u8>) -> (r: (
        Vec<TreeBlock<TBl>>,
        bool,
    ))
        requires
            old(self).wf(),
            has_hash_in(old(self).blocks@, target_hash@),
            old(self).blocks@[hash_idx(old(self).blocks@, target_hash@)].height == target_height,
        ensures
            final(self).wf(),
            final(self).finalized_height == target_height,
            final(self).finalized_hash@ == target_hash@,
            target_height > old(self).finalized_height,
            r.0@.len() == target_height - old(self).finalized_height,
            forall|i: int| 0 <= i < r.0@.len() ==> (#[trigger] r.0@[i]).height == target_height - i,
            r.0@.len() > 0 ==> r.0@[0].hash@ == target_hash@,
            forall|i: int|
                0 < i < r.0@.len() ==> (#[trigger] r.0@[i]).hash@ == r.0@[i - 1].parent_hash@,
            forall|i: int|
                0 <= i < final(self).blocks@.len() ==> (#[trigger] final(self).blocks@[i]).height
                    > target_height,
            forall|i: int|
                0 <= i < final(self).blocks@.len() ==> old(self).blocks@.contains(
                    #[trigger] final(self).blocks@[i],
                ),
            r.1 == !(final(self).spec_best_height() == old(self).spec_best_height()
                && final(self).spec_best_hash() == old(self).spec_best_hash()),
    {
        let ghost orig = self.blocks@;
        let old_best_height = self.best_block_height();
        let old_best_hash = self.best_block_hash();
        proof {
            let w = hash_idx(orig, target_hash@);
            assert(0 <= w < orig.len() && orig[w].hash@ == target_hash@);
            assert(orig[w].height > self.finalized_height);
        }
        let mut chain: Vec<TreeBlock<TBl>> = Vec::new();
        let mut cur_hash: Vec<u8> = clone_bytes(target_hash);
        let mut cur_height: u64 = target_height;
        proof {
            assert forall|w: int|
                0 <= w < orig.len() && (#[trigger] orig[w]).height <= cur_height implies
                self.blocks@.contains(orig[w]) by {
                assert(self.blocks@[w] == orig[w]);
            }
            assert forall|i: int|
                0 <= i < self.blocks@.len() implies orig.contains(#[trigger] self.blocks@[i]) by {
                assert(orig[i] == self.blocks@[i]);
            }
        }
        while cur_height > self.finalized_height
            invariant
                old(self).wf(),
                orig == old(self).blocks@,
                self.finalized_height == old(self).finalized_height,
                self.finalized_hash == old(self).finalized_hash,
                self.best == old(self).best,
                old(self).finalized_height <= cur_height <= target_height,
                target_height - cur_height == chain@.len(),
                chain@.len() > 0 ==> chain@[0].hash@ == target_hash@,
                forall|i: int|
                    0 <= i < chain@.len() ==> (#[trigger] chain@[i]).height == target_height - i,
                forall|i: int|
                    0 < i < chain@.len() ==> (#[trigger] chain@[i]).hash@ == chain@[i
                        - 1].parent_hash@,
                chain@.len() > 0 ==> cur_hash@ == chain@.last().parent_hash@,
                chain@.len() == 0 ==> cur_hash@ == target_hash@,
                forall|i: int, j: int|
                    0 <= i < self.blocks@.len() && 0 <= j < self.blocks@.len() && i != j
                        ==> self.blocks@[i].hash@ != self.blocks@[j].hash@,
                forall|i: int|
                    0 <= i < self.blocks@.len() ==> orig.contains(#[trigger] self.blocks@[i]),
                forall|w: int|
                    0 <= w < orig.len() && (#[trigger] orig[w]).height <= cur_height
                        ==> self.blocks@.contains(orig[w]),
                cur_height > old(self).finalized_height ==> exists|w: int|
                    0 <= w < orig.len() && (#[trigger] orig[w]).hash@ == cur_hash@ && orig[w].height
                        == cur_height,
                chain@.len() > 0 ==> forall|i: int|
                    0 <= i < self.blocks@.len() ==> (#[trigger] self.blocks@[i]).hash@
                        != target_hash@,
            decreases cur_height,
        {
            proof {
                let w = choose|w: int|
                    0 <= w < orig.len() && (#[trigger] orig[w]).hash@ == cur_hash@ && orig[w].height
                        == cur_height;
                assert(self.blocks@.contains(orig[w]));
                let x = choose|x: int| 0 <= x < self.blocks@.len() && self.blocks@[x] == orig[w];
                assert(self.blocks@[x].hash@ == cur_hash@);
                assert(has_hash_in(self.blocks@, cur_hash@));
            }
            let i = Self::scan_hash(&self.blocks, &cur_hash).unwrap();
            proof {
                let w = choose|w: int|
                    0 <= w < orig.len() && (#[trigger] orig[w]).hash@ == cur_hash@ && orig[w].height
                        == cur_height;
                assert(orig.contains(self.blocks@[i as int]));
                let w2 = choose|w2: int|
                    0 <= w2 < orig.len() && orig[w2] == self.blocks@[i as int];
                assert(orig[w2].hash@ == cur_hash@);
                if w2 != w {
                    assert(orig[w2].hash@ != orig[w].hash@);
                    assert(false);
                }
                assert(self.blocks@[i as int].height == cur_height);
            }
            let ghost prev = self.blocks@;
            let b = self.blocks.remove(i);
            proof {
                assert(b == prev[i as int]);
                assert(b.height == cur_height);
                assert forall|x: int|
                    0 <= x < self.blocks@.len() implies orig.contains(
                    #[trigger] self.blocks@[x],
                ) by {
                    if x < i {
                        assert(self.blocks@[x] == prev[x]);
                    } else {
                        assert(self.blocks@[x] == prev[x + 1]);
                    }
                }
                assert forall|x: int, y: int|
                    0 <= x < self.blocks@.len() && 0 <= y < self.blocks@.len() && x != y implies
                    self.blocks@[x].hash@ != self.blocks@[y].hash@ by {
                    let x2 = if x < i { x } else { x + 1 };
                    let y2 = if y < i { y } else { y + 1 };
                    assert(self.blocks@[x] == prev[x2] && self.blocks@[y] == prev[y2]);
                }
                assert forall|w3: int|
                    0 <= w3 < orig.len() && (#[trigger] orig[w3]).height <= cur_height - 1 implies
                    self.blocks@.contains(orig[w3]) by {
                    assert(prev.contains(orig[w3]));
                    let x = choose|x: int| 0 <= x < prev.len() && prev[x] == orig[w3];
                    assert(prev[i as int].height == cur_height);
                    assert(x != i);
                    if x < i {
                        assert(self.blocks@[x] == orig[w3]);
                    } else {
                        assert(self.blocks@[x - 1] == orig[w3]);
                    }
                }
                // the parent link for the next iteration
                let wb = choose|wb: int| 0 <= wb < orig.len() && orig[wb] == b;
                if b.height == old(self).finalized_height + 1 {
                    assert(b.parent_hash@ == old(self).finalized_hash@);
                } else {
                    assert(exists|j: int|
                        0 <= j < wb && (#[trigger] orig[j]).hash@ == orig[wb].parent_hash@
                            && orig[j].height + 1 == orig[wb].height);
                }
                // no residual block carries a chain hash
                assert forall|x: int|
                    0 <= x < self.blocks@.len() implies (#[trigger] self.blocks@[x]).hash@
                    != target_hash@ by {
                    if chain@.len() == 0 {
                        // the block just removed was the target; residual
                        // hashes all differ from it
                        let x2 = if x < i { x } else { x + 1 };
                        assert(self.blocks@[x] == prev[x2]);
                        assert(prev[x2].hash@ != prev[i as int].hash@ || x2 == i);
                    } else {
                        let x2 = if x < i { x } else { x + 1 };
                        assert(self.blocks@[x] == prev[x2]);
                    }
                }
            }
            cur_height = cur_height - 1;
            let next_hash = clone_bytes(&b.parent_hash);
            chain.push(b);
            cur_hash = next_hash;
            proof {
                assert(chain@.last() == b);
            }
        }
        proof {
            assert(cur_height == old(self).finalized_height);
            assert(chain@.len() == target_height - old(self).finalized_height);
        }
        // the tree is now rooted at the newly finalized block
        self.finalized_height = target_height;
        self.finalized_hash = clone_bytes(target_hash);
        self.best = Option::None;
        let ghost resid = self.blocks@;
        let mut old_list: Vec<TreeBlock<TBl>> = Vec::new();
        core::mem::swap(&mut self.blocks, &mut old_list);
        proof {
            assert(resid.skip(0) =~= resid);
        }
        while old_list.len() > 0
            invariant
                old(self).wf(),
                orig == old(self).blocks@,
                has_hash_in(orig, target_hash@),
                orig[hash_idx(orig, target_hash@)].height == target_height,
                target_height > old(self).finalized_height,
                self.finalized_height == target_height,
                self.finalized_hash@ == target_hash@,
                self.best == Option::<usize>::None,
                old_list@ == resid.skip(resid.len() - old_list@.len()),
                old_list@.len() <= resid.len(),
                forall|i: int, j: int|
                    0 <= i < resid.len() && 0 <= j < resid.len() && i != j ==> resid[i].hash@
                        != resid[j].hash@,
                forall|i: int| 0 <= i < resid.len() ==> orig.contains(#[trigger] resid[i]),
                forall|i: int| 0 <= i < resid.len() ==> (#[trigger] resid[i]).hash@ != target_hash@,
                forall|i: int, j: int|
                    0 <= i < self.blocks@.len() && 0 <= j < self.blocks@.len() && i != j
                        ==> self.blocks@[i].hash@ != self.blocks@[j].hash@,
                forall|i: int|
                    0 <= i < self.blocks@.len() ==> orig.contains(#[trigger] self.blocks@[i]),
                forall|i: int|
                    0 <= i < self.blocks@.len() ==> (#[trigger] self.blocks@[i]).hash@
                        != target_hash@,
                forall|i: int|
                    0 <= i < self.blocks@.len() ==> (#[trigger] self.blocks@[i]).height
                        > target_height,
                forall|i: int|
                    0 <= i < self.blocks@.len() ==> if self.blocks@[i].height == target_height
                        + 1 {
                        (#[trigger] self.blocks@[i]).parent_hash@ == target_hash@
                    } else {
                        exists|j: int|
                            0 <= j < i && (#[trigger] self.blocks@[j]).hash@
                                == self.blocks@[i].parent_hash@ && self.blocks@[j].height + 1
                                == self.blocks@[i].height
                    },
                forall|a: int, c: int|
                    0 <= a < self.blocks@.len() && 0 <= c < old_list@.len()
                        ==> self.blocks@[a].hash@ != old_list@[c].hash@,
            decreases old_list@.len(),
        {
            let ghost k = resid.len() - old_list@.len();
            let ghost prev_list = old_list@;
            let b = old_list.remove(0);
            proof {
                assert(prev_list[0] == resid.skip(k)[0]);
                assert(resid.skip(k)[0] == resid[k]);
                assert(b == resid[k]);
                assert(old_list@ =~= prev_list.skip(1));
                assert(prev_list.skip(1) =~= resid.skip(k).skip(1));
                assert(resid.skip(k).skip(1) =~= resid.skip(k + 1));
            }
            let keep_parent_finalized = bytes_eq(&b.parent_hash, &self.finalized_hash);
            let parent_in_kept = Self::scan_hash(&self.blocks, &b.parent_hash);
            if keep_parent_finalized || parent_in_kept.is_some() {
                proof {
                    let wb = choose|wb: int| 0 <= wb < orig.len() && orig[wb] == b;
                    assert(has_hash_in(orig, target_hash@));
                    let wt = hash_idx(orig, target_hash@);
                    assert(0 <= wt < orig.len() && orig[wt].hash@ == target_hash@);
                    assert(orig[wt].height == target_height);
                    if keep_parent_finalized {
                        // the parent is the newly finalized block, which is
                        // a tree block of the old tree, so the block is one
                        // height above it
                        assert(b.parent_hash@ == target_hash@);
                        if b.height == old(self).finalized_height + 1 {
                            assert(b.parent_hash@ == old(self).finalized_hash@);
                            assert(orig[wt].hash@ != old(self).finalized_hash@);
                            assert(false);
                        }
                        let j = choose|j: int|
                            0 <= j < wb && (#[trigger] orig[j]).hash@ == orig[wb].parent_hash@
                                && orig[j].height + 1 == orig[wb].height;
                        if j != wt {
                            assert(orig[j].hash@ != orig[wt].hash@);
                            assert(false);
                        }
                        assert(b.height == target_height + 1);
                    } else {
                        let p = parent_in_kept.unwrap() as int;
                        let wp = choose|wp: int|
                            0 <= wp < orig.len() && orig[wp] == self.blocks@[p];
                        if b.height == old(self).finalized_height + 1 {
                            assert(b.parent_hash@ == old(self).finalized_hash@);
                            assert(orig[wp].hash@ == b.parent_hash@);
                            assert(orig[wp].hash@ != old(self).finalized_hash@);
                            assert(false);
                        }
                        let j = choose|j: int|
                            0 <= j < wb && (#[trigger] orig[j]).hash@ == orig[wb].parent_hash@
                                && orig[j].height + 1 == orig[wb].height;
                        if j != wp {
                            assert(orig[j].hash@ != orig[wp].hash@);
                            assert(false);
                        }
                        assert(b.height == self.blocks@[p].height + 1);
                        assert(self.blocks@[p].height > target_height);
                    }
                }
                let ghost prev_kept = self.blocks@;
                self.blocks.push(b);
                proof {
                    assert(forall|x: int|
                        0 <= x < prev_kept.len() ==> self.blocks@[x] == prev_kept[x]);
                    assert(self.blocks@.last() == b);
                    assert forall|x: int, y: int|
                        0 <= x < self.blocks@.len() && 0 <= y < self.blocks@.len() && x != y
                        implies self.blocks@[x].hash@ != self.blocks@[y].hash@ by {
                        if x == self.blocks@.len() - 1 {
                            assert(prev_kept[y].hash@ != prev_list[0].hash@);
                        } else if y == self.blocks@.len() - 1 {
                            assert(prev_kept[x].hash@ != prev_list[0].hash@);
                        }
                    }
                    assert forall|a: int, c: int|
                        0 <= a < self.blocks@.len() && 0 <= c < old_list@.len() implies
                        self.blocks@[a].hash@ != old_list@[c].hash@ by {
                        assert(old_list@[c] == resid[k + 1 + c]);
                        if a == self.blocks@.len() - 1 {
                            assert(self.blocks@[a] == resid[k]);
                            assert(resid[k].hash@ != resid[k + 1 + c].hash@);
                        } else {
                            assert(self.blocks@[a] == prev_kept[a]);
                        }
                    }
                    assert forall|i2: int|
                        0 <= i2 < self.blocks@.len() implies if self.blocks@[i2].height
                        == target_height + 1 {
                        (#[trigger] self.blocks@[i2]).parent_hash@ == target_hash@
                    } else {
                        exists|j: int|
                            0 <= j < i2 && (#[trigger] self.blocks@[j]).hash@
                                == self.blocks@[i2].parent_hash@ && self.blocks@[j].height + 1
                                == self.blocks@[i2].height
                    } by {
                        if i2 < self.blocks@.len() - 1 {
                            assert(self.blocks@[i2] == prev_kept[i2]);
                            if prev_kept[i2].height != target_height + 1 {
                                let j = choose|j: int|
                                    0 <= j < i2 && (#[trigger] prev_kept[j]).hash@
                                        == prev_kept[i2].parent_hash@ && prev_kept[j].height + 1
                                        == prev_kept[i2].height;
                                assert(self.blocks@[j] == prev_kept[j]);
                            }
                        } else {
                            if b.height != target_height + 1 {
                                let p = parent_in_kept.unwrap() as int;
                                assert(self.blocks@[p] == prev_kept[p]);
                                assert(self.blocks@[p].hash@ == b.parent_hash@);
                                assert(self.blocks@[p].height + 1 == b.height);
                            }
                        }
                    }
                }
            }
        }
        // recompute the best block among the surviving descendants
        if self.blocks.len() > 0 {
            let mut bi: usize = 0;
            let mut j: usize = 1;
            while j < self.blocks.len()
                invariant
                    bi < j,
                    j <= self.blocks@.len(),
                    forall|x: int|
                        0 <= x < j ==> (#[trigger] self.blocks@[x]).height
                            <= self.blocks@[bi as int].height,
                decreases self.blocks@.len() - j,
            {
                if self.blocks[j].height > self.blocks[bi].height {
                    bi = j;
                }
                j = j + 1;
            }
            self.best = Option::Some(bi);
        }
        let new_best_height = self.best_block_height();
        let new_best_hash = self.best_block_hash();
        let updates_best = !(new_best_height == old_best_height && bytes_eq(
            &new_best_hash,
            &old_best_hash,
        ));
        (chain, updates_best)
    }
}

} // verus!
