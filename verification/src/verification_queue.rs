//! The verification queue of the optimistic engine.
//!
//! A contiguous run of block heights, starting just above the best block,
//! split into segments. Each segment is either missing, requested from a
//! source, or ready with the downloaded blocks. Blocks are consumed for
//! verification from the front; the queue slides forward as the best block
//! advances.

use vstd::prelude::*;

verus! {

/// State of one segment of heights.
pub enum SegmentState<TRq, TB> {
    /// Nobody has been asked for these blocks yet.
    Missing,
    /// A request for these blocks is in flight.
    Requested { request_id: u64, source: u64, user_data: TRq },
    /// The blocks are here, one per height of the segment.
    Ready { source: u64, blocks: Vec<TB> },
}

/// A run of consecutive heights in one state.
pub struct Segment<TRq, TB> {
    pub start: u64,
    pub len: u64,
    pub state: SegmentState<TRq, TB>,
}

/// How many blocks a requested segment contributes to a source's count.
pub open spec fn seg_contrib<TRq, TB>(seg: Segment<TRq, TB>, sid: u64) -> int {
    match seg.state {
        SegmentState::Requested { source, .. } => if source == sid {
            1int
        } else {
            0int
        },
        _ => 0int,
    }
}

/// Number of in-flight requests of the queue that name the source.
pub open spec fn count_requested<TRq, TB>(segments: Seq<Segment<TRq, TB>>, sid: u64) -> int
    decreases segments.len(),
{
    if segments.len() == 0 {
        0
    } else {
        count_requested(segments.drop_last(), sid) + seg_contrib(segments.last(), sid)
    }
}

/// Updating one segment changes a source's count by the difference of the
/// two segments' contributions.
pub proof fn lemma_count_requested_update<TRq, TB>(
    segments: Seq<Segment<TRq, TB>>,
    i: int,
    e: Segment<TRq, TB>,
    sid: u64,
)
    requires
        0 <= i < segments.len(),
    ensures
        count_requested(segments.update(i, e), sid) == count_requested(segments, sid)
            - seg_contrib(segments[i], sid) + seg_contrib(e, sid),
    decreases segments.len(),
{
    let s2 = segments.update(i, e);
    if i == segments.len() - 1 {
        assert(s2.drop_last() =~= segments.drop_last());
        assert(s2.last() == e);
    } else {
        assert(s2.drop_last() =~= segments.drop_last().update(i, e));
        assert(s2.last() == segments.last());
        lemma_count_requested_update(segments.drop_last(), i, e, sid);
    }
}

/// Appending a segment adds its contribution to a source's count.
pub proof fn lemma_count_requested_push<TRq, TB>(
    segments: Seq<Segment<TRq, TB>>,
    e: Segment<TRq, TB>,
    sid: u64,
)
    ensures
        count_requested(segments.push(e), sid) == count_requested(segments, sid) + seg_contrib(
            e,
            sid,
        ),
{
    assert(segments.push(e).drop_last() =~= segments);
    assert(segments.push(e).last() == e);
}

/// Inserting a segment adds its contribution to a source's count.
pub proof fn lemma_count_requested_insert<TRq, TB>(
    segments: Seq<Segment<TRq, TB>>,
    i: int,
    e: Segment<TRq, TB>,
    sid: u64,
)
    requires
        0 <= i <= segments.len(),
    ensures
        count_requested(segments.insert(i, e), sid) == count_requested(segments, sid)
            + seg_contrib(e, sid),
    decreases segments.len(),
{
    let s2 = segments.insert(i, e);
    if i == segments.len() {
        assert(s2 =~= segments.push(e));
        lemma_count_requested_push(segments, e, sid);
    } else {
        assert(s2.drop_last() =~= segments.drop_last().insert(i, e));
        assert(s2.last() == segments.last());
        lemma_count_requested_insert(segments.drop_last(), i, e, sid);
    }
}

/// Removing a segment subtracts its contribution from a source's count.
pub proof fn lemma_count_requested_remove<TRq, TB>(
    segments: Seq<Segment<TRq, TB>>,
    i: int,
    sid: u64,
)
    requires
        0 <= i < segments.len(),
    ensures
        count_requested(segments.remove(i), sid) == count_requested(segments, sid) - seg_contrib(
            segments[i],
            sid,
        ),
    decreases segments.len(),
{
    if i == segments.len() - 1 {
        assert(segments.remove(i) =~= segments.drop_last());
    } else {
        let s2 = segments.remove(i);
        assert(s2.drop_last() =~= segments.drop_last().remove(i));
        assert(s2.last() == segments.last());
        lemma_count_requested_remove(segments.drop_last(), i, sid);
    }
}

/// A source's queue count is never negative.
pub proof fn lemma_count_requested_nonneg<TRq, TB>(segments: Seq<Segment<TRq, TB>>, sid: u64)
    ensures
        count_requested(segments, sid) >= 0,
    decreases segments.len(),
{
    if segments.len() > 0 {
        lemma_count_requested_nonneg(segments.drop_last(), sid);
    }
}

/// A source's queue count never exceeds the number of segments.
pub proof fn lemma_count_requested_le_len<TRq, TB>(segments: Seq<Segment<TRq, TB>>, sid: u64)
    ensures
        0 <= count_requested(segments, sid) <= segments.len(),
    decreases segments.len(),
{
    if segments.len() > 0 {
        lemma_count_requested_le_len(segments.drop_last(), sid);
    }
}

/// Some segment holds an in-flight request with this identifier.
pub open spec fn has_queued_request<TRq, TB>(segments: Seq<Segment<TRq, TB>>, rid: u64) -> bool {
    exists|i: int|
        0 <= i < segments.len() && ((#[trigger] segments[i]).state
            matches SegmentState::Requested { request_id, .. } && request_id == rid)
}

/// Index of the segment holding the in-flight request with this
/// identifier.
pub open spec fn queued_seg_idx<TRq, TB>(segments: Seq<Segment<TRq, TB>>, rid: u64) -> int {
    choose|i: int|
        0 <= i < segments.len() && ((#[trigger] segments[i]).state
            matches SegmentState::Requested { request_id, .. } && request_id == rid)
}

/// User data of the in-flight request with this identifier.
pub open spec fn queued_request_user_data<TRq, TB>(
    segments: Seq<Segment<TRq, TB>>,
    rid: u64,
) -> TRq {
    match segments[queued_seg_idx(segments, rid)].state {
        SegmentState::Requested { user_data, .. } => user_data,
        _ => vstd::pervasive::arbitrary(),
    }
}

/// The verification queue itself.
pub struct VerificationQueue<TRq, TB> {
    /// Height of the first slot; always just above the best block.
    pub base: u64,
    pub segments: Vec<Segment<TRq, TB>>,
}

impl<TRq, TB> VerificationQueue<TRq, TB> {
    /// Segments cover consecutive heights starting at the base, each is
    /// non-empty, heights stay within bounds, and a ready segment holds one
    /// block per height.
    pub open spec fn wf(self) -> bool {
        &&& forall|i: int| 0 <= i < self.segments@.len() ==> (#[trigger] self.segments@[i]).len >= 1
        &&& forall|i: int|
            0 <= i < self.segments@.len() ==> (#[trigger] self.segments@[i]).start
                + self.segments@[i].len <= u64::MAX
        &&& (self.segments@.len() > 0 ==> self.segments@[0].start == self.base)
        &&& forall|i: int|
            0 < i < self.segments@.len() ==> (#[trigger] self.segments@[i]).start
                == self.segments@[i - 1].start + self.segments@[i - 1].len
        &&& forall|i: int|
            0 <= i < self.segments@.len() ==> match (#[trigger] self.segments@[i]).state {
                SegmentState::Ready { blocks, .. } => blocks@.len() == self.segments@[i].len,
                _ => true,
            }
        &&& forall|i: int, j: int|
            0 <= i < self.segments@.len() && 0 <= j < self.segments@.len() && i != j ==> !((
            #[trigger] self.segments@[i]).state matches SegmentState::Requested {
                request_id: rx,
                ..
            } && ((#[trigger] self.segments@[j]).state matches SegmentState::Requested {
                request_id: ry,
                ..
            } && rx == ry))
    }

    /// Height just after the covered run.
    pub open spec fn spec_end(self) -> int {
        if self.segments@.len() == 0 {
            self.base as int
        } else {
            self.segments@.last().start + self.segments@.last().len
        }
    }

    /// An empty queue starting at the given height.
    pub fn new(base: u64) -> (r: VerificationQueue<TRq, TB>)
        ensures
            r.wf(),
            r.base == base,
            r.segments@.len() == 0,
    {
        VerificationQueue { base, segments: Vec::new() }
    }

    /// Height just after the covered run.
    pub fn end(&self) -> (r: u64)
        requires
            self.wf(),
        ensures
            r == self.spec_end(),
    {
        if self.segments.len() == 0 {
            self.base
        } else {
            let last = &self.segments[self.segments.len() - 1];
            last.start + last.len
        }
    }

    /// The spans worth requesting: every missing segment, and the
    /// uncovered tail up to `download_ahead` blocks past the base. Every
    /// missing segment is yielded, with its exact start and length.
    pub fn desired_requests(&self, download_ahead: u64) -> (r: Vec<(u64, u64)>)
        requires
            self.wf(),
        ensures
            forall|k: int|
                0 <= k < r@.len() ==> (#[trigger] r@[k]).1 >= 1 && r@[k].0 >= self.base && r@[k].0
                    + r@[k].1 <= u64::MAX,
            forall|i: int|
                0 <= i < self.segments@.len() && (#[trigger] self.segments@[i]).state is Missing
                    ==> exists|k: int|
                    0 <= k < r@.len() && #[trigger] r@[k] == (
                    self.segments@[i].start,
                    self.segments@[i].len,
                ),
    {
        let mut r: Vec<(u64, u64)> = Vec::new();
        let mut i: usize = 0;
        while i < self.segments.len()
            invariant
                self.wf(),
                i <= self.segments@.len(),
                forall|k: int|
                    0 <= k < r@.len() ==> (#[trigger] r@[k]).1 >= 1 && r@[k].0 >= self.base
                        && r@[k].0 + r@[k].1 <= u64::MAX,
                forall|x: int|
                    0 <= x < i && (#[trigger] self.segments@[x]).state is Missing ==> exists|k: int|
                        0 <= k < r@.len() && #[trigger] r@[k] == (
                        self.segments@[x].start,
                        self.segments@[x].len,
                    ),
            decreases self.segments@.len() - i,
        {
            let seg = &self.segments[i];
            let ghost old_r = r@;
            if matches!(seg.state, SegmentState::Missing) {
                proof {
                    if i > 0 {
                        assert(self.segments@[i as int].start >= self.base) by {
                            lemma_starts_increase(self.segments@, self.base, i as int);
                        }
                    }
                }
                r.push((seg.start, seg.len));
                proof {
                    assert forall|x: int|
                        0 <= x < i + 1 && (#[trigger] self.segments@[x]).state is Missing
                        implies exists|k: int|
                        0 <= k < r@.len() && #[trigger] r@[k] == (
                        self.segments@[x].start,
                        self.segments@[x].len,
                    ) by {
                        if x < i {
                            let k = choose|k: int|
                                0 <= k < old_r.len() && #[trigger] old_r[k] == (
                                self.segments@[x].start,
                                self.segments@[x].len,
                            );
                            assert(r@[k] == old_r[k]);
                        } else {
                            assert(r@[r@.len() - 1] == (
                                self.segments@[i as int].start,
                                self.segments@[i as int].len,
                            ));
                        }
                    }
                }
            }
            i = i + 1;
        }
        let covered_end = self.end();
        let target = if self.base > u64::MAX - download_ahead {
            u64::MAX
        } else {
            self.base + download_ahead
        };
        if covered_end < target {
            let ghost old_r = r@;
            proof {
                if self.segments@.len() > 0 {
                    lemma_starts_increase(
                        self.segments@,
                        self.base,
                        self.segments@.len() - 1,
                    );
                }
            }
            r.push((covered_end, target - covered_end));
            proof {
                assert forall|x: int|
                    0 <= x < self.segments@.len() && (
                #[trigger] self.segments@[x]).state is Missing implies exists|k: int|
                    0 <= k < r@.len() && #[trigger] r@[k] == (
                    self.segments@[x].start,
                    self.segments@[x].len,
                ) by {
                    let k = choose|k: int|
                        0 <= k < old_r.len() && #[trigger] old_r[k] == (
                        self.segments@[x].start,
                        self.segments@[x].len,
                    );
                    assert(r@[k] == old_r[k]);
                }
            }
        }
        r
    }

    /// Read access to the first ready block and the source that served it.
    pub fn first_ready(&self) -> (r: (&TB, u64))
        requires
            self.wf(),
            self.segments@.len() > 0,
            self.segments@[0].state matches SegmentState::Ready { .. },
        ensures
            match self.segments@[0].state {
                SegmentState::Ready { source, blocks } => r.0 == blocks@[0] && r.1 == source,
                _ => false,
            },
    {
        match &self.segments[0].state {
            SegmentState::Ready { source, blocks } => (&blocks[0], *source),
            _ => {
                proof {
                    assert(false);
                }
                vstd::pervasive::unreached()
            },
        }
    }

    /// True if the first segment is ready for verification.
    pub fn blocks_ready(&self) -> (r: bool)
        ensures
            r == (self.segments@.len() > 0 && self.segments@[0].state matches SegmentState::Ready {
                ..
            }),
    {
        if self.segments.len() == 0 {
            return false;
        }
        matches!(self.segments[0].state, SegmentState::Ready { .. })
    }
}

/// Segment starts never go below the base.
pub proof fn lemma_starts_increase<TRq, TB>(
    segments: Seq<Segment<TRq, TB>>,
    base: u64,
    i: int,
)
    requires
        0 <= i < segments.len(),
        segments.len() > 0 ==> segments[0].start == base,
        forall|j: int| 0 <= j < segments.len() ==> (#[trigger] segments[j]).len >= 1,
        forall|j: int|
            0 < j < segments.len() ==> (#[trigger] segments[j]).start == segments[j - 1].start
                + segments[j - 1].len,
    ensures
        segments[i].start >= base,
    decreases i,
{
    if i > 0 {
        lemma_starts_increase(segments, base, i - 1);
    }
}

impl<TRq, TB> VerificationQueue<TRq, TB> {
    /// Records a started request. It is accepted when it begins at the start
    /// of a missing segment, or exactly at the end of the covered run; an
    /// accepted request occupies at most the missing segment it starts.
    /// Returns the user data back when the request matches nothing, so the
    /// caller can file it as immediately obsolete.
    #[verifier::rlimit(100)]
    #[verifier::spinoff_prover]
    pub fn insert_request(
        &mut self,
        height: u64,
        num_blocks: u64,
        source: u64,
        request_id: u64,
        user_data: TRq,
    ) -> (r: Option<TRq>)
        requires
            old(self).wf(),
            num_blocks >= 1,
            height + num_blocks <= u64::MAX,
            !has_queued_request(old(self).segments@, request_id),
        ensures
            final(self).wf(),
            final(self).base == old(self).base,
            match r {
                Option::None => {
                    &&& has_queued_request(final(self).segments@, request_id)
                    &&& (forall|x: int|
                        0 <= x < final(self).segments@.len() ==> match (#[trigger] final(self).segments@[x]).state {
                            SegmentState::Requested { request_id: r2, source: s2, .. } => (r2
                                == request_id && s2 == source) || exists|w: int|
                                0 <= w < old(self).segments@.len() && old(self).segments@[w]
                                    == final(self).segments@[x],
                            _ => true,
                        })
                    &&& count_requested(final(self).segments@, source) == count_requested(
                        old(self).segments@,
                        source,
                    ) + 1
                    &&& forall|s2: u64|
                        s2 != source ==> count_requested(final(self).segments@, s2)
                            == count_requested(old(self).segments@, s2)
                    &&& (forall|rid2: u64|
                        rid2 != request_id ==> has_queued_request(final(self).segments@, rid2)
                            == has_queued_request(old(self).segments@, rid2))
                },
                Option::Some(ud) => ud == user_data && *final(self) == *old(self),
            },
    {
        let n = self.segments.len();
        let mut found: Option<usize> = Option::None;
        let mut i: usize = 0;
        while i < n && found.is_none()
            invariant
                n == self.segments@.len(),
                i <= n,
                match found {
                    Option::Some(f) => f < n && self.segments@[f as int].start == height
                        && self.segments@[f as int].state is Missing,
                    Option::None => true,
                },
            decreases n - i, (if found is None { 1int } else { 0int }),
        {
            if self.segments[i].start == height && matches!(
                self.segments[i].state,
                SegmentState::Missing,
            ) {
                found = Option::Some(i);
            } else {
                i = i + 1;
            }
        }
        match found {
            Option::Some(fi) => {
                let seg_len = self.segments[fi].len;
                let take = if num_blocks < seg_len {
                    num_blocks
                } else {
                    seg_len
                };
                let _old_seg = self.segments.remove(fi);
                self.segments.insert(
                    fi,
                    Segment {
                        start: height,
                        len: take,
                        state: SegmentState::Requested { request_id, source, user_data },
                    },
                );
                proof {
                    assert(self.segments@ =~= old(self).segments@.update(
                        fi as int,
                        self.segments@[fi as int],
                    ));
                }
                if take < seg_len {
                    self.segments.insert(
                        fi + 1,
                        Segment {
                            start: height + take,
                            len: seg_len - take,
                            state: SegmentState::Missing,
                        },
                    );
                }
                proof {
                    let i = fi as int;
                    lemma_count_queue_after_split(
                        old(self).segments@,
                        self.segments@,
                        i,
                        request_id,
                        source,
                    );
                    assert(self.segments@[i].state matches SegmentState::Requested {
                        request_id: r2,
                        ..
                    } && r2 == request_id);
                    assert(has_queued_request(self.segments@, request_id));
                    let pre = old(self).segments@;
                    let post = self.segments@;
                    let extra: int = if take < seg_len {
                        1
                    } else {
                        0
                    };
                    assert(forall|x: int| 0 <= x < i ==> post[x] == pre[x]);
                    assert(forall|x: int|
                        i + extra < x < post.len() ==> post[x] == pre[x - extra]);
                    assert forall|x: int|
                        0 <= x < post.len() implies (#[trigger] post[x]).len >= 1 && post[x].start
                        + post[x].len <= u64::MAX && (match post[x].state {
                        SegmentState::Ready { blocks, .. } => blocks@.len() == post[x].len,
                        _ => true,
                    }) by {
                        if x < i {
                            assert(post[x] == pre[x]);
                        } else if x > i + extra {
                            assert(post[x] == pre[x - extra]);
                        }
                    }
                    assert forall|x: int|
                        0 < x < post.len() implies (#[trigger] post[x]).start == post[x - 1].start
                        + post[x - 1].len by {
                        if x < i {
                            assert(post[x] == pre[x] && post[x - 1] == pre[x - 1]);
                        } else if x == i {
                            assert(post[x - 1] == pre[x - 1]);
                            assert(pre[i].start == height);
                        } else if x == i + 1 && extra == 1 {
                        } else if x == i + 1 {
                            assert(post[x] == pre[x]);
                            assert(pre[x].start == pre[i].start + pre[i].len);
                        } else if x == i + 2 && extra == 1 {
                            assert(post[x] == pre[x - 1]);
                            assert(pre[x - 1].start == pre[i].start + pre[i].len);
                        } else {
                            assert(post[x] == pre[x - extra] && post[x - 1] == pre[x - extra
                                - 1]);
                        }
                    }
                }
                Option::None
            },
            Option::None => {
                if self.end() == height {
                    let ghost pre = self.segments@;
                    self.segments.push(
                        Segment {
                            start: height,
                            len: num_blocks,
                            state: SegmentState::Requested { request_id, source, user_data },
                        },
                    );
                    proof {
                        lemma_count_requested_push(pre, self.segments@.last(), source);
                        assert forall|s2: u64|
                            s2 != source implies count_requested(self.segments@, s2)
                            == count_requested(pre, s2) by {
                            lemma_count_requested_push(pre, self.segments@.last(), s2);
                        }
                        assert(self.segments@[self.segments@.len() - 1].state
                            matches SegmentState::Requested { request_id: r2, .. } && r2
                            == request_id);
                        assert forall|rid2: u64|
                            rid2 != request_id implies has_queued_request(self.segments@, rid2)
                            == has_queued_request(pre, rid2) by {
                            if has_queued_request(pre, rid2) {
                                let w = choose|w: int|
                                    0 <= w < pre.len() && ((#[trigger] pre[w]).state
                                        matches SegmentState::Requested { request_id, .. }
                                        && request_id == rid2);
                                assert(self.segments@[w] == pre[w]);
                            }
                            if has_queued_request(self.segments@, rid2) {
                                let w = choose|w: int|
                                    0 <= w < self.segments@.len() && ((
                                    #[trigger] self.segments@[w]).state
                                        matches SegmentState::Requested { request_id, .. }
                                        && request_id == rid2);
                                assert(w < pre.len());
                                assert(pre[w] == self.segments@[w]);
                            }
                        }
                    }
                    Option::None
                } else {
                    Option::Some(user_data)
                }
            },
        }
    }
}

/// After splitting a missing segment at `i` into a requested head (and
/// possibly a missing tail), exactly the request's source gained one
/// in-flight request, and no other request identifier appeared or vanished.
pub proof fn lemma_count_queue_after_split<TRq, TB>(
    pre: Seq<Segment<TRq, TB>>,
    post: Seq<Segment<TRq, TB>>,
    i: int,
    rid: u64,
    source: u64,
)
    requires
        0 <= i < pre.len(),
        pre[i].state is Missing,
        post.len() == pre.len() || post.len() == pre.len() + 1,
        forall|x: int| 0 <= x < i ==> post[x] == pre[x],
        post.len() == pre.len() ==> forall|x: int| i < x < pre.len() ==> post[x] == pre[x],
        post.len() == pre.len() + 1 ==> (forall|x: int|
            i + 1 < x < post.len() ==> post[x] == pre[x - 1]) && post[i + 1].state is Missing,
        post[i].state matches SegmentState::Requested { request_id: r2, source: s2, .. } && r2
            == rid && s2 == source,
    ensures
        count_requested(post, source) == count_requested(pre, source) + 1,
        forall|s2: u64|
            s2 != source ==> count_requested(post, s2) == count_requested(pre, s2),
        forall|rid2: u64|
            rid2 != rid ==> has_queued_request(post, rid2) == has_queued_request(pre, rid2),
{
    assert forall|s2: u64| true implies count_requested(post, s2) == count_requested(pre, s2)
        + (if s2 == source {
        1int
    } else {
        0int
    }) by {
        if post.len() == pre.len() {
            assert(post =~= pre.update(i, post[i]));
            lemma_count_requested_update(pre, i, post[i], s2);
        } else {
            let mid = pre.update(i, post[i]);
            lemma_count_requested_update(pre, i, post[i], s2);
            assert(post =~= mid.insert(i + 1, post[i + 1]));
            lemma_count_requested_insert(mid, i + 1, post[i + 1], s2);
        }
    }
    assert forall|rid2: u64|
        rid2 != rid implies has_queued_request(post, rid2) == has_queued_request(pre, rid2) by {
        if has_queued_request(pre, rid2) {
            let w = choose|w: int|
                0 <= w < pre.len() && ((#[trigger] pre[w]).state matches SegmentState::Requested {
                    request_id,
                    ..
                } && request_id == rid2);
            assert(w != i);
            if w < i {
                assert(post[w] == pre[w]);
            } else if post.len() == pre.len() {
                assert(post[w] == pre[w]);
            } else {
                assert(post[w + 1] == pre[w]);
            }
        }
        if has_queued_request(post, rid2) {
            let w = choose|w: int|
                0 <= w < post.len() && ((#[trigger] post[w]).state
                    matches SegmentState::Requested { request_id, .. } && request_id == rid2);
            assert(w != i);
            if w < i {
                assert(pre[w] == post[w]);
            } else if post.len() == pre.len() {
                assert(pre[w] == post[w]);
            } else {
                assert(w != i + 1);
                assert(pre[w - 1] == post[w]);
            }
        }
    }
}

impl<TRq, TB> VerificationQueue<TRq, TB> {
    /// Ends the in-flight request with this identifier. `None` if no
    /// segment carries it. On a success the received blocks fill the
    /// segment, any surplus being dropped and any shortfall going back to
    /// missing; on a failure the whole segment goes back to missing. Hands
    /// back the request's source and user data.
    #[verifier::rlimit(60)]
    pub fn finish_request(&mut self, request_id: u64, blocks: Option<Vec<TB>>) -> (r: Option<
        (u64, TRq),
    >)
        requires
            old(self).wf(),
            forall|x: int, y: int|
                0 <= x < old(self).segments@.len() && 0 <= y < old(self).segments@.len() && x != y
                    ==> !((#[trigger] old(self).segments@[x]).state
                    matches SegmentState::Requested { request_id: rx, .. }
                    && ((#[trigger] old(self).segments@[y]).state
                    matches SegmentState::Requested { request_id: ry, .. } && rx == ry)),
        ensures
            final(self).wf(),
            final(self).base == old(self).base,
            forall|x: int|
                0 <= x < final(self).segments@.len() ==> match (#[trigger] final(self).segments@[x]).state {
                    SegmentState::Requested { .. } => exists|w: int|
                        0 <= w < old(self).segments@.len() && old(self).segments@[w] == final(self).segments@[x],
                    _ => true,
                },
            match r {
                Option::Some((source, ud)) => {
                    &&& has_queued_request(old(self).segments@, request_id)
                    &&& (exists|w: int|
                        0 <= w < old(self).segments@.len() && ((#[trigger] old(
                            self,
                        ).segments@[w]).state matches SegmentState::Requested {
                            request_id: rr,
                            source: ss,
                            user_data: uu,
                        } && rr == request_id && ss == source && uu == ud))
                    &&& ud == queued_request_user_data(old(self).segments@, request_id)
                    &&& !has_queued_request(final(self).segments@, request_id)
                    &&& (blocks matches Option::Some(bs) ==> ({
                        let w = queued_seg_idx(old(self).segments@, request_id);
                        let seg = old(self).segments@[w];
                        let take: int = if bs@.len() < seg.len {
                            bs@.len() as int
                        } else {
                            seg.len as int
                        };
                        &&& w < final(self).segments@.len()
                        &&& final(self).segments@[w].start == seg.start
                        &&& if take == 0 {
                            final(self).segments@[w].state is Missing
                        } else {
                            final(self).segments@[w].state matches SegmentState::Ready {
                                source: s3,
                                blocks: b3,
                            } && s3 == source && b3@ == bs@.take(take)
                        }
                    }))
                    &&& count_requested(final(self).segments@, source) == count_requested(
                        old(self).segments@,
                        source,
                    ) - 1
                    &&& forall|s2: u64|
                        s2 != source ==> count_requested(final(self).segments@, s2)
                            == count_requested(old(self).segments@, s2)
                    &&& (forall|rid2: u64|
                        rid2 != request_id ==> has_queued_request(final(self).segments@, rid2)
                            == has_queued_request(old(self).segments@, rid2))
                },
                Option::None => *final(self) == *old(self) && !has_queued_request(
                    old(self).segments@,
                    request_id,
                ),
            },
    {
        let ghost blocks_in = blocks;
        let n = self.segments.len();
        let mut found: Option<usize> = Option::None;
        let mut i: usize = 0;
        while i < n && found.is_none()
            invariant
                n == self.segments@.len(),
                i <= n,
                forall|j: int|
                    0 <= j < i ==> !((#[trigger] self.segments@[j]).state
                        matches SegmentState::Requested { request_id: rj, .. } && rj
                        == request_id),
                match found {
                    Option::Some(f) => f < n && (self.segments@[f as int].state
                        matches SegmentState::Requested { request_id: rf, .. } && rf
                        == request_id),
                    Option::None => true,
                },
            decreases n - i, (if found is None { 1int } else { 0int }),
        {
            let hit = match &self.segments[i].state {
                SegmentState::Requested { request_id: rid2, .. } => *rid2 == request_id,
                _ => false,
            };
            if hit {
                found = Option::Some(i);
            } else {
                i = i + 1;
            }
        }
        let fi = match found {
            Option::Some(fi) => fi,
            Option::None => {
                proof {
                    assert(!has_queued_request(self.segments@, request_id));
                }
                return Option::None;
            },
        };
        let seg = self.segments.remove(fi);
        let start = seg.start;
        let seg_len = seg.len;
        let (source, user_data) = match seg.state {
            SegmentState::Requested { request_id: _, source, user_data } => (source, user_data),
            _ => {
                proof {
                    assert(false);
                }
                return Option::None;
            },
        };
        let extra: bool;
        match blocks {
            Option::None => {
                self.segments.insert(
                    fi,
                    Segment { start, len: seg_len, state: SegmentState::Missing },
                );
                extra = false;
            },
            Option::Some(mut bs) => {
                if bs.len() as u64 > seg_len {
                    bs.truncate(seg_len as usize);
                }
                let blen = bs.len() as u64;
                if blen == 0 {
                    self.segments.insert(
                        fi,
                        Segment { start, len: seg_len, state: SegmentState::Missing },
                    );
                    extra = false;
                } else if blen == seg_len {
                    self.segments.insert(
                        fi,
                        Segment {
                            start,
                            len: seg_len,
                            state: SegmentState::Ready { source, blocks: bs },
                        },
                    );
                    extra = false;
                } else {
                    self.segments.insert(
                        fi,
                        Segment { start, len: blen, state: SegmentState::Ready { source, blocks: bs } },
                    );
                    self.segments.insert(
                        fi + 1,
                        Segment {
                            start: start + blen,
                            len: seg_len - blen,
                            state: SegmentState::Missing,
                        },
                    );
                    extra = true;
                }
            },
        }
        proof {
            let i = fi as int;
            let pre = old(self).segments@;
            let post = self.segments@;
            let ex: int = if extra {
                1
            } else {
                0
            };
            assert(forall|x: int| 0 <= x < i ==> post[x] == pre[x]);
            assert(forall|x: int| i + ex < x < post.len() ==> post[x] == pre[x - ex]);
            assert(seg_contrib(post[i], source) == 0);
            assert forall|s2: u64| true implies count_requested(post, s2) == count_requested(
                pre,
                s2,
            ) - (if s2 == source {
                1int
            } else {
                0int
            }) by {
                if !extra {
                    assert(post =~= pre.update(i, post[i]));
                    lemma_count_requested_update(pre, i, post[i], s2);
                } else {
                    let mid = pre.update(i, post[i]);
                    lemma_count_requested_update(pre, i, post[i], s2);
                    assert(post =~= mid.insert(i + 1, post[i + 1]));
                    lemma_count_requested_insert(mid, i + 1, post[i + 1], s2);
                }
            }
            assert forall|rid2: u64|
                rid2 != request_id implies has_queued_request(post, rid2) == has_queued_request(
                pre,
                rid2,
            ) by {
                if has_queued_request(pre, rid2) {
                    let w = choose|w: int|
                        0 <= w < pre.len() && ((#[trigger] pre[w]).state
                            matches SegmentState::Requested { request_id, .. } && request_id
                            == rid2);
                    assert(w != i);
                    if w < i {
                        assert(post[w] == pre[w]);
                    } else {
                        assert(post[w + ex] == pre[w]);
                    }
                }
                if has_queued_request(post, rid2) {
                    let w = choose|w: int|
                        0 <= w < post.len() && ((#[trigger] post[w]).state
                            matches SegmentState::Requested { request_id, .. } && request_id
                            == rid2);
                    assert(w != i && !(extra && w == i + 1));
                    if w < i {
                        assert(pre[w] == post[w]);
                    } else {
                        assert(pre[w - ex] == post[w]);
                    }
                }
            }
            assert forall|rid2: u64|
                has_queued_request(post, rid2) && rid2 == request_id implies false by {
                let w = choose|w: int|
                    0 <= w < post.len() && ((#[trigger] post[w]).state
                        matches SegmentState::Requested { request_id, .. } && request_id == rid2);
                assert(w != i && !(extra && w == i + 1));
                if w < i {
                    assert(pre[w] == post[w]);
                } else {
                    assert(pre[w - ex] == post[w]);
                    assert(w - ex != i);
                }
            }
            assert forall|x: int|
                0 <= x < post.len() implies (#[trigger] post[x]).len >= 1 && post[x].start
                + post[x].len <= u64::MAX && (match post[x].state {
                SegmentState::Ready { blocks, .. } => blocks@.len() == post[x].len,
                _ => true,
            }) by {
                if x < i {
                    assert(post[x] == pre[x]);
                } else if x > i + ex {
                    assert(post[x] == pre[x - ex]);
                }
            }
            assert forall|x: int|
                0 < x < post.len() implies (#[trigger] post[x]).start == post[x - 1].start + post[x
                - 1].len by {
                if x < i {
                    assert(post[x] == pre[x] && post[x - 1] == pre[x - 1]);
                } else if x == i {
                    assert(post[x - 1] == pre[x - 1]);
                    assert(pre[i].start == start);
                } else if x == i + 1 && extra {
                } else if x == i + 1 {
                    assert(post[x] == pre[x]);
                    assert(pre[x].start == pre[i].start + pre[i].len);
                } else if x == i + 2 && extra {
                    assert(post[x] == pre[x - 1]);
                    assert(pre[x - 1].start == pre[i].start + pre[i].len);
                } else {
                    assert(post[x] == pre[x - ex] && post[x - 1] == pre[x - ex - 1]);
                }
            }
        }
        proof {
            let i = fi as int;
            let pre = old(self).segments@;
            let post = self.segments@;
            // the drained segment is the unique carrier of the identifier,
            // and both the returned user data and the stored blocks come
            // from it
            assert(pre[i].state matches SegmentState::Requested {
                request_id: rr,
                source: ss,
                user_data: uu,
            } && rr == request_id && ss == source && uu == user_data);
            let w0 = queued_seg_idx(pre, request_id);
            assert(has_queued_request(pre, request_id));
            if w0 != i {
                assert(false);
            }
            match blocks_in {
                Option::Some(bs) => {
                    let take: int = if bs@.len() < pre[i].len {
                        bs@.len() as int
                    } else {
                        pre[i].len as int
                    };
                    if take != 0 && take == bs@.len() {
                        assert(bs@.take(take) =~= bs@);
                    }
                },
                Option::None => {},
            }
        }
        Option::Some((source, user_data))
    }

    /// Takes the first ready block out of the queue; the queue slides one
    /// height forward.
    pub fn pop_first_block(&mut self) -> (r: (TB, u64))
        requires
            old(self).wf(),
            old(self).segments@.len() > 0,
            old(self).segments@[0].state matches SegmentState::Ready { .. },
        ensures
            final(self).wf(),
            final(self).base == old(self).base + 1,
            forall|x: int|
                0 <= x < final(self).segments@.len() ==> match (#[trigger] final(self).segments@[x]).state {
                    SegmentState::Requested { .. } => exists|w: int|
                        0 <= w < old(self).segments@.len() && old(self).segments@[w] == final(self).segments@[x],
                    _ => true,
                },

            ({
                let s0 = old(self).segments@[0];
                match s0.state {
                    SegmentState::Ready { source, blocks } => r.0 == blocks@[0] && r.1 == source,
                    _ => false,
                }
            }),
            forall|s2: u64|
                count_requested(final(self).segments@, s2) == count_requested(
                    old(self).segments@,
                    s2,
                ),
            forall|rid2: u64|
                has_queued_request(final(self).segments@, rid2) == has_queued_request(
                    old(self).segments@,
                    rid2,
                ),
    {
        let seg = self.segments.remove(0);
        let start = seg.start;
        let seg_len = seg.len;
        let (source, mut bs) = match seg.state {
            SegmentState::Ready { source, blocks } => (source, blocks),
            _ => {
                proof {
                    assert(false);
                }
                (0, Vec::new())
            },
        };
        let b = bs.remove(0);
        self.base = self.base + 1;
        if seg_len > 1 {
            self.segments.insert(
                0,
                Segment {
                    start: start + 1,
                    len: seg_len - 1,
                    state: SegmentState::Ready { source, blocks: bs },
                },
            );
        }
        proof {
            let pre = old(self).segments@;
            let post = self.segments@;
            let ex: int = if seg_len > 1 {
                0
            } else {
                1
            };
            assert(forall|x: int| 1 - ex <= x < post.len() ==> post[x] == pre[x + ex]);
            assert forall|s2: u64| true implies count_requested(post, s2) == count_requested(
                pre,
                s2,
            ) by {
                lemma_count_requested_remove(pre, 0, s2);
                if seg_len > 1 {
                    assert(post =~= pre.remove(0).insert(0, post[0]));
                    lemma_count_requested_insert(pre.remove(0), 0, post[0], s2);
                } else {
                    assert(post =~= pre.remove(0));
                }
            }
            assert forall|rid2: u64| true implies has_queued_request(post, rid2)
                == has_queued_request(pre, rid2) by {
                if has_queued_request(pre, rid2) {
                    let w = choose|w: int|
                        0 <= w < pre.len() && ((#[trigger] pre[w]).state
                            matches SegmentState::Requested { request_id, .. } && request_id
                            == rid2);
                    assert(w != 0);
                    assert(post[w - ex] == pre[w]);
                }
                if has_queued_request(post, rid2) {
                    let w = choose|w: int|
                        0 <= w < post.len() && ((#[trigger] post[w]).state
                            matches SegmentState::Requested { request_id, .. } && request_id
                            == rid2);
                    if seg_len > 1 && w == 0 {
                    } else {
                        assert(pre[w + ex] == post[w]);
                    }
                }
            }
        }
        (b, source)
    }

    /// Cancels every in-flight request of a source: its segments go back to
    /// missing, and the requests' identifiers and user data are handed back.
    #[verifier::rlimit(60)]
    pub fn drain_source(&mut self, source: u64) -> (r: Vec<(u64, TRq)>)
        requires
            old(self).wf(),
        ensures
            final(self).wf(),
            final(self).base == old(self).base,
            final(self).segments@.len() == old(self).segments@.len(),
            r@.len() == count_requested(old(self).segments@, source),
            forall|x: int|
                0 <= x < final(self).segments@.len() ==> match (#[trigger] final(self).segments@[x]).state {
                    SegmentState::Requested { .. } => exists|w: int|
                        0 <= w < old(self).segments@.len() && old(self).segments@[w] == final(self).segments@[x],
                    _ => true,
                },

            count_requested(final(self).segments@, source) == 0,
            forall|s2: u64|
                s2 != source ==> count_requested(final(self).segments@, s2) == count_requested(
                    old(self).segments@,
                    s2,
                ),
            forall|rid2: u64|
                has_queued_request(final(self).segments@, rid2) ==> has_queued_request(
                    old(self).segments@,
                    rid2,
                ),
    {
        let mut r: Vec<(u64, TRq)> = Vec::new();
        let n = self.segments.len();
        let mut i: usize = 0;
        while i < n
            invariant
                self.wf(),
                self.base == old(self).base,
                n == self.segments@.len(),
                i <= n,
                forall|j: int| 0 <= j < i ==> seg_contrib(#[trigger] self.segments@[j], source) == 0,
                r@.len() + count_requested(self.segments@, source) == count_requested(
                    old(self).segments@,
                    source,
                ),
                forall|s2: u64|
                    s2 != source ==> count_requested(self.segments@, s2) == count_requested(
                        old(self).segments@,
                        s2,
                    ),
                forall|rid2: u64|
                    has_queued_request(self.segments@, rid2) ==> has_queued_request(
                        old(self).segments@,
                        rid2,
                    ),
                forall|x: int|
                    0 <= x < self.segments@.len() ==> match (#[trigger] self.segments@[x]).state {
                        SegmentState::Requested { .. } => exists|w: int|
                            0 <= w < old(self).segments@.len() && old(self).segments@[w]
                                == self.segments@[x],
                        _ => true,
                    },
            decreases n - i,
        {
            let hit = match &self.segments[i].state {
                SegmentState::Requested { source: s2, .. } => *s2 == source,
                _ => false,
            };
            if hit {
                let ghost pre = self.segments@;
                let seg = self.segments.remove(i);
                let (rid, ud) = match seg.state {
                    SegmentState::Requested { request_id, user_data, .. } => (
                        request_id,
                        user_data,
                    ),
                    _ => {
                        proof {
                            assert(false);
                        }
                        return r;
                    },
                };
                self.segments.insert(
                    i,
                    Segment { start: seg.start, len: seg.len, state: SegmentState::Missing },
                );
                r.push((rid, ud));
                proof {
                    assert(self.segments@ =~= pre.update(i as int, self.segments@[i as int]));
                    assert forall|s2: u64| true implies count_requested(self.segments@, s2)
                        == count_requested(pre, s2) - seg_contrib(pre[i as int], s2) by {
                        lemma_count_requested_update(pre, i as int, self.segments@[i as int], s2);
                    }
                    assert forall|rid2: u64|
                        has_queued_request(self.segments@, rid2) implies has_queued_request(
                        old(self).segments@,
                        rid2,
                    ) by {
                        let w = choose|w: int|
                            0 <= w < self.segments@.len() && ((#[trigger] self.segments@[w]).state
                                matches SegmentState::Requested { request_id, .. } && request_id
                                == rid2);
                        assert(w != i);
                        assert(pre[w] == self.segments@[w]);
                    }
                    assert forall|x: int|
                        0 <= x < self.segments@.len() implies match (
                    #[trigger] self.segments@[x]).state {
                        SegmentState::Requested { .. } => exists|w: int|
                            0 <= w < old(self).segments@.len() && old(self).segments@[w]
                                == self.segments@[x],
                        _ => true,
                    } by {
                        if x != i {
                            assert(self.segments@[x] == pre[x]);
                        }
                    }
                }
            }
            i = i + 1;
        }
        proof {
            lemma_count_requested_from_contrib(self.segments@, source);
        }
        r
    }
}

/// When every segment contributes nothing to a source, its count is zero.
pub proof fn lemma_count_requested_from_contrib<TRq, TB>(
    segments: Seq<Segment<TRq, TB>>,
    sid: u64,
)
    requires
        forall|j: int| 0 <= j < segments.len() ==> seg_contrib(#[trigger] segments[j], sid) == 0,
    ensures
        count_requested(segments, sid) == 0,
    decreases segments.len(),
{
    if segments.len() > 0 {
        assert(forall|j: int|
            0 <= j < segments.len() - 1 ==> segments.drop_last()[j] == segments[j]);
        lemma_count_requested_from_contrib(segments.drop_last(), sid);
    }
}

impl<TRq, TB> VerificationQueue<TRq, TB> {
    /// Empties the queue, restarting it at the given base, and hands back
    /// every in-flight request as `(request id, source, user data)`.
    #[verifier::rlimit(60)]
    pub fn drain_all(&mut self, new_base: u64) -> (r: Vec<(u64, u64, TRq)>)
        requires
            old(self).wf(),
        ensures
            final(self).wf(),
            final(self).base == new_base,
            final(self).segments@.len() == 0,
    {
        self.base = new_base;
        let mut segs: Vec<Segment<TRq, TB>> = Vec::new();
        core::mem::swap(&mut self.segments, &mut segs);
        let mut r: Vec<(u64, u64, TRq)> = Vec::new();
        while segs.len() > 0
            invariant
                self.base == new_base,
                self.segments@.len() == 0,
            decreases segs@.len(),
        {
            let seg = segs.remove(0);
            match seg.state {
                SegmentState::Requested { request_id, source, user_data } => {
                    r.push((request_id, source, user_data));
                },
                _ => {},
            }
        }
        r
    }
}

} // verus!
