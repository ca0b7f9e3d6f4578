//! PTS-ordered video-frame present queue.

use vstd::multiset::Multiset;
use vstd::prelude::*;
use vstd::seq_lib::{
    to_multiset_build, to_multiset_contains, to_multiset_insert, to_multiset_len,
    to_multiset_remove,
};

verus! {

/// What to do with a decoded video frame given its PTS vs the audio clock.
#[derive(Debug, Clone, Copy, PartialEq, Eq, Structural)]
pub enum FrameAction {
    /// PTS is within tolerance of the clock: draw it now.
    Present,
    /// PTS is well behind the clock: drop to catch up.
    Drop,
    /// PTS is ahead of the clock: hold the current frame.
    Hold,
}

/// Whether `v` is a value of `i64`.
pub open spec fn fits_i64(v: int) -> bool {
    i64::MIN <= v <= i64::MAX
}

/// The decision for a frame at `pts` against a clock at `clock`.
pub open spec fn decision(pts: int, clock: int, tol: int) -> FrameAction {
    if pts < clock - tol {
        FrameAction::Drop
    } else if pts > clock + tol {
        FrameAction::Hold
    } else {
        FrameAction::Present
    }
}

/// Decide how to handle a video frame. `tol_us` is the half-frame tolerance
/// (e.g. ~20 ms) that avoids thrashing on jitter.
pub fn decide(frame_pts_us: i64, clock_us: i64, tol_us: i64) -> (action: FrameAction)
    requires
        fits_i64(clock_us - tol_us),
        frame_pts_us >= clock_us - tol_us ==> fits_i64(clock_us + tol_us),
    ensures
        action == decision(frame_pts_us as int, clock_us as int, tol_us as int),
{
    if frame_pts_us < clock_us - tol_us {
        FrameAction::Drop
    } else if frame_pts_us > clock_us + tol_us {
        FrameAction::Hold
    } else {
        FrameAction::Present
    }
}

/// Abstract video frame handle with its PTS in microseconds.
///
/// The handle is an opaque integer that lets callers map back to their own
/// frame storage; the queue manages only what presentation order needs.
#[derive(Debug, Clone, Copy, PartialEq, Eq, Structural)]
pub struct VideoFrame {
    /// Presentation timestamp in microseconds (monotonic, unwrapped).
    pub pts_us: i64,
    /// Opaque handle/index that the caller uses to locate the real frame data.
    pub handle: u64,
}

/// PTS-ordered video-frame present queue.
///
/// Frames are pushed in decode order (B-frames arrive out of order) and popped
/// in PTS order. Each pop decides about the earliest frame against the current
/// audio-clock time.
///
/// The queue has a fixed capacity: pushing beyond it is a no-op but for the
/// counter.
pub struct VideoFrameQueue {
    /// Pending frames as a min-heap on `pts_us`.
    pub buf: Vec<VideoFrame>,
    /// Maximum number of frames the queue can hold.
    pub capacity: usize,
    /// Half-frame tolerance (µs) passed to [`decide`].
    pub tol_us: i64,
    /// Frames with `pts_us < clock_us - drop_late_us` are dropped.
    pub drop_late_us: i64,
    /// Number of frames dropped because they were late.
    pub dropped_late_count: u64,
    /// Number of frames dropped because the queue was full.
    pub dropped_full_count: u64,
    /// Number of frames presented.
    pub presented_count: u64,
}

/// Whether every element of `s` but the first is no earlier than its parent.
spec fn is_heap(s: Seq<VideoFrame>) -> bool {
    forall|i: int| 0 < i < s.len() ==> s[(i - 1) / 2].pts_us <= (#[trigger] s[i]).pts_us
}

/// Number of events after `n` more on a counter that stops at its maximum.
pub open spec fn counted(before: u64, n: int) -> int {
    if before + n > u64::MAX {
        u64::MAX as int
    } else {
        before + n
    }
}

/// Whether no frame of `frames` is earlier than `f`.
pub open spec fn earliest(f: VideoFrame, frames: Multiset<VideoFrame>) -> bool {
    frames.contains(f) && forall|g: VideoFrame| #[trigger]
        frames.contains(g) ==> f.pts_us <= g.pts_us
}

/// The frames that are not before `limit`.
pub open spec fn kept(frames: Multiset<VideoFrame>, limit: int) -> Multiset<VideoFrame> {
    frames.filter(|f: VideoFrame| f.pts_us >= limit)
}

proof fn lemma_heap_head_is_least(s: Seq<VideoFrame>, i: int)
    requires
        is_heap(s),
        0 <= i < s.len(),
    ensures
        s[0].pts_us <= s[i].pts_us,
    decreases i,
{
    if i > 0 {
        assert(s[(i - 1) / 2].pts_us <= s[i].pts_us);
        lemma_heap_head_is_least(s, (i - 1) / 2);
    }
}

proof fn lemma_update_multiset(s: Seq<VideoFrame>, i: int, f: VideoFrame)
    requires
        0 <= i < s.len(),
    ensures
        s.update(i, f).to_multiset() == s.to_multiset().remove(s[i]).insert(f),
{
    to_multiset_remove(s, i);
    to_multiset_insert(s.remove(i), i, f);
    assert(s.update(i, f) =~= s.remove(i).insert(i, f));
}

proof fn lemma_swap_multiset(s: Seq<VideoFrame>, i: int, j: int)
    requires
        0 <= i < s.len(),
        0 <= j < s.len(),
    ensures
        s.update(i, s[j]).update(j, s[i]).to_multiset() == s.to_multiset(),
{
    lemma_update_multiset(s, i, s[j]);
    lemma_update_multiset(s.update(i, s[j]), j, s[i]);
    to_multiset_contains(s, s[i]);
    to_multiset_contains(s, s[j]);
    assert(s.update(i, s[j]).update(j, s[i]).to_multiset() =~= s.to_multiset());
}

proof fn lemma_members(s: Seq<VideoFrame>, f: VideoFrame)
    ensures
        s.to_multiset().contains(f) <==> s.contains(f),
{
    to_multiset_contains(s, f);
}

proof fn lemma_head_is_earliest(s: Seq<VideoFrame>)
    requires
        is_heap(s),
        s.len() > 0,
    ensures
        earliest(s[0], s.to_multiset()),
{
    assert(s.contains(s[0]));
    lemma_members(s, s[0]);
    assert forall|g: VideoFrame| #[trigger] s.to_multiset().contains(g) implies s[0].pts_us
        <= g.pts_us by {
        lemma_members(s, g);
        let i = choose|i: int| 0 <= i < s.len() && s[i] == g;
        lemma_heap_head_is_least(s, i);
    }
}

/// What popping at `clock` does to a queue and hands out.
///
/// The frames before the late limit are gone and counted. Of the others the
/// earliest is `next`: taken out when it is presented, left in when it is held.
pub open spec fn popped(
    before: VideoFrameQueue,
    after: VideoFrameQueue,
    clock: int,
    next: Option<(FrameAction, VideoFrame)>,
) -> bool {
    let left = kept(before.frames(), before.late_limit(clock));
    &&& after.wf()
    &&& after.same_limits(before)
    &&& after.dropped_full_count == before.dropped_full_count
    &&& after.dropped_late_count == counted(
        before.dropped_late_count,
        before.frames().len() - left.len(),
    )
    &&& match next {
        None => {
            &&& left.len() == 0
            &&& after.frames() == left
            &&& after.presented_count == before.presented_count
        },
        Some((action, f)) => {
            &&& earliest(f, left)
            &&& left == before.frames() ==> f == before.head()
            &&& action == decision(f.pts_us as int, clock, before.tol_us as int)
            &&& action != FrameAction::Drop
            &&& action == FrameAction::Present ==> {
                &&& after.frames() == left.remove(f)
                &&& after.presented_count == counted(before.presented_count, 1)
            }
            &&& action == FrameAction::Hold ==> {
                &&& after.frames() == left
                &&& after.head() == f
                &&& after.presented_count == before.presented_count
            }
        },
    }
}

/// What pushing a frame does to a queue: a full one drops and counts it.
pub open spec fn frame_pushed(
    before: VideoFrameQueue,
    after: VideoFrameQueue,
    frame: VideoFrame,
) -> bool {
    &&& after.wf()
    &&& after.same_limits(before)
    &&& after.dropped_late_count == before.dropped_late_count
    &&& after.presented_count == before.presented_count
    &&& if before.frames().len() >= before.capacity {
        &&& after.frames() == before.frames()
        &&& after.head() == before.head()
        &&& after.dropped_full_count == counted(before.dropped_full_count, 1)
    } else {
        &&& after.frames() == before.frames().insert(frame)
        &&& after.dropped_full_count == before.dropped_full_count
    }
}

/// What draining does to a queue: every frame counts as dropped late.
pub open spec fn drained(before: VideoFrameQueue, after: VideoFrameQueue) -> bool {
    &&& after.wf()
    &&& after.frames() == Multiset::<VideoFrame>::empty()
    &&& after.same_limits(before)
    &&& after.dropped_late_count == counted(
        before.dropped_late_count,
        before.frames().len() as int,
    )
    &&& after.dropped_full_count == before.dropped_full_count
    &&& after.presented_count == before.presented_count
}

/// What dropping the head of a non-empty queue as late does to it.
pub open spec fn head_dropped(before: VideoFrameQueue, after: VideoFrameQueue) -> bool {
    &&& after.wf()
    &&& after.same_limits(before)
    &&& after.dropped_full_count == before.dropped_full_count
    &&& after.presented_count == before.presented_count
    &&& after.frames() == before.frames().remove(before.head())
    &&& after.dropped_late_count == counted(before.dropped_late_count, 1)
}

/// No frame is lost from sight: every frame that was in the queue before a pop
/// is still in it, was presented, or is counted as dropped late.
pub proof fn pop_accounts_for_every_frame(
    before: VideoFrameQueue,
    after: VideoFrameQueue,
    clock: int,
    next: Option<(FrameAction, VideoFrame)>,
)
    requires
        popped(before, after, clock, next),
        before.dropped_late_count + before.frames().len() <= u64::MAX,
        before.presented_count + before.frames().len() <= u64::MAX,
    ensures
        before.frames().len() == after.frames().len() + (after.dropped_late_count
            - before.dropped_late_count) + (after.presented_count - before.presented_count),
        after.frames().len() <= before.frames().len(),
{
    let left = kept(before.frames(), before.late_limit(clock));
    lemma_kept_len(before.frames(), before.late_limit(clock));
}

/// Frames come out in presentation order: nothing still queued after a frame
/// was presented is earlier than it.
pub proof fn presented_frames_are_in_order(
    before: VideoFrameQueue,
    after: VideoFrameQueue,
    clock: int,
    f: VideoFrame,
    later: VideoFrame,
)
    requires
        popped(before, after, clock, Some((FrameAction::Present, f))),
        after.frames().contains(later),
    ensures
        f.pts_us <= later.pts_us,
{
    let left = kept(before.frames(), before.late_limit(clock));
    assert(left.contains(later));
}

/// A presented frame is within tolerance of the clock.
pub proof fn presented_frames_track_the_clock(
    before: VideoFrameQueue,
    after: VideoFrameQueue,
    clock: int,
    f: VideoFrame,
)
    requires
        popped(before, after, clock, Some((FrameAction::Present, f))),
    ensures
        clock - before.tol_us <= f.pts_us <= clock + before.tol_us,
{
}

impl VideoFrameQueue {
    /// The frames waiting in the queue.
    pub closed spec fn frames(self) -> Multiset<VideoFrame> {
        self.buf@.to_multiset()
    }

    /// The frame the queue offers next, when it holds any.
    pub closed spec fn head(self) -> VideoFrame {
        self.buf@[0]
    }

    /// Whether the queue is in presentation order internally.
    pub closed spec fn wf(self) -> bool {
        is_heap(self.buf@)
    }

    /// Whether the two queues were configured alike.
    pub open spec fn same_limits(self, other: Self) -> bool {
        &&& self.capacity == other.capacity
        &&& self.tol_us == other.tol_us
        &&& self.drop_late_us == other.drop_late_us
    }

    /// The PTS before which `pop` at `clock` discards frames.
    pub open spec fn late_limit(self, clock: int) -> int {
        if clock - self.drop_late_us > clock - self.tol_us {
            clock - self.drop_late_us
        } else {
            clock - self.tol_us
        }
    }

    /// Whether the comparisons that `pop` makes at `clock` stay within `i64`.
    pub open spec fn pop_in_range(self, clock: int) -> bool {
        &&& self.frames().len() > 0 ==> fits_i64(clock - self.drop_late_us)
        &&& kept(self.frames(), clock - self.drop_late_us).len() > 0 ==> fits_i64(
            clock - self.tol_us,
        )
        &&& kept(self.frames(), self.late_limit(clock)).len() > 0 ==> fits_i64(
            clock + self.tol_us,
        )
    }

    /// Create a new queue.
    ///
    /// `tol_us` is the half-frame tolerance passed to [`decide`];
    /// `drop_late_us` controls how far behind the clock a frame must be before
    /// it is dropped; `capacity` caps the number of stored frames.
    pub fn new(capacity: usize, tol_us: i64, drop_late_us: i64) -> (queue: Self)
        ensures
            queue.wf(),
            queue.frames() == Multiset::<VideoFrame>::empty(),
            queue.capacity == capacity,
            queue.tol_us == tol_us,
            queue.drop_late_us == drop_late_us,
            queue.dropped_late_count == 0,
            queue.dropped_full_count == 0,
            queue.presented_count == 0,
    {
        let queue = VideoFrameQueue {
            buf: Vec::new(),
            capacity,
            tol_us,
            drop_late_us,
            dropped_late_count: 0,
            dropped_full_count: 0,
            presented_count: 0,
        };
        proof {
            to_multiset_len(queue.buf@);
        }
        assert(queue.frames() =~= Multiset::<VideoFrame>::empty());
        queue
    }

    /// Number of frames currently in the queue.
    pub fn len(&self) -> (n: usize)
        ensures
            n == self.frames().len(),
    {
        proof {
            to_multiset_len(self.buf@);
        }
        self.buf.len()
    }

    /// Whether the queue is empty.
    pub fn is_empty(&self) -> (empty: bool)
        ensures
            empty == (self.frames().len() == 0),
    {
        proof {
            to_multiset_len(self.buf@);
        }
        self.buf.len() == 0
    }

    /// Whether the queue is at capacity.
    pub fn is_full(&self) -> (full: bool)
        ensures
            full == (self.frames().len() >= self.capacity),
    {
        proof {
            to_multiset_len(self.buf@);
        }
        self.buf.len() >= self.capacity
    }

    /// Push a frame into the queue in PTS order.
    ///
    /// If the queue is full the frame is dropped and counted.
    pub fn push(&mut self, frame: VideoFrame)
        requires
            old(self).wf(),
        ensures
            frame_pushed(*old(self), *final(self), frame),
    {
        proof {
            to_multiset_len(self.buf@);
        }
        if self.buf.len() >= self.capacity {
            self.dropped_full_count = self.dropped_full_count.saturating_add(1);
            return ;
        }
        self.buf.push(frame);
        proof {
            to_multiset_build(old(self).buf@, frame);
        }
        let last: usize = self.buf.len() - 1;
        self.sift_up(last);
    }

    /// Peek at the frame with the smallest PTS without removing it.
    pub fn peek(&self) -> (frame: Option<VideoFrame>)
        requires
            self.wf(),
        ensures
            match frame {
                None => self.frames().len() == 0,
                Some(f) => f == self.head() && earliest(f, self.frames()),
            },
    {
        proof {
            to_multiset_len(self.buf@);
        }
        if self.buf.len() == 0 {
            None
        } else {
            proof {
                lemma_head_is_earliest(self.buf@);
            }
            Some(self.buf[0])
        }
    }

    /// Evaluate the next frame against the audio clock.
    ///
    /// Frames before both the late-drop threshold and the tolerance are
    /// removed and counted. Of what is left, the earliest frame is removed and
    /// presented when it is within tolerance of the clock, and reported as
    /// held, without removing it, when it is still ahead. `None` means that
    /// nothing is left.
    pub fn pop(&mut self, clock_us: i64) -> (next: Option<(FrameAction, VideoFrame)>)
        requires
            old(self).wf(),
            old(self).pop_in_range(clock_us as int),
        ensures
            popped(*old(self), *final(self), clock_us as int, next),
    {
        let ghost all = self.frames();
        let ghost limit = self.late_limit(clock_us as int);
        let ghost soft = clock_us - self.drop_late_us;
        loop
            invariant
                self.wf(),
                self.same_limits(*old(self)),
                all == old(self).frames(),
                limit == self.late_limit(clock_us as int),
                soft == clock_us - self.drop_late_us,
                old(self).pop_in_range(clock_us as int),
                self.dropped_full_count == old(self).dropped_full_count,
                self.presented_count == old(self).presented_count,
                self.frames().len() <= all.len(),
                self.dropped_late_count == counted(
                    old(self).dropped_late_count,
                    all.len() - self.frames().len(),
                ),
                kept(self.frames(), limit) == kept(all, limit),
                kept(self.frames(), soft).subset_of(kept(all, soft)),
                self.frames().len() == all.len() ==> self.buf@ == old(self).buf@ && self.frames()
                    == all,
            decreases self.buf@.len(),
        {
            proof {
                to_multiset_len(self.buf@);
            }
            let head: VideoFrame = match self.peek() {
                Some(h) => h,
                None => {
                    assert(kept(self.frames(), limit) =~= self.frames());
                    return None;
                },
            };
            assert(all.len() > 0);
            if head.pts_us < clock_us - self.drop_late_us {
                proof {
                    lemma_drop_keeps(self.frames(), head, limit);
                    lemma_drop_subset(self.frames(), head, soft);
                }
                let _ = self.pop_head_inner();
                self.dropped_late_count = self.dropped_late_count.saturating_add(1);
                continue ;
            }
            proof {
                assert(kept(self.frames(), soft).count(head) > 0);
                assert(kept(all, soft).count(head) > 0);
                assert(kept(all, soft).len() > 0);
                if head.pts_us >= limit {
                    assert(kept(self.frames(), limit).count(head) > 0);
                    assert(kept(all, limit).len() > 0);
                }
            }
            match decide(head.pts_us, clock_us, self.tol_us) {
                FrameAction::Present => {
                    proof {
                        lemma_all_kept(self.frames(), head, limit);
                    }
                    self.presented_count = self.presented_count.saturating_add(1);
                    let frame: VideoFrame = self.pop_head_inner_unchecked();
                    return Some((FrameAction::Present, frame));
                },
                FrameAction::Drop => {
                    proof {
                        lemma_drop_keeps(self.frames(), head, limit);
                        lemma_drop_subset(self.frames(), head, soft);
                    }
                    self.dropped_late_count = self.dropped_late_count.saturating_add(1);
                    let _ = self.pop_head_inner();
                    continue ;
                },
                FrameAction::Hold => {
                    proof {
                        lemma_all_kept(self.frames(), head, limit);
                    }
                    return Some((FrameAction::Hold, head));
                },
            }
        }
    }

    /// Drain all frames, dropping them as late.
    ///
    /// Returns the number of frames drained.
    pub fn drain(&mut self) -> (n: usize)
        ensures
            n == old(self).frames().len(),
            drained(*old(self), *final(self)),
    {
        proof {
            to_multiset_len(self.buf@);
        }
        let n: usize = self.buf.len();
        self.dropped_late_count = self.dropped_late_count.saturating_add(n as u64);
        self.buf.clear();
        proof {
            to_multiset_len(self.buf@);
        }
        assert(self.frames() =~= Multiset::<VideoFrame>::empty());
        n
    }

    /// Current half-frame tolerance (µs).
    pub fn tol_us(&self) -> (tol_us: i64)
        ensures
            tol_us == self.tol_us,
    {
        self.tol_us
    }

    /// Maximum age behind the clock before forced drop (µs).
    pub fn drop_late_us(&self) -> (drop_late_us: i64)
        ensures
            drop_late_us == self.drop_late_us,
    {
        self.drop_late_us
    }

    /// Set the tolerance for future `pop` calls.
    pub fn set_tol_us(&mut self, tol_us: i64)
        ensures
            final(self).tol_us == tol_us,
            final(self).drop_late_us == old(self).drop_late_us,
            final(self).same_contents(*old(self)),
    {
        self.tol_us = tol_us;
    }

    /// Set the late-drop threshold for future `pop` calls.
    pub fn set_drop_late_us(&mut self, drop_late_us: i64)
        ensures
            final(self).drop_late_us == drop_late_us,
            final(self).tol_us == old(self).tol_us,
            final(self).same_contents(*old(self)),
    {
        self.drop_late_us = drop_late_us;
    }

    /// Whether the two queues hold the same frames, capacity and counters.
    pub open spec fn same_contents(self, other: Self) -> bool {
        &&& self.frames() == other.frames()
        &&& self.head() == other.head()
        &&& self.wf() == other.wf()
        &&& self.capacity == other.capacity
        &&& self.dropped_late_count == other.dropped_late_count
        &&& self.dropped_full_count == other.dropped_full_count
        &&& self.presented_count == other.presented_count
    }

    /// Pop the head frame and return it, counting it as a late drop.
    pub fn pop_head_counted(&mut self) -> (frame: Option<VideoFrame>)
        requires
            old(self).wf(),
        ensures
            match frame {
                None => old(self).frames().len() == 0 && *final(self) == *old(self),
                Some(f) => {
                    &&& f == old(self).head()
                    &&& earliest(f, old(self).frames())
                    &&& head_dropped(*old(self), *final(self))
                },
            },
    {
        let frame: VideoFrame = match self.pop_head_inner() {
            Some(f) => f,
            None => {
                return None;
            },
        };
        self.dropped_late_count = self.dropped_late_count.saturating_add(1);
        Some(frame)
    }

    fn pop_head_inner(&mut self) -> (frame: Option<VideoFrame>)
        requires
            old(self).wf(),
        ensures
            final(self).wf(),
            final(self).same_limits(*old(self)),
            final(self).dropped_late_count == old(self).dropped_late_count,
            final(self).dropped_full_count == old(self).dropped_full_count,
            final(self).presented_count == old(self).presented_count,
            match frame {
                None => old(self).buf@.len() == 0 && old(self).frames().len() == 0 && *final(self)
                    == *old(self),
                Some(f) => {
                    &&& old(self).buf@.len() > 0
                    &&& f == old(self).head()
                    &&& earliest(f, old(self).frames())
                    &&& final(self).frames() == old(self).frames().remove(f)
                    &&& final(self).buf@.len() == old(self).buf@.len() - 1
                },
            },
    {
        if self.buf.len() == 0 {
            proof {
                to_multiset_len(self.buf@);
            }
            return None;
        }
        Some(self.pop_head_inner_unchecked())
    }

    fn pop_head_inner_unchecked(&mut self) -> (head: VideoFrame)
        requires
            old(self).wf(),
            old(self).buf@.len() > 0,
        ensures
            final(self).wf(),
            final(self).same_limits(*old(self)),
            final(self).dropped_late_count == old(self).dropped_late_count,
            final(self).dropped_full_count == old(self).dropped_full_count,
            final(self).presented_count == old(self).presented_count,
            head == old(self).head(),
            earliest(head, old(self).frames()),
            final(self).frames() == old(self).frames().remove(head),
            final(self).buf@.len() == old(self).buf@.len() - 1,
    {
        let ghost before = self.buf@;
        let ghost n = before.len() as int;
        proof {
            lemma_head_is_earliest(before);
        }
        let last: VideoFrame = self.buf[self.buf.len() - 1];
        let _ = self.buf.pop();
        proof {
            to_multiset_remove(before, n - 1);
            assert(before.remove(n - 1) =~= self.buf@);
        }
        if self.buf.len() == 0 {
            return last;
        }
        let head: VideoFrame = self.buf[0];
        proof {
            lemma_update_multiset(self.buf@, 0, last);
            to_multiset_contains(self.buf@, head);
            to_multiset_contains(before, head);
            to_multiset_contains(before, last);
            assert(self.buf@.contains(self.buf@[0]));
            assert(before.contains(before[0]) && before.contains(before[n - 1]));
            assert(self.buf@.update(0, last).to_multiset() =~= before.to_multiset().remove(head));
        }
        self.buf.set(0, last);
        self.sift_down();
        head
    }

    fn swap(&mut self, i: usize, j: usize)
        requires
            i < old(self).buf@.len(),
            j < old(self).buf@.len(),
        ensures
            final(self).buf@ == old(self).buf@.update(i as int, old(self).buf@[j as int]).update(
                j as int,
                old(self).buf@[i as int],
            ),
            final(self).frames() == old(self).frames(),
            final(self).same_limits(*old(self)),
            final(self).dropped_late_count == old(self).dropped_late_count,
            final(self).dropped_full_count == old(self).dropped_full_count,
            final(self).presented_count == old(self).presented_count,
    {
        proof {
            lemma_swap_multiset(self.buf@, i as int, j as int);
        }
        let a: VideoFrame = self.buf[i];
        let b: VideoFrame = self.buf[j];
        self.buf.set(i, b);
        self.buf.set(j, a);
    }

    fn sift_up(&mut self, start: usize)
        requires
            start < old(self).buf@.len(),
            forall|i: int|
                0 < i < old(self).buf@.len() && i != start ==> old(self).buf@[(i - 1) / 2].pts_us
                    <= (#[trigger] old(self).buf@[i]).pts_us,
            start == old(self).buf@.len() - 1,
        ensures
            final(self).wf(),
            final(self).frames() == old(self).frames(),
            final(self).buf@.len() == old(self).buf@.len(),
            final(self).same_limits(*old(self)),
            final(self).dropped_late_count == old(self).dropped_late_count,
            final(self).dropped_full_count == old(self).dropped_full_count,
            final(self).presented_count == old(self).presented_count,
    {
        let mut idx: usize = start;
        while idx > 0
            invariant_except_break
                idx < self.buf@.len(),
                forall|i: int|
                    0 < i < self.buf@.len() && i != idx ==> self.buf@[(i - 1) / 2].pts_us <= (
                    #[trigger] self.buf@[i]).pts_us,
                forall|i: int|
                    0 < i < self.buf@.len() && (i - 1) / 2 == idx && idx > 0 ==> self.buf@[(idx - 1)
                        / 2].pts_us <= (#[trigger] self.buf@[i]).pts_us,
            invariant
                self.frames() == old(self).frames(),
                self.buf@.len() == old(self).buf@.len(),
                self.same_limits(*old(self)),
                self.dropped_late_count == old(self).dropped_late_count,
                self.dropped_full_count == old(self).dropped_full_count,
                self.presented_count == old(self).presented_count,
            ensures
                is_heap(self.buf@),
            decreases idx,
        {
            let parent: usize = (idx - 1) / 2;
            if self.buf[idx].pts_us >= self.buf[parent].pts_us {
                break ;
            }
            self.swap(idx, parent);
            idx = parent;
        }
    }

    fn sift_down(&mut self)
        requires
            forall|i: int|
                0 < i < old(self).buf@.len() && (i - 1) / 2 != 0 ==> old(self).buf@[(i - 1)
                    / 2].pts_us <= (#[trigger] old(self).buf@[i]).pts_us,
        ensures
            final(self).wf(),
            final(self).frames() == old(self).frames(),
            final(self).buf@.len() == old(self).buf@.len(),
            final(self).same_limits(*old(self)),
            final(self).dropped_late_count == old(self).dropped_late_count,
            final(self).dropped_full_count == old(self).dropped_full_count,
            final(self).presented_count == old(self).presented_count,
    {
        let len: usize = self.buf.len();
        let mut idx: usize = 0;
        loop
            invariant_except_break
                forall|i: int|
                    0 < i < self.buf@.len() && (i - 1) / 2 != idx ==> self.buf@[(i - 1) / 2].pts_us
                        <= (#[trigger] self.buf@[i]).pts_us,
                forall|i: int|
                    0 < i < self.buf@.len() && (i - 1) / 2 == idx && idx > 0 ==> self.buf@[(idx - 1)
                        / 2].pts_us <= (#[trigger] self.buf@[i]).pts_us,
            invariant
                len == self.buf@.len(),
                self.frames() == old(self).frames(),
                self.buf@.len() == old(self).buf@.len(),
                self.same_limits(*old(self)),
                self.dropped_late_count == old(self).dropped_late_count,
                self.dropped_full_count == old(self).dropped_full_count,
                self.presented_count == old(self).presented_count,
            ensures
                is_heap(self.buf@),
            decreases len - idx,
        {
            if idx >= len / 2 {
                break ;
            }
            let left: usize = 2 * idx + 1;
            let right: usize = left + 1;
            let mut smallest: usize = left;
            if right < len && self.buf[right].pts_us < self.buf[left].pts_us {
                smallest = right;
            }
            if self.buf[idx].pts_us <= self.buf[smallest].pts_us {
                break ;
            }
            self.swap(idx, smallest);
            idx = smallest;
        }
    }
}

proof fn lemma_kept_len(m: Multiset<VideoFrame>, limit: int)
    ensures
        kept(m, limit).len() <= m.len(),
{
    assert(kept(m, limit).subset_of(m));
    assert(m.sub(kept(m, limit)).add(kept(m, limit)) =~= m);
}

proof fn lemma_drop_keeps(m: Multiset<VideoFrame>, f: VideoFrame, limit: int)
    requires
        m.contains(f),
        f.pts_us < limit,
    ensures
        kept(m.remove(f), limit) == kept(m, limit),
{
    assert(kept(m.remove(f), limit) =~= kept(m, limit));
}

proof fn lemma_all_kept(m: Multiset<VideoFrame>, head: VideoFrame, limit: int)
    requires
        earliest(head, m),
        head.pts_us >= limit,
    ensures
        kept(m, limit) == m,
{
    assert forall|v: VideoFrame| kept(m, limit).count(v) == m.count(v) by {
        if m.count(v) > 0 {
            assert(m.contains(v));
        }
    }
    assert(kept(m, limit) =~= m);
}

proof fn lemma_drop_subset(m: Multiset<VideoFrame>, f: VideoFrame, limit: int)
    requires
        m.contains(f),
    ensures
        kept(m.remove(f), limit).subset_of(kept(m, limit)),
{
}

} // verus!
