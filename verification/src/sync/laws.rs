//! What holds over any sequence of calls to a frame queue or a controller.

use vstd::prelude::*;
use crate::sync::frame_queue::{
    drained, frame_pushed, head_dropped, pop_accounts_for_every_frame, popped, FrameAction,
    VideoFrame, VideoFrameQueue,
};
use crate::sync::sync_controller::{ticked, SyncController};

verus! {

// ---------------------------------------------------------------------------
// The frame queue
// ---------------------------------------------------------------------------

/// A call that changes a frame queue.
pub enum QueueCall {
    Push(VideoFrame),
    /// A pop at a clock time.
    Pop(int),
    PopHead,
    Drain,
    /// A change of the tolerance or of the late-drop threshold.
    Adjust,
}

/// Whether a call takes a queue from one state to another.
pub open spec fn queue_step(
    before: VideoFrameQueue,
    call: QueueCall,
    after: VideoFrameQueue,
) -> bool {
    match call {
        QueueCall::Push(frame) => frame_pushed(before, after, frame),
        QueueCall::Pop(clock) => exists|next: Option<(FrameAction, VideoFrame)>| #[trigger]
            popped(before, after, clock, next),
        QueueCall::PopHead => if before.frames().len() == 0 {
            after == before
        } else {
            before.frames().contains(before.head()) && head_dropped(before, after)
        },
        QueueCall::Drain => drained(before, after),
        QueueCall::Adjust => after.same_contents(before),
    }
}

/// Whether calls take a queue through these states, from the first to the last.
pub open spec fn queue_run(states: Seq<VideoFrameQueue>, calls: Seq<QueueCall>) -> bool {
    &&& states.len() == calls.len() + 1
    &&& forall|i: int|
        0 <= i < calls.len() ==> queue_step(states[i], #[trigger] calls[i], states[i + 1])
}

/// How many frames are pushed.
pub open spec fn pushes(calls: Seq<QueueCall>) -> nat
    decreases calls.len(),
{
    if calls.len() == 0 {
        0
    } else {
        pushes(calls.drop_last()) + if calls.last() is Push {
            1nat
        } else {
            0
        }
    }
}

/// The frames that a queue holds and those that it has counted out.
pub open spec fn accounted(queue: VideoFrameQueue) -> int {
    queue.frames().len() + queue.presented_count + queue.dropped_late_count
        + queue.dropped_full_count
}

proof fn lemma_step_accounts(before: VideoFrameQueue, call: QueueCall, after: VideoFrameQueue)
    requires
        queue_step(before, call, after),
        accounted(before) < u64::MAX || (accounted(before) == u64::MAX && !(call is Push)),
        before.frames().len() <= before.capacity,
    ensures
        accounted(after) == accounted(before) + if call is Push {
            1int
        } else {
            0
        },
        after.frames().len() <= after.capacity,
        after.capacity == before.capacity,
{
    match call {
        QueueCall::Pop(clock) => {
            let next = choose|next: Option<(FrameAction, VideoFrame)>| #[trigger]
                popped(before, after, clock, next);
            lemma_pop_accounts(before, after, clock, next);
        },
        _ => {},
    }
}

proof fn lemma_pop_accounts(
    before: VideoFrameQueue,
    after: VideoFrameQueue,
    clock: int,
    next: Option<(FrameAction, VideoFrame)>,
)
    requires
        popped(before, after, clock, next),
        accounted(before) <= u64::MAX,
    ensures
        accounted(after) == accounted(before),
        after.frames().len() <= before.frames().len(),
{
    pop_accounts_for_every_frame(before, after, clock, next);
}

/// No frame is lost from sight: whatever is done to a queue, each frame that
/// was ever pushed is in it, was presented, or is counted as dropped, either
/// late or because the queue was full. The queue never holds more than its
/// capacity. This is claimed for as many frames as a counter can count.
pub proof fn every_pushed_frame_is_accounted_for(
    states: Seq<VideoFrameQueue>,
    calls: Seq<QueueCall>,
)
    requires
        queue_run(states, calls),
        accounted(states[0]) == 0,
        pushes(calls) <= u64::MAX,
    ensures
        accounted(states.last()) == pushes(calls),
        states.last().frames().len() <= states.last().capacity,
        states.last().capacity == states[0].capacity,
    decreases calls.len(),
{
    if calls.len() > 0 {
        let n = calls.len() - 1;
        let earlier = states.drop_last();
        assert forall|i: int| 0 <= i < n implies queue_step(
            earlier[i],
            #[trigger] calls.drop_last()[i],
            earlier[i + 1],
        ) by {
            assert(queue_step(states[i], calls[i], states[i + 1]));
        }
        every_pushed_frame_is_accounted_for(earlier, calls.drop_last());
        assert(queue_step(states[n], calls[n], states[n + 1]));
        lemma_step_accounts(states[n], calls[n], states[n + 1]);
    }
}

// ---------------------------------------------------------------------------
// The controller
// ---------------------------------------------------------------------------

/// A call that changes a controller.
pub enum SyncCall {
    Tick,
    PushVideo(VideoFrame),
    /// A call that touches the audio clock alone.
    Audio,
}

/// Whether a call takes a controller from one state to another and hands out
/// `next`.
pub open spec fn sync_step(
    before: SyncController,
    call: SyncCall,
    after: SyncController,
    next: Option<(FrameAction, VideoFrame)>,
) -> bool {
    match call {
        SyncCall::Tick => ticked(before, after, next),
        SyncCall::PushVideo(frame) => {
            &&& next is None
            &&& after == (SyncController { queue: after.queue, stalled: false, ..before })
            &&& frame_pushed(before.queue, after.queue, frame)
        },
        SyncCall::Audio => next is None && after == (SyncController { clock: after.clock, ..before }),
    }
}

/// Whether calls take a controller through these states and hand out `handed`.
pub open spec fn sync_run(
    states: Seq<SyncController>,
    calls: Seq<SyncCall>,
    handed: Seq<Option<(FrameAction, VideoFrame)>>,
) -> bool {
    &&& states.len() == calls.len() + 1
    &&& handed.len() == calls.len()
    &&& forall|i: int|
        0 <= i < calls.len() ==> sync_step(states[i], #[trigger] calls[i], states[i + 1], handed[i])
}

/// Whether a frame was dropped to catch up.
pub open spec fn is_drop(next: Option<(FrameAction, VideoFrame)>) -> bool {
    next matches Some((FrameAction::Drop, _))
}

/// How many frames were dropped to catch up.
pub open spec fn burst_drops(handed: Seq<Option<(FrameAction, VideoFrame)>>) -> nat
    decreases handed.len(),
{
    if handed.len() == 0 {
        0
    } else {
        burst_drops(handed.drop_last()) + if is_drop(handed.last()) {
            1nat
        } else {
            0
        }
    }
}

/// How many frames a controller may still drop as long as its clock stands.
spec fn drops_left(controller: SyncController) -> int {
    if controller.burst_drop_count == 0 && controller.in_cooldown() {
        0
    } else {
        controller.catch_up.max_burst_drops - controller.burst_drop_count
    }
}

/// A tick drops a frame to catch up only if that frame is the one offered next
/// and more than the threshold behind the audio clock. It counts as dropped
/// late.
pub proof fn only_late_frames_are_dropped(
    before: SyncController,
    after: SyncController,
    frame: VideoFrame,
)
    requires
        ticked(before, after, Some((FrameAction::Drop, frame))),
    ensures
        frame == before.queue.head(),
        before.clock.time_us() - frame.pts_us > before.catch_up.behind_threshold_us,
        head_dropped(before.queue, after.queue),
{
}

/// While the audio clock stands still, however often a controller is ticked and
/// whatever frames come in between, at most `max_burst_drops` frames are
/// dropped to catch up.
pub proof fn catch_up_is_limited_while_the_clock_stands(
    states: Seq<SyncController>,
    calls: Seq<SyncCall>,
    handed: Seq<Option<(FrameAction, VideoFrame)>>,
    now: int,
)
    requires
        sync_run(states, calls, handed),
        forall|i: int| 0 <= i < states.len() ==> (#[trigger] states[i]).clock.time_us() == now,
        now > i64::MIN,
        states[0].catch_up.burst_cooldown_us > 0,
        states[0].burst_drop_count <= states[0].catch_up.max_burst_drops,
    ensures
        burst_drops(handed) <= states[0].catch_up.max_burst_drops,
{
    lemma_drops_left(states, calls, handed, now);
}

proof fn lemma_drops_left(
    states: Seq<SyncController>,
    calls: Seq<SyncCall>,
    handed: Seq<Option<(FrameAction, VideoFrame)>>,
    now: int,
)
    requires
        sync_run(states, calls, handed),
        forall|i: int| 0 <= i < states.len() ==> (#[trigger] states[i]).clock.time_us() == now,
        now > i64::MIN,
        states[0].catch_up.burst_cooldown_us > 0,
        states[0].burst_drop_count <= states[0].catch_up.max_burst_drops,
    ensures
        burst_drops(handed) + drops_left(states.last()) <= drops_left(states[0]),
        drops_left(states.last()) >= 0,
        states.last().catch_up == states[0].catch_up,
        states.last().burst_drop_count <= states.last().catch_up.max_burst_drops,
    decreases calls.len(),
{
    if calls.len() > 0 {
        let n = calls.len() - 1;
        lemma_run_before(states, calls, handed);
        assert forall|i: int| 0 <= i < states.drop_last().len() implies (
        #[trigger] states.drop_last()[i]).clock.time_us() == now by {
            assert(states[i].clock.time_us() == now);
        }
        lemma_drops_left(states.drop_last(), calls.drop_last(), handed.drop_last(), now);
        assert(sync_step(states[n], calls[n], states[n + 1], handed[n]));
        assert(states[n].clock.time_us() == now);
        assert(states[n + 1].clock.time_us() == now);
    }
}

proof fn lemma_run_before(
    states: Seq<SyncController>,
    calls: Seq<SyncCall>,
    handed: Seq<Option<(FrameAction, VideoFrame)>>,
)
    requires
        sync_run(states, calls, handed),
        calls.len() > 0,
    ensures
        sync_run(states.drop_last(), calls.drop_last(), handed.drop_last()),
{
    assert forall|i: int| 0 <= i < calls.drop_last().len() implies sync_step(
        states.drop_last()[i],
        #[trigger] calls.drop_last()[i],
        states.drop_last()[i + 1],
        handed.drop_last()[i],
    ) by {
        assert(sync_step(states[i], calls[i], states[i + 1], handed[i]));
    }
}

/// After a burst has ended, no frame is dropped to catch up as long as the
/// audio clock is less than the cooldown past the end of that burst, however
/// often the controller is ticked and whatever comes in between.
pub proof fn cooldown_holds_off_bursts_over_any_calls(
    states: Seq<SyncController>,
    calls: Seq<SyncCall>,
    handed: Seq<Option<(FrameAction, VideoFrame)>>,
)
    requires
        sync_run(states, calls, handed),
        states[0].burst_drop_count == 0,
        states[0].last_burst_end_clock_us > i64::MIN,
        forall|i: int|
            0 <= i < states.len() ==> (#[trigger] states[i]).clock.time_us()
                - states[0].last_burst_end_clock_us < states[0].catch_up.burst_cooldown_us,
    ensures
        burst_drops(handed) == 0,
        states.last().burst_drop_count == 0,
        states.last().last_burst_end_clock_us == states[0].last_burst_end_clock_us,
        states.last().catch_up == states[0].catch_up,
    decreases calls.len(),
{
    if calls.len() > 0 {
        let n = calls.len() - 1;
        lemma_run_before(states, calls, handed);
        assert forall|i: int| 0 <= i < states.drop_last().len() implies (
        #[trigger] states.drop_last()[i]).clock.time_us()
            - states.drop_last()[0].last_burst_end_clock_us
            < states.drop_last()[0].catch_up.burst_cooldown_us by {
            assert(states.drop_last()[i] == states[i]);
        }
        cooldown_holds_off_bursts_over_any_calls(
            states.drop_last(),
            calls.drop_last(),
            handed.drop_last(),
        );
        assert(sync_step(states[n], calls[n], states[n + 1], handed[n]));
        assert(states[n].clock.time_us() - states[0].last_burst_end_clock_us
            < states[0].catch_up.burst_cooldown_us);
        assert(states.drop_last().last() == states[n]);
    }
}

} // verus!
