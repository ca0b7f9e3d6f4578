//! What a session hands to its segmenter, and what comes of it.

use vstd::prelude::*;
use crate::hls::playlist::{
    all_segment_lines, appended, bumped, empty_store, find_segment, playlist_text, rolled_off,
    segment_lines, segment_name, stored_all, windowed, ConfigView, StoreView, StoredView,
};
use crate::hls::segmenter::{
    all_shown, can_push, can_segment, cut_on_finish, cut_on_push, hls_on_finish, hls_on_push,
    limit_held, limit_of, CutView, HlsCall, HlsHistory, MAX_TRACKS,
};
use crate::hls::session::{
    buffered, built, closed_session, first_rap, pushed_all, session_run, session_step,
    SegmenterView, SessionView, MAX_PREBUFFER_SAMPLES,
};
use crate::text::{decimal_reads_back, decimal_text, decimal_value};
use crate::ts::demux::{identity_held, Discontinuity, EventView, SampleView};
use crate::ts::tick_budget::tick_limit;
use crate::ts::track::{meta_of, TrackView};

verus! {

// ---------------------------------------------------------------------------
// Samples
// ---------------------------------------------------------------------------

/// The calls that push these samples, one for each.
pub open spec fn pushes_of(samples: Seq<(u32, SampleView)>) -> Seq<HlsCall> {
    samples.map_values(|s: (u32, SampleView)| HlsCall::Push(s.0, s.1))
}

/// The samples that were pushed in a list of calls, in order.
pub open spec fn samples_in(calls: Seq<HlsCall>) -> Seq<(u32, SampleView)>
    decreases calls.len(),
{
    if calls.len() == 0 {
        Seq::empty()
    } else {
        let before = samples_in(calls.drop_last());
        match calls.last() {
            HlsCall::Push(track_id, sample) => before.push((track_id, sample)),
            _ => before,
        }
    }
}

/// The samples among events, in order.
pub open spec fn event_samples(events: Seq<EventView>) -> Seq<(u32, SampleView)>
    decreases events.len(),
{
    if events.len() == 0 {
        Seq::empty()
    } else {
        let before = event_samples(events.drop_last());
        match events.last() {
            EventView::Sample { track_id, sample } => before.push((track_id, sample)),
            _ => before,
        }
    }
}

/// Once there is a segmenter, each sample of each track is handed to it, behind
/// what it was given before and exactly as it came, or counted as an error.
/// It is handed over wherever it fits.
pub proof fn every_sample_is_pushed_or_counted(
    session: SessionView,
    segmenter: SegmenterView,
    track_id: u32,
    sample: SampleView,
)
    requires
        session.segmenter == Some(segmenter),
    ensures
        session_step(session, EventView::Sample { track_id, sample }).segmenter matches Some(after)
            && {
            let next = session_step(session, EventView::Sample { track_id, sample });
            let given = segmenter.history.calls.push(HlsCall::Push(track_id, sample));
            &&& after.history.tracks == segmenter.history.tracks
            &&& can_push(segmenter.history, track_id, sample) ==> after.history.calls == given
            &&& after.history.calls == given || (after.history.calls == segmenter.history.calls
                && next.segmenter_errors == bumped(session.segmenter_errors))
        },
{
}

/// A sample of a track that the segmenter knows, whatever the kind of the
/// track, fits where the track was given none before: its times may be any
/// that are no more than 2^62 from zero.
pub proof fn first_samples_fit(
    history: HlsHistory,
    track_id: u32,
    sample: SampleView,
    i: int,
)
    requires
        0 <= i < history.tracks.len(),
        identity_held(history.tracks[i]).track_id == track_id,
        history.calls.len() == 0,
        sample.dts matches Some(dts) ==> -0x4000_0000_0000_0000 <= dts <= 0x3fff_ffff_ffff_ffff,
        sample.pts matches Some(pts) ==> -0x4000_0000_0000_0000 <= pts <= 0x3fff_ffff_ffff_ffff,
    ensures
        can_push(history, track_id, sample),
{
    lemma_limit(history.tracks, track_id, i);
}

proof fn lemma_limit(tracks: Seq<transmux::ir::TrackSpec>, track_id: u32, i: int)
    requires
        0 <= i < tracks.len(),
        identity_held(tracks[i]).track_id == track_id,
    ensures
        limit_of(tracks, track_id) matches Some(limit) && limit >= 0x1_0000_0000,
    decreases tracks.len(),
{
    assert(forall|timescale: u32| #[trigger] tick_limit(timescale) >= 0x1_0000_0000) by {
        assert forall|timescale: u32| #[trigger] tick_limit(timescale) >= 0x1_0000_0000 by {
            let rate = crate::ts::tick_budget::tick_rate(timescale);
            assert(rate * 683_000_000_000 >= 683_000_000_000) by (nonlinear_arith)
                requires
                    rate >= 1,
            ;
        }
    }
    if limit_held(tracks.last()).0 != track_id {
        assert(i < tracks.len() - 1);
        assert(tracks.drop_last()[i] == tracks[i]);
        lemma_limit(tracks.drop_last(), track_id, i);
    }
}

/// Over any events, what the segmenter is given is the samples of the events:
/// all of them, of every track, in order, unless an error is counted.
pub proof fn pushes_are_the_samples_of_the_events(
    session: SessionView,
    segmenter: SegmenterView,
    events: Seq<EventView>,
)
    requires
        session.segmenter == Some(segmenter),
        session.segmenter_errors < u64::MAX,
        session_run(session, events).segmenter_errors == session.segmenter_errors,
    ensures
        session_run(session, events).segmenter matches Some(after) && samples_in(
            after.history.calls,
        ) == samples_in(segmenter.history.calls) + event_samples(events),
    decreases events.len(),
{
    if events.len() == 0 {
        assert(samples_in(segmenter.history.calls) + event_samples(events) =~= samples_in(
            segmenter.history.calls,
        ));
    } else {
        let earlier = events.drop_last();
        let before = session_run(session, earlier);
        lemma_run_last(session, events);
        lemma_errors_grow(session, earlier);
        lemma_step_errors_grow(before, events.last());
        pushes_are_the_samples_of_the_events(session, segmenter, earlier);
        let given = before.segmenter->0.history.calls;
        let next = session_step(before, events.last());
        let after = next.segmenter->0.history.calls;
        if after.len() > given.len() {
            assert(after.drop_last() =~= given);
        }
        match events.last() {
            EventView::Sample { track_id, sample } => {
                every_sample_is_pushed_or_counted(
                    before,
                    before.segmenter->0,
                    track_id,
                    sample,
                );
                assert(samples_in(after) =~= samples_in(segmenter.history.calls) + event_samples(
                    events,
                ));
            },
            _ => {
                assert(samples_in(after) == samples_in(given));
            },
        }
    }
}

proof fn lemma_run_last(session: SessionView, events: Seq<EventView>)
    requires
        events.len() > 0,
    ensures
        session_run(session, events) == session_step(
            session_run(session, events.drop_last()),
            events.last(),
        ),
    decreases events.len(),
{
    if events.len() == 1 {
        assert(events.drop_last() =~= Seq::empty());
        assert(events.drop_first() =~= Seq::empty());
        reveal_with_fuel(session_run, 2);
    } else {
        let next = session_step(session, events[0]);
        lemma_run_last(next, events.drop_first());
        assert(events.drop_last().drop_first() =~= events.drop_first().drop_last());
        assert(events.drop_last()[0] == events[0]);
        assert(events.drop_first().last() == events.last());
    }
}

proof fn lemma_pushed_all_errors(session: SessionView, samples: Seq<(u32, SampleView)>)
    ensures
        pushed_all(session, samples).segmenter_errors >= session.segmenter_errors,
    decreases samples.len(),
{
    if samples.len() > 0 {
        lemma_pushed_all_errors(session, samples.drop_last());
    }
}

proof fn lemma_built_errors(session: SessionView)
    ensures
        built(session).segmenter_errors >= session.segmenter_errors,
        session.segmenter is Some ==> built(session) == session,
{
    if let Some(video) = session.video_track_id {
        if let Some(rap) = first_rap(session.buffer, video, 0) {
            let tracks = session.tracks.map_values(|t: TrackView| t.source);
            let start = SessionView {
                segmenter: Some(
                    SegmenterView {
                        history: HlsHistory {
                            target_secs: session.cfg.target_secs,
                            window: crate::hls::session::segmenter_window(session.cfg),
                            tracks,
                            calls: Seq::empty(),
                        },
                        ready: Seq::empty(),
                    },
                ),
                buffer: Seq::empty(),
                ..session
            };
            lemma_pushed_all_errors(start, session.buffer.skip(rap));
        }
    }
}

proof fn lemma_step_errors_grow(session: SessionView, event: EventView)
    ensures
        session_step(session, event).segmenter_errors >= session.segmenter_errors,
        session.segmenter is Some ==> session_step(session, event).segmenter is Some,
{
    match event {
        EventView::Sample { track_id, sample } => {
            lemma_built_errors(buffered(session, track_id, sample));
        },
        EventView::TracksResolved { .. } => {
            lemma_built_errors(SessionView { tracks_resolved: true, ..session });
        },
        _ => {},
    }
}

proof fn lemma_errors_grow(session: SessionView, events: Seq<EventView>)
    ensures
        session_run(session, events).segmenter_errors >= session.segmenter_errors,
    decreases events.len(),
{
    if events.len() > 0 {
        lemma_step_errors_grow(session, events[0]);
        lemma_errors_grow(session_step(session, events[0]), events.drop_first());
    }
}

/// Before there is a segmenter, samples wait in the order in which they come,
/// whatever their track, until the buffer is full.
pub proof fn samples_wait_in_order(session: SessionView, track_id: u32, sample: SampleView)
    requires
        !session.buffer_capped,
        session.buffer.len() + 1 < 2 * MAX_PREBUFFER_SAMPLES,
    ensures
        buffered(session, track_id, sample).buffer == session.buffer.push((track_id, sample)),
        buffered(session, track_id, sample).buffer_capped == (session.buffer.len() + 1
            >= MAX_PREBUFFER_SAMPLES),
        buffered(session, track_id, sample).tracks == session.tracks,
{
}

/// Once the buffer is full only samples of the video track go on waiting, at
/// the end; where twice as many would wait, the oldest goes.
pub proof fn full_buffers_wait_for_video(session: SessionView, track_id: u32, sample: SampleView)
    requires
        session.buffer_capped,
        session.buffer.len() < 2 * MAX_PREBUFFER_SAMPLES,
    ensures
        ({
            let after = buffered(session, track_id, sample);
            &&& session.video_track_id != Some(track_id) ==> after.buffer == session.buffer
            &&& session.video_track_id == Some(track_id) && session.buffer.len() + 1 < 2
                * MAX_PREBUFFER_SAMPLES ==> after.buffer == session.buffer.push((track_id, sample))
            &&& session.video_track_id == Some(track_id) && session.buffer.len() + 1 == 2
                * MAX_PREBUFFER_SAMPLES ==> after.buffer == session.buffer.drop_first().push(
                (track_id, sample),
            )
            &&& after.buffer_capped
        }),
{
    let grown = session.buffer.push((track_id, sample));
    if session.buffer.len() > 0 {
        assert(grown.drop_first() =~= session.buffer.drop_first().push((track_id, sample)));
    }
}

proof fn lemma_all_pushed(
    session: SessionView,
    segmenter: SegmenterView,
    samples: Seq<(u32, SampleView)>,
)
    requires
        session.segmenter == Some(segmenter),
        session.segmenter_errors < u64::MAX,
        pushed_all(session, samples).segmenter_errors == session.segmenter_errors,
    ensures
        pushed_all(session, samples).segmenter matches Some(after) && after.history.calls
            == segmenter.history.calls + pushes_of(samples) && after.history.tracks
            == segmenter.history.tracks && after.history.target_secs
            == segmenter.history.target_secs && after.history.window == segmenter.history.window,
    decreases samples.len(),
{
    if samples.len() == 0 {
        assert(segmenter.history.calls + pushes_of(samples) =~= segmenter.history.calls);
    } else {
        let earlier = samples.drop_last();
        lemma_pushed_all_errors(session, earlier);
        let before = pushed_all(session, earlier);
        assert(pushed_all(session, samples).segmenter_errors >= before.segmenter_errors);
        lemma_all_pushed(session, segmenter, earlier);
        assert(segmenter.history.calls + pushes_of(samples) =~= (segmenter.history.calls
            + pushes_of(earlier)).push(HlsCall::Push(samples.last().0, samples.last().1)));
    }
}

/// When the segmenter is made it is made for all the tracks that were announced,
/// with the target and the window of the configuration (at least one segment,
/// and six where there is no window), and is given all the
/// samples that wait from the first random access point of the video track on,
/// of every track and in order, unless an error is counted. None is left
/// waiting.
pub proof fn building_pushes_all_that_waits(session: SessionView, video: u32, rap: int)
    requires
        session.segmenter is None,
        session.tracks_resolved || session.buffer_capped,
        session.tracks.len() > 0,
        session.tracks.len() <= MAX_TRACKS,
        session.video_track_id == Some(video),
        can_segment(session.tracks.map_values(|t: TrackView| t.source)),
        0 <= rap < session.buffer.len(),
        session.buffer[rap].0 == video,
        session.buffer[rap].1.is_sync,
        forall|j: int|
            0 <= j < rap ==> !((#[trigger] session.buffer[j]).0 == video
                && session.buffer[j].1.is_sync),
        session.segmenter_errors < u64::MAX,
        built(session).segmenter_errors == session.segmenter_errors,
    ensures
        built(session).segmenter matches Some(segmenter) && {
            &&& segmenter.history.calls == pushes_of(session.buffer.skip(rap))
            &&& segmenter.history.tracks == session.tracks.map_values(|t: TrackView| t.source)
            &&& segmenter.history.target_secs == session.cfg.target_secs
            &&& session.cfg.window matches Some(window) ==> (window > 0
                ==> segmenter.history.window == window) && (window == 0
                ==> segmenter.history.window == 1)
            &&& session.cfg.window is None ==> segmenter.history.window == 6
            &&& built(session).buffer.len() == 0
        },
{
    lemma_rap(session.buffer, video, 0, rap);
    let tracks = session.tracks.map_values(|t: TrackView| t.source);
    let fresh = SegmenterView {
        history: HlsHistory {
            target_secs: session.cfg.target_secs,
            window: crate::hls::session::segmenter_window(session.cfg),
            tracks,
            calls: Seq::empty(),
        },
        ready: Seq::empty(),
    };
    let start = SessionView { segmenter: Some(fresh), buffer: Seq::empty(), ..session };
    lemma_all_pushed(start, fresh, session.buffer.skip(rap));
    assert(fresh.history.calls + pushes_of(session.buffer.skip(rap)) =~= pushes_of(
        session.buffer.skip(rap),
    ));
    lemma_pushed_all_buffer(start, session.buffer.skip(rap));
}

proof fn lemma_pushed_all_buffer(session: SessionView, samples: Seq<(u32, SampleView)>)
    ensures
        pushed_all(session, samples).buffer == session.buffer,
    decreases samples.len(),
{
    if samples.len() > 0 {
        lemma_pushed_all_buffer(session, samples.drop_last());
    }
}

proof fn lemma_rap(buffer: Seq<(u32, SampleView)>, video: u32, from: int, rap: int)
    requires
        0 <= from <= rap < buffer.len(),
        buffer[rap].0 == video,
        buffer[rap].1.is_sync,
        forall|j: int|
            0 <= j < rap ==> !((#[trigger] buffer[j]).0 == video && buffer[j].1.is_sync),
    ensures
        first_rap(buffer, video, from) == Some(rap),
    decreases rap - from,
{
    if from < rap {
        assert(!(buffer[from].0 == video && buffer[from].1.is_sync));
        lemma_rap(buffer, video, from + 1, rap);
    }
}

// ---------------------------------------------------------------------------
// Tracks and interruptions
// ---------------------------------------------------------------------------

/// Each announced track is noted once, and is handed to the segmenter: with the
/// others when it is made, or at once where there is one. A track that the
/// segmenter cannot take is counted as an error. The first video track is the
/// one that segments start at.
pub proof fn announced_tracks_are_segmented(session: SessionView, track: TrackView)
    ensures
        ({
            let after = session_step(session, EventView::TrackAdded(track));
            &&& session.known_track_ids.contains(track.track_id) ==> after == session
            &&& !session.known_track_ids.contains(track.track_id) ==> {
                &&& after.known_track_ids == session.known_track_ids.push(track.track_id)
                &&& session.video_track_id is Some ==> after.video_track_id
                    == session.video_track_id
                &&& session.video_track_id is None ==> after.video_track_id == if meta_of(
                    track,
                ).kind is Video {
                    Some(track.track_id)
                } else {
                    None
                }
                &&& session.segmenter is None ==> after.tracks == session.tracks.push(track)
                &&& session.segmenter matches Some(segmenter) ==> (after.segmenter matches Some(
                    next,
                ) && (segmenter.history.tracks.len() < MAX_TRACKS && !segmenter.history.knows(
                    identity_held(track.source).track_id,
                ) ==> next.history.tracks == segmenter.history.tracks.push(track.source)
                    && after.segmenter_errors == session.segmenter_errors))
                &&& session.segmenter matches Some(segmenter) ==> (after.segmenter matches Some(
                    next,
                ) && (segmenter.history.tracks.len() >= MAX_TRACKS || segmenter.history.knows(
                    identity_held(track.source).track_id,
                ) ==> next.history.tracks == segmenter.history.tracks && (
                session.segmenter_errors < u64::MAX ==> after.segmenter_errors
                    == session.segmenter_errors + 1)))
            }
        }),
{
}

/// A gap in the stream is marked in the segmenter at once; a re-anchored
/// timeline is counted and never marked.
pub proof fn gaps_are_marked(session: SessionView, segmenter: SegmenterView, kind: Discontinuity)
    requires
        session.segmenter == Some(segmenter),
    ensures
        ({
            let after = session_step(session, EventView::Discontinuity(kind));
            &&& kind == Discontinuity::TimelineReanchored ==> after.segmenter == session.segmenter
                && after.timeline_reanchors == bumped(session.timeline_reanchors)
            &&& kind != Discontinuity::TimelineReanchored ==> (after.segmenter matches Some(next)
                && next.history.calls == segmenter.history.calls.push(HlsCall::MarkDiscontinuity)
                && after.timeline_reanchors == session.timeline_reanchors)
            &&& after.store == session.store
        }),
{
}

// ---------------------------------------------------------------------------
// Segments
// ---------------------------------------------------------------------------

/// The segments of a store behind its first `n`.
pub open spec fn added(store: StoreView, n: nat, cuts: Seq<CutView>) -> bool {
    &&& store.segments.len() == n + cuts.len()
    &&& forall|i: int|
        0 <= i < cuts.len() ==> (#[trigger] store.segments[n + i]).bytes == cuts[i].bytes
            && store.segments[n + i].duration == cuts[i].duration && store.segments[n
            + i].discontinuous == cuts[i].discontinuous
}

proof fn lemma_vod_adds(cfg: ConfigView, store: StoreView, cuts: Seq<CutView>)
    requires
        cfg.window is None,
    ensures
        added(stored_all(store, cfg, cuts), store.segments.len(), cuts),
        stored_all(store, cfg, cuts).segments.take(store.segments.len() as int) == store.segments,
    decreases cuts.len(),
{
    let n = store.segments.len();
    let after = stored_all(store, cfg, cuts);
    if cuts.len() == 0 {
        assert(store.segments.take(n as int) =~= store.segments);
    } else {
        let before = stored_all(store, cfg, cuts.drop_last());
        lemma_vod_adds(cfg, store, cuts.drop_last());
        assert(after.segments.take(n as int) =~= before.segments.take(n as int));
        assert forall|i: int| 0 <= i < cuts.len() implies (#[trigger] after.segments[n + i]).bytes
            == cuts[i].bytes && after.segments[n + i].duration == cuts[i].duration
            && after.segments[n + i].discontinuous == cuts[i].discontinuous by {
            if i < cuts.len() - 1 {
                assert(after.segments[n + i] == before.segments[n + i]);
                assert(before.segments[n + i].bytes == cuts.drop_last()[i].bytes);
            }
        }
    }
}

/// Every segment that the segmenter cuts is served: in a VOD session the
/// segments that a sample closes, and those that the end of the input closes,
/// stand behind those before them, in order, with their bytes, durations and
/// marks. Nothing is left behind in the segmenter.
pub proof fn every_cut_segment_is_served(
    session: SessionView,
    segmenter: SegmenterView,
    track_id: u32,
    sample: SampleView,
)
    requires
        session.segmenter == Some(segmenter),
        segmenter.ready.len() == 0,
        session.cfg.window is None,
    ensures
        ({
            let after = session_step(session, EventView::Sample { track_id, sample });
            let n = session.store.segments.len();
            &&& can_push(segmenter.history, track_id, sample) ==> added(
                after.store,
                n,
                all_shown(hls_on_push(segmenter.history, track_id, sample).1),
            )
            &&& after.store.segments.take(n as int) == session.store.segments
            &&& after.segmenter matches Some(next) && next.ready.len() == 0
        }),
        ({
            let after = closed_session(session);
            let n = session.store.segments.len();
            &&& added(after.store, n, all_shown(hls_on_finish(segmenter.history).1))
            &&& after.store.segments.take(n as int) == session.store.segments
            &&& after.segmenter matches Some(next) && next.ready.len() == 0 && next.history.calls
                == segmenter.history.calls.push(HlsCall::Finish)
            &&& after.segmenter_errors == if hls_on_finish(segmenter.history).0 {
                session.segmenter_errors
            } else {
                bumped(session.segmenter_errors)
            }
        }),
{
    let push = cut_on_push(segmenter.history, track_id, sample).1;
    let end = cut_on_finish(segmenter.history).1;
    assert(segmenter.ready + push =~= push);
    assert(segmenter.ready + end =~= end);
    assert(segmenter.ready =~= Seq::empty());
    lemma_vod_adds(session.cfg, session.store, push);
    lemma_vod_adds(session.cfg, session.store, end);
    lemma_vod_adds(session.cfg, session.store, segmenter.ready);
}

/// A segment is named by the prefix, its number in decimal, and `.ts`.
pub proof fn segments_are_named_by_number(cfg: ConfigView, number: nat)
    ensures
        ({
            let name = segment_name(cfg, number);
            let p = cfg.uri_prefix.len() as int;
            &&& name.len() > p + 3
            &&& name.take(p) == cfg.uri_prefix
            &&& name.skip(name.len() - 3) == ".ts"@
            &&& decimal_value(name.subrange(p, name.len() - 3)) == number
        }),
{
    reveal_strlit(".ts");
    let name = segment_name(cfg, number);
    let p = cfg.uri_prefix.len() as int;
    decimal_reads_back(number);
    assert(name.take(p) =~= cfg.uri_prefix);
    assert(name.skip(name.len() - 3) =~= ".ts"@);
    assert(name.subrange(p, name.len() - 3) =~= decimal_text(number));
    assert(decimal_text(number).len() > 0);
}

/// The segments of a list are listed in its order: those of its first part come
/// before those of the rest.
pub proof fn segments_are_listed_in_order(first: Seq<StoredView>, rest: Seq<StoredView>)
    ensures
        all_segment_lines(first + rest) == all_segment_lines(first) + all_segment_lines(rest),
        first.len() == 0 ==> all_segment_lines(first).len() == 0,
        first.len() == 1 ==> all_segment_lines(first) == segment_lines(first[0]),
    decreases rest.len(),
{
    if rest.len() == 0 {
        assert(first + rest =~= first);
        assert(all_segment_lines(first) + all_segment_lines(rest) =~= all_segment_lines(first));
    } else {
        assert((first + rest).drop_last() =~= first + rest.drop_last());
        segments_are_listed_in_order(first, rest.drop_last());
        assert(all_segment_lines(first + rest) =~= all_segment_lines(first) + all_segment_lines(
            rest,
        ));
    }
    if first.len() == 1 {
        reveal_with_fuel(all_segment_lines, 2);
        assert(first.drop_last() =~= Seq::empty());
        assert(all_segment_lines(first) =~= segment_lines(first[0]));
    }
}

/// The target duration is the longest there was: that of the configuration or
/// that of a segment, and no less than any of them, rounded up.
pub proof fn target_is_the_longest_duration(cfg: ConfigView, cuts: Seq<CutView>)
    ensures
        ({
            let target = stored_all(empty_store(cfg), cfg, cuts).target_duration;
            &&& target >= cfg.target_secs
            &&& forall|i: int| 0 <= i < cuts.len() ==> target >= (#[trigger] cuts[i]).ceil_secs
            &&& target == cfg.target_secs || exists|i: int|
                0 <= i < cuts.len() && target == (#[trigger] cuts[i]).ceil_secs
        }),
    decreases cuts.len(),
{
    if cuts.len() > 0 {
        let earlier = cuts.drop_last();
        target_is_the_longest_duration(cfg, earlier);
        let before = stored_all(empty_store(cfg), cfg, earlier);
        let grown = appended(before, cfg, cuts.last());
        if let Some(window) = cfg.window {
            lemma_windowed_target(grown, window as nat);
        }
        let target = stored_all(empty_store(cfg), cfg, cuts).target_duration;
        assert(cuts[cuts.len() - 1] == cuts.last());
        assert forall|i: int| 0 <= i < cuts.len() implies target >= (
        #[trigger] cuts[i]).ceil_secs by {
            if i < earlier.len() {
                assert(earlier[i] == cuts[i]);
            }
        }
        if target != cfg.target_secs && target != cuts.last().ceil_secs {
            let i = choose|i: int|
                0 <= i < earlier.len() && target == (#[trigger] earlier[i]).ceil_secs;
            assert(cuts[i].ceil_secs == target);
        }
    }
}

proof fn lemma_windowed_target(store: StoreView, window: nat)
    ensures
        windowed(store, window).target_duration == store.target_duration,
    decreases store.segments.len(),
{
    if store.segments.len() > window {
        lemma_windowed_target(rolled_off(store), window);
    }
}

/// Only a segment of the name that is asked for is served, and there is one
/// wherever the name is held.
pub proof fn only_named_segments_are_served(segments: Seq<StoredView>, name: Seq<char>)
    ensures
        match find_segment(segments, name) {
            Some(segment) => segment.name == name && segments.contains(segment),
            None => forall|i: int|
                0 <= i < segments.len() ==> (#[trigger] segments[i]).name != name,
        },
    decreases segments.len(),
{
    if segments.len() > 0 {
        let rest = segments.drop_first();
        if segments[0].name == name {
            assert(segments.contains(segments[0]));
        } else {
            only_named_segments_are_served(rest, name);
            match find_segment(rest, name) {
                Some(segment) => {
                    let i = choose|i: int| 0 <= i < rest.len() && rest[i] == segment;
                    assert(segments[i + 1] == segment);
                },
                None => {
                    assert forall|i: int| 0 <= i < segments.len() implies (
                    #[trigger] segments[i]).name != name by {
                        if i > 0 {
                            assert(rest[i - 1] == segments[i]);
                        }
                    }
                },
            }
        }
    }
}

/// A counter goes up by one, until it is at the top of its range.
pub proof fn counters_count_by_one(n: u64)
    ensures
        n < u64::MAX ==> bumped(n) == n + 1,
        n == u64::MAX ==> bumped(n) == n,
{
}

/// A playlist begins with its mark and its version, gives the target duration,
/// which is at least one, and the number of its first segment, each behind its
/// tag in decimal and in a line of its own; then come the segments.
pub proof fn playlists_begin_with_their_numbers(cfg: ConfigView, store: StoreView, finished: bool)
    ensures
        ({
            let target = if store.target_duration == 0 {
                1nat
            } else {
                store.target_duration as nat
            };
            let text = playlist_text(cfg, store, finished);
            let head = "#EXTM3U\n#EXT-X-VERSION:3\n"@ + "#EXT-X-TARGETDURATION:"@ + decimal_text(
                target,
            ) + "\n"@ + "#EXT-X-MEDIA-SEQUENCE:"@ + decimal_text(store.media_sequence as nat)
                + "\n"@;
            &&& text.len() >= head.len()
            &&& text.take(head.len() as int) == head
            &&& cfg.window is Some && store.discontinuity_sequence > 0 ==> {
                let more = head + "#EXT-X-DISCONTINUITY-SEQUENCE:"@ + decimal_text(
                    store.discontinuity_sequence as nat,
                ) + "\n"@;
                text.len() >= more.len() && text.take(more.len() as int) == more
            }
        }),
{
    let target = if store.target_duration == 0 {
        1nat
    } else {
        store.target_duration as nat
    };
    let text = playlist_text(cfg, store, finished);
    let head = "#EXTM3U\n#EXT-X-VERSION:3\n"@ + "#EXT-X-TARGETDURATION:"@ + decimal_text(target)
        + "\n"@ + "#EXT-X-MEDIA-SEQUENCE:"@ + decimal_text(store.media_sequence as nat) + "\n"@;
    assert(text.take(head.len() as int) =~= head);
    if cfg.window is Some && store.discontinuity_sequence > 0 {
        let more = head + "#EXT-X-DISCONTINUITY-SEQUENCE:"@ + decimal_text(
            store.discontinuity_sequence as nat,
        ) + "\n"@;
        assert(text.take(more.len() as int) =~= more);
    }
}

/// A segment is listed by its duration and then its name, each in a line, with
/// a line before them where it is discontinuous.
pub proof fn segments_are_listed_in_two_lines(segment: StoredView)
    ensures
        !segment.discontinuous ==> segment_lines(segment) == "#EXTINF:"@ + segment.duration
            + ",\n"@ + segment.name + "\n"@,
        segment.discontinuous ==> segment_lines(segment) == "#EXT-X-DISCONTINUITY\n"@
            + "#EXTINF:"@ + segment.duration + ",\n"@ + segment.name + "\n"@,
{
    assert(Seq::<char>::empty() + "#EXTINF:"@ =~= "#EXTINF:"@);
}

} // verus!
