//! A session: from transport stream bytes to segments and a playlist.

use std::sync::Arc;
use vstd::prelude::*;
use crate::hls::playlist::{
    bumped, committing_keeps_the_store_valid, empty_store, empty_store_is_valid, find_segment,
    playlist_text, store_valid, stored_all, write_playlist, ConfigView, HlsConfig, SegmentStore,
    StoreView,
};
use crate::hls::segmenter::{
    can_push, can_segment, cut_on_finish, cut_on_push, sources, with_track_in_limit, CutSegment,
    CutView, HlsCall, HlsHistory, HlsSegmenter, MAX_TRACKS,
};
use crate::ts::codec::TrackKind;
use crate::ts::demux::{
    codec_held, events_of, events_on_feed, events_on_finish, identity_held, raised_by_feed,
    raised_by_finish, track_of, DemuxEvent, Discontinuity, EventView, MediaSample, RawEvent,
    SampleView, TsDemux,
};
use crate::ts::track::{meta_of, track_meta, Codec, StreamTrack, TrackMeta, TrackView};

verus! {

/// Upper bound on samples buffered while waiting for the first video random
/// access point and for every track to resolve; prevents unbounded growth on a
/// stream that never resolves.
pub const MAX_PREBUFFER_SAMPLES: usize = 4096;

/// A segmenter as a mathematical value: what it has taken and what it holds
/// ready.
pub struct SegmenterView {
    pub history: HlsHistory,
    pub ready: Seq<CutView>,
}

/// A session as a mathematical value.
pub struct SessionView {
    pub cfg: ConfigView,
    pub segmenter: Option<SegmenterView>,
    /// Tracks collected before the segmenter is built, in arrival order.
    pub tracks: Seq<TrackView>,
    pub known_track_ids: Seq<u32>,
    pub video_track_id: Option<u32>,
    pub tracks_resolved: bool,
    /// Samples buffered before the segmenter is built, in arrival order.
    pub buffer: Seq<(u32, SampleView)>,
    pub buffer_capped: bool,
    pub store: StoreView,
    pub finished: bool,
    pub segmenter_errors: u64,
    pub timeline_reanchors: u64,
}

/// A session that was given nothing.
pub open spec fn new_session(cfg: ConfigView) -> SessionView {
    SessionView {
        cfg,
        segmenter: None,
        tracks: Seq::empty(),
        known_track_ids: Seq::empty(),
        video_track_id: None,
        tracks_resolved: false,
        buffer: Seq::empty(),
        buffer_capped: false,
        store: empty_store(cfg),
        finished: false,
        segmenter_errors: 0,
        timeline_reanchors: 0,
    }
}

/// A session whose segmenter took a call: what it cut is committed, and a
/// failed call is counted.
pub open spec fn after_call(
    session: SessionView,
    segmenter: SegmenterView,
    call: HlsCall,
    answer: (bool, Seq<CutView>),
) -> SessionView {
    SessionView {
        segmenter: Some(
            SegmenterView { history: segmenter.history.then_call(call), ready: Seq::empty() },
        ),
        segmenter_errors: if answer.0 {
            session.segmenter_errors
        } else {
            bumped(session.segmenter_errors)
        },
        store: stored_all(session.store, session.cfg, segmenter.ready + answer.1),
        ..session
    }
}

/// A session after a sample went to the segmenter, if there is one. A sample
/// that does not fit behind those before it counts as a failure.
pub open spec fn pushed(session: SessionView, track_id: u32, sample: SampleView) -> SessionView {
    match session.segmenter {
        None => session,
        Some(segmenter) => if can_push(segmenter.history, track_id, sample) {
            after_call(
                session,
                segmenter,
                HlsCall::Push(track_id, sample),
                cut_on_push(segmenter.history, track_id, sample),
            )
        } else {
            SessionView {
                segmenter: Some(SegmenterView { ready: Seq::empty(), ..segmenter }),
                segmenter_errors: bumped(session.segmenter_errors),
                store: stored_all(session.store, session.cfg, segmenter.ready),
                ..session
            }
        },
    }
}

/// A session after several samples went to the segmenter, in order.
pub open spec fn pushed_all(session: SessionView, samples: Seq<(u32, SampleView)>) -> SessionView
    decreases samples.len(),
{
    if samples.len() == 0 {
        session
    } else {
        pushed(pushed_all(session, samples.drop_last()), samples.last().0, samples.last().1)
    }
}

/// The first buffered sample, from `from` on, at which decoding of the video
/// track can start.
pub open spec fn first_rap(buffer: Seq<(u32, SampleView)>, video: u32, from: int) -> Option<int>
    decreases buffer.len() - from,
{
    if from < 0 || from >= buffer.len() {
        None
    } else if buffer[from].0 == video && buffer[from].1.is_sync {
        Some(from)
    } else {
        first_rap(buffer, video, from + 1)
    }
}

/// The playlist window that the segmenter is made with.
pub open spec fn segmenter_window(cfg: ConfigView) -> usize {
    match cfg.window {
        Some(window) => if window == 0 {
            1
        } else {
            window
        },
        None => 6,
    }
}

/// A session after it tried to build its segmenter.
///
/// That takes tracks, no more than [`MAX_TRACKS`], of which one is video, a buffered sample of it to start
/// at, and either that all tracks are resolved or that the buffer is capped.
/// What was buffered before that sample is dropped, and the rest goes to the
/// segmenter.
pub open spec fn built(session: SessionView) -> SessionView {
    if session.segmenter is Some || session.tracks.len() == 0 || (!session.tracks_resolved
        && !session.buffer_capped) {
        session
    } else {
        match session.video_track_id {
            None => session,
            Some(video) => match first_rap(session.buffer, video, 0) {
                None => session,
                Some(rap) => {
                    let tracks = session.tracks.map_values(|t: TrackView| t.source);
                    if can_segment(tracks) && tracks.len() <= MAX_TRACKS {
                        pushed_all(
                            SessionView {
                                segmenter: Some(
                                    SegmenterView {
                                        history: HlsHistory {
                                            target_secs: session.cfg.target_secs,
                                            window: segmenter_window(session.cfg),
                                            tracks,
                                            calls: Seq::empty(),
                                        },
                                        ready: Seq::empty(),
                                    },
                                ),
                                buffer: Seq::empty(),
                                ..session
                            },
                            session.buffer.skip(rap),
                        )
                    } else {
                        session
                    }
                },
            },
        }
    }
}

/// A session after a sample was buffered.
///
/// Once the buffer is capped only video samples are kept, so that a late
/// random access point can still build the segmenter; a buffer of twice that
/// size loses its oldest sample.
pub open spec fn buffered(session: SessionView, track_id: u32, sample: SampleView) -> SessionView {
    let grown = session.buffer.push((track_id, sample));
    let buffer = if !session.buffer_capped || session.video_track_id == Some(track_id) {
        if grown.len() >= 2 * MAX_PREBUFFER_SAMPLES {
            grown.drop_first()
        } else {
            grown
        }
    } else {
        session.buffer
    };
    SessionView {
        buffer,
        buffer_capped: session.buffer_capped || buffer.len() >= MAX_PREBUFFER_SAMPLES,
        ..session
    }
}

/// A session after a track was announced. A repeated announcement changes
/// nothing.
pub open spec fn with_new_track(session: SessionView, track: TrackView) -> SessionView {
    if session.known_track_ids.contains(track.track_id) {
        session
    } else {
        let noted = SessionView {
            known_track_ids: session.known_track_ids.push(track.track_id),
            video_track_id: if session.video_track_id is None && meta_of(
                track,
            ).kind is Video {
                Some(track.track_id)
            } else {
                session.video_track_id
            },
            ..session
        };
        match session.segmenter {
            None => SessionView { tracks: session.tracks.push(track), ..noted },
            Some(segmenter) => SessionView {
                segmenter: Some(
                    SegmenterView {
                        history: with_track_in_limit(segmenter.history, track.source),
                        ..segmenter
                    },
                ),
                segmenter_errors: if segmenter.history.tracks.len() >= MAX_TRACKS
                    || segmenter.history.knows(identity_held(track.source).track_id) {
                    bumped(session.segmenter_errors)
                } else {
                    session.segmenter_errors
                },
                ..noted
            },
        }
    }
}

/// A session whose next segment is marked discontinuous, if there is a
/// segmenter.
pub open spec fn with_discontinuity(session: SessionView) -> SessionView {
    match session.segmenter {
        None => session,
        Some(segmenter) => SessionView {
            segmenter: Some(
                SegmenterView {
                    history: segmenter.history.then_call(HlsCall::MarkDiscontinuity),
                    ..segmenter
                },
            ),
            ..session
        },
    }
}

/// A session after an event.
pub open spec fn session_step(session: SessionView, event: EventView) -> SessionView {
    match event {
        EventView::TrackAdded(track) => with_new_track(session, track),
        EventView::Sample { track_id, sample } => if session.segmenter is Some {
            pushed(session, track_id, sample)
        } else {
            built(buffered(session, track_id, sample))
        },
        EventView::TracksResolved { .. } => built(SessionView { tracks_resolved: true, ..session }),
        EventView::Discontinuity(kind) => if kind == Discontinuity::TimelineReanchored {
            SessionView { timeline_reanchors: bumped(session.timeline_reanchors), ..session }
        } else {
            with_discontinuity(session)
        },
        _ => session,
    }
}

/// A session after several events, in order.
pub open spec fn session_run(session: SessionView, events: Seq<EventView>) -> SessionView
    decreases events.len(),
{
    if events.len() == 0 {
        session
    } else {
        session_run(session_step(session, events[0]), events.drop_first())
    }
}

/// A session after its segmenter was told that the input ended.
pub open spec fn closed_session(session: SessionView) -> SessionView {
    match session.segmenter {
        None => session,
        Some(segmenter) => after_call(
            session,
            segmenter,
            HlsCall::Finish,
            cut_on_finish(segmenter.history),
        ),
    }
}

/// Incremental HLS-of-TS session: feed transport stream bytes, take the
/// playlist and the segments.
pub struct HlsSession {
    cfg: HlsConfig,
    demux: TsDemux,
    seg: Option<HlsSegmenter>,
    pending_specs: Vec<StreamTrack>,
    known_track_ids: Vec<u32>,
    video_track_id: Option<u32>,
    tracks_resolved: bool,
    buffer: Vec<(u32, MediaSample)>,
    buffer_capped: bool,
    store: SegmentStore,
    finished: bool,
    segmenter_error_count: u64,
    timeline_reanchor_count: u64,
}

/// Samples as mathematical values.
pub open spec fn sample_views(buffer: Seq<(u32, MediaSample)>) -> Seq<(u32, SampleView)> {
    buffer.map_values(|s: (u32, MediaSample)| (s.0, s.1.view()))
}

/// Tracks as mathematical values.
pub open spec fn track_views(tracks: Seq<StreamTrack>) -> Seq<TrackView> {
    tracks.map_values(|t: StreamTrack| t.view())
}

impl HlsSession {
    pub closed spec fn view(&self) -> SessionView {
        SessionView {
            cfg: self.cfg.view(),
            segmenter: match self.seg {
                Some(seg) => Some(
                    SegmenterView { history: seg.history(), ready: seg.ready() },
                ),
                None => None,
            },
            tracks: track_views(self.pending_specs@),
            known_track_ids: self.known_track_ids@,
            video_track_id: self.video_track_id,
            tracks_resolved: self.tracks_resolved,
            buffer: sample_views(self.buffer@),
            buffer_capped: self.buffer_capped,
            store: self.store.view(),
            finished: self.finished,
            segmenter_errors: self.segmenter_error_count,
            timeline_reanchors: self.timeline_reanchor_count,
        }
    }

    /// What the session's demuxer has been given so far.
    pub closed spec fn input(&self) -> Seq<Option<Seq<u8>>> {
        self.demux.input()
    }

    /// Events that the demuxer still holds. None are left between calls.
    pub closed spec fn pending(&self) -> Seq<EventView> {
        self.demux.pending()
    }

    /// Create a session.
    #[must_use]
    pub fn new(cfg: HlsConfig) -> (session: Self)
        ensures
            session.view() == new_session(cfg.view()),
            session.input() == Seq::<Option<Seq<u8>>>::empty(),
            session.pending() == Seq::<EventView>::empty(),
    {
        let store = SegmentStore::new(&cfg);
        let session = HlsSession {
            cfg,
            demux: TsDemux::new(),
            seg: None,
            pending_specs: Vec::new(),
            known_track_ids: Vec::new(),
            video_track_id: None,
            tracks_resolved: false,
            buffer: Vec::new(),
            buffer_capped: false,
            store,
            finished: false,
            segmenter_error_count: 0,
            timeline_reanchor_count: 0,
        };
        assert(session.view().tracks =~= Seq::empty());
        assert(session.view().buffer =~= Seq::empty());
        assert(session.view().known_track_ids =~= Seq::empty());
        session
    }

    /// Whether there is a segment to serve.
    #[must_use]
    pub fn is_ready(&self) -> (ready: bool)
        ensures
            ready == (self.view().store.segments.len() > 0),
    {
        self.store.segments.len() > 0
    }

    /// Number of segmenter failures since the session was made.
    #[must_use]
    pub fn segmenter_error_count(&self) -> (count: u64)
        ensures
            count == self.view().segmenter_errors,
    {
        self.segmenter_error_count
    }

    /// Number of re-anchored audio timelines since the session was made; the
    /// segmenter is not marked discontinuous for these.
    #[must_use]
    pub fn timeline_reanchor_count(&self) -> (count: u64)
        ensures
            count == self.view().timeline_reanchors,
    {
        self.timeline_reanchor_count
    }

    /// The bytes of a retained segment.
    #[must_use]
    pub fn segment(&self, name: &str) -> (bytes: Option<Arc<Vec<u8>>>)
        ensures
            match bytes {
                Some(b) => find_segment(self.view().store.segments, name@) matches Some(s) && b@
                    == s.bytes,
                None => find_segment(self.view().store.segments, name@) is None,
            },
    {
        self.store.segment(name)
    }

    /// The playlist over the retained segments.
    #[must_use]
    pub fn playlist(&self) -> (text: String)
        ensures
            text@ == playlist_text(self.view().cfg, self.view().store, self.view().finished),
    {
        write_playlist(&self.cfg, &self.store, self.finished)
    }

    fn take_cut(&mut self)
        ensures
            match old(self).seg {
                None => *final(self) == *old(self),
                Some(seg) => final(self).view() == (SessionView {
                    segmenter: Some(
                        SegmenterView { history: seg.history(), ready: Seq::empty() },
                    ),
                    store: stored_all(old(self).view().store, old(self).view().cfg, seg.ready()),
                    ..old(self).view()
                }) && final(self).seg is Some && final(self).demux == old(self).demux,
            },
    {
        if let Some(seg) = self.seg.take() {
            let (seg, cut) = seg.take_ready();
            let cut: Vec<CutSegment> = cut;
            self.store.store_all(&self.cfg, cut);
            self.seg = Some(seg);
        }
    }

    fn push_sample(&mut self, track_id: u32, sample: &MediaSample)
        ensures
            final(self).view() == pushed(old(self).view(), track_id, sample.view()),
            final(self).demux == old(self).demux,
    {
        if let Some(seg) = self.seg.take() {
            let (seg, accepted) = seg.push(track_id, sample);
            if !accepted {
                self.segmenter_error_count = self.segmenter_error_count.saturating_add(1);
            }
            self.seg = Some(seg);
            self.take_cut();
        }
    }

    fn try_build(&mut self)
        ensures
            final(self).view() == built(old(self).view()),
            final(self).demux == old(self).demux,
    {
        if self.seg.is_some() || self.pending_specs.len() == 0 {
            return;
        }
        if !self.tracks_resolved && !self.buffer_capped {
            return;
        }
        let video: u32 = match self.video_track_id {
            Some(video) => video,
            None => {
                return;
            },
        };
        let ghost views = sample_views(self.buffer@);
        let mut rap: usize = 0;
        while rap < self.buffer.len() && !(self.buffer[rap].0 == video
            && self.buffer[rap].1.is_sync)
            invariant
                rap <= self.buffer@.len(),
                views == sample_views(self.buffer@),
                first_rap(views, video, 0) == first_rap(views, video, rap as int),
                *self == *old(self),
            decreases self.buffer@.len() - rap,
        {
            rap = rap + 1;
        }
        if rap >= self.buffer.len() {
            return;
        }
        let window: usize = match self.cfg.window {
            Some(window) => if window == 0 {
                1
            } else {
                window
            },
            None => 6,
        };
        proof {
            assert(sources(self.pending_specs@) =~= track_views(self.pending_specs@).map_values(
                |t: TrackView| t.source,
            ));
        }
        match HlsSegmenter::new(&self.pending_specs, self.cfg.target_secs, window) {
            Some(seg) => {
                self.seg = Some(seg);
            },
            None => {
                return;
            },
        }
        let mut replay: Vec<(u32, MediaSample)> = Vec::new();
        std::mem::swap(&mut self.buffer, &mut replay);
        let ghost start = self.view();
        let ghost tail = views.skip(rap as int);
        assert(start.buffer =~= Seq::empty());
        let mut i: usize = rap;
        assert(tail.take(0) =~= Seq::<(u32, SampleView)>::empty());
        while i < replay.len()
            invariant
                rap <= i <= replay@.len(),
                views == sample_views(replay@),
                tail == views.skip(rap as int),
                self.view() == pushed_all(start, tail.take(i - rap)),
                self.demux == old(self).demux,
            decreases replay@.len() - i,
        {
            let (track_id, sample) = &replay[i];
            self.push_sample(*track_id, sample);
            proof {
                assert(tail.take(i - rap + 1).drop_last() =~= tail.take(i - rap));
                assert(tail.take(i - rap + 1).last() == (replay@[i as int].0, replay@[i as int].1.view()));
            }
            i = i + 1;
        }
        assert(tail.take(i - rap) =~= tail);
    }

    fn add_track(&mut self, track: StreamTrack)
        ensures
            final(self).view() == with_new_track(old(self).view(), track.view()),
            final(self).demux == old(self).demux,
    {
        let tid: u32 = track.track_id;
        let mut i: usize = 0;
        while i < self.known_track_ids.len()
            invariant
                i <= self.known_track_ids@.len(),
                *self == *old(self),
                tid == track.track_id,
                forall|j: int| 0 <= j < i ==> self.known_track_ids@[j] != tid,
            decreases self.known_track_ids@.len() - i,
        {
            if self.known_track_ids[i] == tid {
                assert(self.view().known_track_ids.contains(tid)) by {
                    assert(self.known_track_ids@[i as int] == tid);
                }
                return;
            }
            i = i + 1;
        }
        assert(!self.known_track_ids@.contains(tid));
        self.known_track_ids.push(tid);
        let meta: TrackMeta = track_meta(&track);
        if self.video_track_id.is_none() {
            if let TrackKind::Video(_) = meta.kind {
                self.video_track_id = Some(tid);
            }
        }
        match self.seg.take() {
            None => {
                self.pending_specs.push(track);
                assert(track_views(self.pending_specs@) =~= track_views(old(self).pending_specs@).push(track.view()));
            },
            Some(seg) => {
                let (seg, added) = seg.add_track(&track);
                if !added {
                    self.segmenter_error_count = self.segmenter_error_count.saturating_add(1);
                }
                self.seg = Some(seg);
            },
        }
    }

    fn buffer_sample(&mut self, track_id: u32, sample: MediaSample)
        ensures
            final(self).view() == buffered(old(self).view(), track_id, sample.view()),
            final(self).demux == old(self).demux,
    {
        let is_video: bool = match self.video_track_id {
            Some(video) => video == track_id,
            None => false,
        };
        if !self.buffer_capped || is_video {
            self.buffer.push((track_id, sample));
            proof {
                assert(sample_views(self.buffer@) =~= sample_views(old(self).buffer@).push((track_id, sample.view())));
            }
            if self.buffer.len() >= MAX_PREBUFFER_SAMPLES * 2 {
                let ghost grown = self.buffer@;
                let _oldest: (u32, MediaSample) = self.buffer.remove(0);
                assert(sample_views(self.buffer@) =~= sample_views(grown).drop_first());
            }
        }
        if !self.buffer_capped && self.buffer.len() >= MAX_PREBUFFER_SAMPLES {
            self.buffer_capped = true;
        }
    }

    fn mark_discontinuity(&mut self)
        ensures
            final(self).view() == with_discontinuity(old(self).view()),
            final(self).demux == old(self).demux,
    {
        if let Some(seg) = self.seg.take() {
            self.seg = Some(seg.mark_discontinuity());
        }
    }

    /// Take one event of the stream, as [`feed`](Self::feed) does with each
    /// event that the bytes raise.
    pub fn on_event(&mut self, event: DemuxEvent)
        ensures
            final(self).view() == session_step(old(self).view(), event.view()),
            final(self).input() == old(self).input(),
            final(self).pending() == old(self).pending(),
    {
        match event {
            DemuxEvent::TrackAdded(track) => {
                self.add_track(track);
            },
            DemuxEvent::Sample { track_id, sample } => {
                if self.seg.is_some() {
                    self.push_sample(track_id, &sample);
                } else {
                    self.buffer_sample(track_id, sample);
                    self.try_build();
                }
            },
            DemuxEvent::TracksResolved { .. } => {
                self.tracks_resolved = true;
                self.try_build();
            },
            DemuxEvent::Discontinuity(kind) => {
                match kind {
                    // The timestamps that reach the segmenter are corrected
                    // already, and marking every wobble of the audio clock
                    // would fragment the playlist.
                    Discontinuity::TimelineReanchored => {
                        self.timeline_reanchor_count = self.timeline_reanchor_count.saturating_add(
                            1,
                        );
                    },
                    // A splice, lost data, or a cause that may be either.
                    Discontinuity::Signalled | Discontinuity::BudgetExceeded { .. }
                    | Discontinuity::Unknown => {
                        self.mark_discontinuity();
                    },
                }
            },
            // A removed or abandoned track just stops producing samples.
            _ => {},
        }
    }

    fn drain_events(&mut self)
        ensures
            final(self).view() == session_run(old(self).view(), old(self).pending()),
            final(self).pending() == Seq::<EventView>::empty(),
            final(self).input() == old(self).input(),
    {
        let ghost end = session_run(self.view(), self.pending());
        loop
            invariant_except_break
                session_run(self.view(), self.pending()) == end,
            invariant
                self.input() == old(self).input(),
                end == session_run(old(self).view(), old(self).pending()),
            ensures
                self.view() == end,
                self.pending() == Seq::<EventView>::empty(),
            decreases self.pending().len(),
        {
            let ghost before = self.view();
            let polled: Option<DemuxEvent> = self.demux.poll_event();
            assert(self.view() == before);
            match polled {
                Some(event) => {
                    self.on_event(event);
                },
                None => {
                    assert(self.pending() =~= Seq::empty());
                    break ;
                },
            }
        }
    }

    /// Feed raw transport stream bytes.
    pub fn feed(&mut self, data: &[u8])
        ensures
            final(self).view() == session_run(
                old(self).view(),
                old(self).pending() + events_on_feed(old(self).input(), data@),
            ),
            final(self).input() == old(self).input().push(Some(data@)),
            final(self).pending() == Seq::<EventView>::empty(),
    {
        self.demux.feed(data);
        self.drain_events();
    }

    /// End the input: flush the demuxer and the segmenter.
    pub fn finish(&mut self)
        ensures
            final(self).view() == closed_session(
                session_run(
                    SessionView { finished: true, ..old(self).view() },
                    old(self).pending() + events_on_finish(old(self).input()),
                ),
            ),
            final(self).input() == old(self).input().push(None),
            final(self).pending() == Seq::<EventView>::empty(),
    {
        self.finished = true;
        self.demux.finish();
        assert(self.view() == (SessionView { finished: true, ..old(self).view() }));
        self.drain_events();
        if let Some(seg) = self.seg.take() {
            let (seg, closed) = seg.finish();
            if !closed {
                self.segmenter_error_count = self.segmenter_error_count.saturating_add(1);
            }
            self.seg = Some(seg);
            self.take_cut();
        }
    }
}

// ---------------------------------------------------------------------------
// What holds of every session
// ---------------------------------------------------------------------------

/// Whether an event can come from a demuxer: a track's fields are those of the
/// track behind it.
pub open spec fn genuine(event: EventView) -> bool {
    event matches EventView::TrackAdded(track) ==> track == track_of(track.source)
}

/// What holds of the tracks that a session collects: they are genuine, none is
/// collected twice, and the video track is among them.
pub open spec fn tracks_valid(session: SessionView) -> bool {
    &&& session.known_track_ids.len() == session.tracks.len()
    &&& forall|i: int|
        #![trigger session.tracks[i]]
        0 <= i < session.tracks.len() ==> session.tracks[i] == track_of(session.tracks[i].source)
            && session.known_track_ids[i] == session.tracks[i].track_id
    &&& session.known_track_ids.no_duplicates()
    &&& match session.video_track_id {
        Some(video) => exists|i: int|
            0 <= i < session.tracks.len() && (#[trigger] session.tracks[i]).track_id == video && (
            session.tracks[i].codec is Avc || session.tracks[i].codec is Hevc),
        None => true,
    }
}

/// What holds of every session.
pub open spec fn session_valid(session: SessionView) -> bool {
    &&& store_valid(session.cfg, session.store)
    &&& session.buffer.len() < 2 * MAX_PREBUFFER_SAMPLES
    &&& match session.segmenter {
        None => tracks_valid(session) && session.store == empty_store(session.cfg),
        Some(segmenter) => segmenter.ready == Seq::<CutView>::empty() && session.buffer.len() == 0,
    }
}

/// The demuxer raises genuine events only.
pub proof fn demuxed_events_are_genuine(raw: Seq<RawEvent>, at: int)
    requires
        0 <= at < raw.len(),
    ensures
        genuine(events_of(raw)[at]),
{
}

/// A new session is valid.
pub proof fn new_session_is_valid(cfg: ConfigView)
    ensures
        session_valid(new_session(cfg)),
{
    empty_store_is_valid(cfg);
}

proof fn lemma_pushed_all(session: SessionView, samples: Seq<(u32, SampleView)>)
    requires
        session_valid(session),
        session.segmenter is Some,
    ensures
        session_valid(pushed_all(session, samples)),
        pushed_all(session, samples).segmenter is Some,
        pushed_all(session, samples).cfg == session.cfg,
        pushed_all(session, samples).store.target_duration >= session.store.target_duration,
        pushed_all(session, samples).store.media_sequence >= session.store.media_sequence,
    decreases samples.len(),
{
    if samples.len() > 0 {
        let before = pushed_all(session, samples.drop_last());
        lemma_pushed_all(session, samples.drop_last());
        if let Some(segmenter) = before.segmenter {
            let answer = cut_on_push(segmenter.history, samples.last().0, samples.last().1);
            committing_keeps_the_store_valid(
                before.cfg,
                before.store,
                segmenter.ready + answer.1,
            );
            committing_keeps_the_store_valid(before.cfg, before.store, segmenter.ready);
        }
    }
}

/// The segmenter of a session with no more than [`MAX_TRACKS`] tracks can always
/// be made once the session has what it takes: a video track, a sample of it to start at, and either every track
/// resolved or a full buffer. Nothing is buffered from there on.
pub proof fn segmenter_is_built_as_soon_as_possible(session: SessionView)
    requires
        session_valid(session),
        session.segmenter is None,
        session.tracks.len() <= MAX_TRACKS,
        session.tracks_resolved || session.buffer_capped,
        session.video_track_id is Some,
        first_rap(session.buffer, session.video_track_id->0, 0) is Some,
    ensures
        built(session).segmenter is Some,
        built(session).buffer.len() == 0,
        session_valid(built(session)),
{
    let tracks = session.tracks.map_values(|t: TrackView| t.source);
    assert forall|i: int, j: int| 0 <= i < j < tracks.len() implies (
    #[trigger] identity_held(tracks[i])).track_id != (#[trigger] identity_held(
        tracks[j],
    )).track_id by {
        assert(session.tracks[i] == track_of(session.tracks[i].source));
        assert(session.tracks[j] == track_of(session.tracks[j].source));
    }
    let video = session.video_track_id->0;
    let i = choose|i: int|
        0 <= i < session.tracks.len() && (#[trigger] session.tracks[i]).track_id == video && (
        session.tracks[i].codec is Avc || session.tracks[i].codec is Hevc);
    assert(session.tracks[i] == track_of(session.tracks[i].source));
    assert(codec_held(tracks[i]) != (Codec::Data { sections: true }));
    assert(can_segment(tracks));
    lemma_first_rap(session.buffer, video, 0);
    let rap = first_rap(session.buffer, video, 0)->0;
    let start = SessionView {
        segmenter: Some(
            SegmenterView {
                history: HlsHistory {
                    target_secs: session.cfg.target_secs,
                    window: segmenter_window(session.cfg),
                    tracks,
                    calls: Seq::empty(),
                },
                ready: Seq::empty(),
            },
        ),
        buffer: Seq::empty(),
        ..session
    };
    lemma_pushed_all(start, session.buffer.skip(rap));
}

proof fn lemma_first_rap(buffer: Seq<(u32, SampleView)>, video: u32, from: int)
    requires
        0 <= from,
    ensures
        first_rap(buffer, video, from) matches Some(rap) ==> from <= rap < buffer.len()
            && buffer[rap].0 == video && buffer[rap].1.is_sync,
    decreases buffer.len() - from,
{
    if from < buffer.len() && !(buffer[from].0 == video && buffer[from].1.is_sync) {
        lemma_first_rap(buffer, video, from + 1);
    }
}

/// The first sample that the segmenter is given is a sync sample of the video
/// track.
pub proof fn segments_start_at_a_random_access_point(session: SessionView)
    requires
        session.segmenter is None,
        session.video_track_id is Some,
        first_rap(session.buffer, session.video_track_id->0, 0) is Some,
    ensures
        ({
            let kept = session.buffer.skip(
                first_rap(session.buffer, session.video_track_id->0, 0)->0,
            );
            &&& kept.len() > 0
            &&& kept[0].0 == session.video_track_id->0
            &&& kept[0].1.is_sync
        }),
{
    lemma_first_rap(session.buffer, session.video_track_id->0, 0);
}

proof fn lemma_built_valid(session: SessionView)
    requires
        session_valid(session),
    ensures
        session_valid(built(session)),
        built(session).cfg == session.cfg,
        built(session).store.target_duration >= session.store.target_duration,
        built(session).store.media_sequence >= session.store.media_sequence,
{
    if session.segmenter is None && session.tracks.len() <= MAX_TRACKS && (session.tracks_resolved
        || session.buffer_capped) && session.video_track_id is Some && first_rap(
        session.buffer,
        session.video_track_id->0,
        0,
    ) is Some {
        segmenter_is_built_as_soon_as_possible(session);
        let tracks = session.tracks.map_values(|t: TrackView| t.source);
        let start = SessionView {
            segmenter: Some(
                SegmenterView {
                    history: HlsHistory {
                        target_secs: session.cfg.target_secs,
                        window: segmenter_window(session.cfg),
                        tracks,
                        calls: Seq::empty(),
                    },
                    ready: Seq::empty(),
                },
            ),
            buffer: Seq::empty(),
            ..session
        };
        lemma_pushed_all(
            start,
            session.buffer.skip(first_rap(session.buffer, session.video_track_id->0, 0)->0),
        );
    }
}

proof fn lemma_new_track_valid(session: SessionView, track: TrackView)
    requires
        session_valid(session),
        track == track_of(track.source),
    ensures
        session_valid(with_new_track(session, track)),
        with_new_track(session, track).cfg == session.cfg,
        with_new_track(session, track).store == session.store,
{
    let next = with_new_track(session, track);
    if session.segmenter is None && !session.known_track_ids.contains(track.track_id) {
        assert forall|i: int| #![trigger next.tracks[i]] 0 <= i < next.tracks.len() implies
            next.tracks[i] == track_of(next.tracks[i].source) && next.known_track_ids[i]
            == next.tracks[i].track_id by {
            if i < session.tracks.len() {
                assert(next.tracks[i] == session.tracks[i]);
            }
        }
        assert forall|i: int, j: int|
            0 <= i < next.known_track_ids.len() && 0 <= j < next.known_track_ids.len() && i
                != j implies next.known_track_ids[i] != next.known_track_ids[j] by {
            let n = session.known_track_ids.len() as int;
            if i == n {
                assert(session.known_track_ids.contains(session.known_track_ids[j]));
            } else if j == n {
                assert(session.known_track_ids.contains(session.known_track_ids[i]));
            }
        }
        match session.video_track_id {
            Some(video) => {
                let i = choose|i: int|
                    0 <= i < session.tracks.len() && (#[trigger] session.tracks[i]).track_id
                        == video && (session.tracks[i].codec is Avc
                        || session.tracks[i].codec is Hevc);
                assert(next.tracks[i] == session.tracks[i]);
            },
            None => {
                let n = session.tracks.len() as int;
                assert(next.tracks[n] == track);
            },
        }
    }
}

/// Every event that the demuxer can raise keeps a session valid: in
/// particular the buffer stays bounded, a rolling playlist stays within its
/// window, and nothing that was cut is left behind in the segmenter. The
/// numbers in the playlist head never go down.
pub proof fn events_keep_the_session_valid(session: SessionView, events: Seq<EventView>)
    requires
        session_valid(session),
        forall|i: int| 0 <= i < events.len() ==> genuine(#[trigger] events[i]),
    ensures
        session_valid(session_run(session, events)),
        session_run(session, events).cfg == session.cfg,
        session_run(session, events).store.target_duration >= session.store.target_duration,
        session_run(session, events).store.media_sequence >= session.store.media_sequence,
    decreases events.len(),
{
    if events.len() > 0 {
        let event = events[0];
        assert(genuine(event));
        match event {
            EventView::TrackAdded(track) => {
                lemma_new_track_valid(session, track);
            },
            EventView::Sample { track_id, sample } => {
                if session.segmenter is Some {
                    let one = seq![(track_id, sample)];
                    lemma_pushed_all(session, one);
                    assert(one.drop_last() =~= Seq::empty());
                    assert(pushed_all(session, one.drop_last()) == session);
                } else {
                    let next = buffered(session, track_id, sample);
                    assert(tracks_valid(next));
                    lemma_built_valid(next);
                }
            },
            EventView::TracksResolved { .. } => {
                let next = SessionView { tracks_resolved: true, ..session };
                assert(session.segmenter is None ==> tracks_valid(next));
                lemma_built_valid(next);
            },
            _ => {},
        }
        let next = session_step(session, event);
        assert(session_valid(next));
        let rest = events.drop_first();
        assert forall|i: int| 0 <= i < rest.len() implies genuine(#[trigger] rest[i]) by {
            assert(rest[i] == events[i + 1]);
        }
        events_keep_the_session_valid(next, rest);
    }
}

/// Feeding bytes keeps a session valid.
pub proof fn feeding_keeps_the_session_valid(
    session: SessionView,
    input: Seq<Option<Seq<u8>>>,
    data: Seq<u8>,
)
    requires
        session_valid(session),
    ensures
        session_valid(session_run(session, events_on_feed(input, data))),
{
    let raw = raised_by_feed(input, data);
    assert forall|i: int| 0 <= i < events_of(raw).len() implies genuine(
        #[trigger] events_of(raw)[i],
    ) by {
        demuxed_events_are_genuine(raw, i);
    }
    events_keep_the_session_valid(session, events_of(raw));
}

/// Ending the input keeps a session valid.
pub proof fn finishing_keeps_the_session_valid(
    session: SessionView,
    input: Seq<Option<Seq<u8>>>,
)
    requires
        session_valid(session),
    ensures
        session_valid(
            closed_session(
                session_run(SessionView { finished: true, ..session }, events_on_finish(input)),
            ),
        ),
{
    let raw = raised_by_finish(input);
    assert forall|i: int| 0 <= i < events_of(raw).len() implies genuine(
        #[trigger] events_of(raw)[i],
    ) by {
        demuxed_events_are_genuine(raw, i);
    }
    let ended = SessionView { finished: true, ..session };
    assert(session.segmenter is None ==> tracks_valid(ended));
    events_keep_the_session_valid(ended, events_of(raw));
    let drained = session_run(ended, events_of(raw));
    if let Some(segmenter) = drained.segmenter {
        committing_keeps_the_store_valid(
            drained.cfg,
            drained.store,
            segmenter.ready + cut_on_finish(segmenter.history).1,
        );
    }
}

/// How the input is cut into chunks does not matter beyond the events that it
/// raises: running a list of events is running its first part and then the
/// rest.
pub proof fn events_run_in_turn(session: SessionView, first: Seq<EventView>, rest: Seq<EventView>)
    ensures
        session_run(session, first + rest) == session_run(session_run(session, first), rest),
    decreases first.len(),
{
    if first.len() == 0 {
        assert(first + rest =~= rest);
    } else {
        assert((first + rest).drop_first() =~= first.drop_first() + rest);
        events_run_in_turn(session_step(session, first[0]), first.drop_first(), rest);
    }
}

} // verus!
