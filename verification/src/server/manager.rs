//! The sessions that a server runs.

use std::sync::Arc;
use vstd::prelude::*;
use crate::hls::playlist::{find_segment, playlist_text, ConfigView, HlsConfig};
use crate::hls::session::{closed_session, new_session, session_run, HlsSession, SessionView};
use crate::server::reply::{
    is_plain_name, is_segment_name, playlist_reply, segment_reply, Reply,
};
use crate::ts::demux::{events_on_feed, events_on_finish, EventView};

verus! {

/// How many segments a live stream keeps.
pub const LIVE_WINDOW: usize = 6;

// ---------------------------------------------------------------------------
// One stream
// ---------------------------------------------------------------------------

/// The session of a capture. A live one is fed step by step.
pub struct StreamSession {
    session: HlsSession,
    /// What a live stream is fed from.
    data: Vec<u8>,
    /// How much of it was fed.
    at: usize,
}

/// [`StreamSession`] as a mathematical value.
pub struct StreamView {
    pub session: SessionView,
    /// What the session's demuxer has been given.
    pub input: Seq<Option<Seq<u8>>>,
    pub data: Seq<u8>,
    pub at: int,
}

/// The configuration of a session that keeps everything.
pub open spec fn vod_config() -> ConfigView {
    ConfigView { target_secs: 4, window: None, uri_prefix: "seg"@ }
}

/// The configuration of a live session.
pub open spec fn live_config() -> ConfigView {
    ConfigView { target_secs: 4, window: Some(LIVE_WINDOW), uri_prefix: "seg"@ }
}

/// A session after a chunk.
pub open spec fn fed(session: SessionView, input: Seq<Option<Seq<u8>>>, data: Seq<u8>) -> SessionView {
    session_run(session, events_on_feed(input, data))
}

/// A session after the end of input.
pub open spec fn finished(session: SessionView, input: Seq<Option<Seq<u8>>>) -> SessionView {
    closed_session(
        session_run(SessionView { finished: true, ..session }, events_on_finish(input)),
    )
}

/// The stream of a capture that is served whole.
pub open spec fn vod_stream(data: Seq<u8>) -> StreamView {
    StreamView {
        session: finished(
            fed(new_session(vod_config()), Seq::empty(), data),
            seq![Some(data)],
        ),
        input: seq![Some(data), None],
        data: Seq::empty(),
        at: 0,
    }
}

/// The stream of a capture that is served live, before its first step.
pub open spec fn live_stream(data: Seq<u8>) -> StreamView {
    StreamView { session: new_session(live_config()), input: Seq::empty(), data, at: 0 }
}

/// Where a live stream stands after a step of `n` bytes.
pub open spec fn step_end(stream: StreamView, n: int) -> int {
    if n < stream.data.len() - stream.at {
        stream.at + n
    } else {
        stream.data.len() as int
    }
}

/// A live stream after a step of at most `n` bytes. The last step ends the
/// input; further ones do nothing.
pub open spec fn stepped(stream: StreamView, n: int) -> StreamView {
    if stream.at >= stream.data.len() {
        stream
    } else {
        let end = step_end(stream, n);
        let chunk = stream.data.subrange(stream.at, end);
        let session = fed(stream.session, stream.input, chunk);
        let input = stream.input.push(Some(chunk));
        if end == stream.data.len() {
            StreamView {
                session: finished(session, input),
                input: input.push(None),
                data: stream.data,
                at: end,
            }
        } else {
            StreamView { session, input, data: stream.data, at: end }
        }
    }
}

impl StreamSession {
    pub closed spec fn view(&self) -> StreamView {
        StreamView {
            session: self.session.view(),
            input: self.session.input(),
            data: self.data@,
            at: self.at as int,
        }
    }

    /// No event is left in the demuxer, and no more was fed than there is.
    pub closed spec fn wf(&self) -> bool {
        self.session.pending() == Seq::<EventView>::empty() && self.at <= self.data@.len()
    }

    /// Serve a capture whole.
    pub fn vod(data: &[u8]) -> (stream: Self)
        ensures
            stream.wf(),
            stream.view() == vod_stream(data@),
    {
        let mut session: HlsSession = HlsSession::new(HlsConfig::vod());
        session.feed(data);
        proof {
            let events = events_on_feed(Seq::empty(), data@);
            assert(Seq::<EventView>::empty() + events =~= events);
            assert(session.input() =~= seq![Some(data@)]);
        }
        session.finish();
        proof {
            let events = events_on_finish(seq![Some(data@)]);
            assert(Seq::<EventView>::empty() + events =~= events);
            assert(session.input() =~= seq![Some(data@), None]);
        }
        let stream = StreamSession { session, data: Vec::new(), at: 0 };
        assert(stream.view().data =~= Seq::empty());
        stream
    }

    /// Serve a capture live. Nothing is fed yet.
    pub fn live(data: Vec<u8>) -> (stream: Self)
        ensures
            stream.wf(),
            stream.view() == live_stream(data@),
    {
        let session: HlsSession = HlsSession::new(HlsConfig::rolling(LIVE_WINDOW));
        StreamSession { session, data, at: 0 }
    }

    /// Feed a live stream the next `n` bytes, or what is left.
    pub fn feed_step(&mut self, n: usize)
        requires
            old(self).wf(),
        ensures
            final(self).wf(),
            final(self).view() == stepped(old(self).view(), n as int),
    {
        let len: usize = self.data.len();
        if self.at >= len {
            return;
        }
        let end: usize = if n < len - self.at {
            self.at + n
        } else {
            len
        };
        let chunk: &[u8] = vstd::slice::slice_subrange(self.data.as_slice(), self.at, end);
        let ghost chunk_view = chunk@;
        self.session.feed(chunk);
        proof {
            let events = events_on_feed(old(self).session.input(), chunk_view);
            assert(Seq::<EventView>::empty() + events =~= events);
        }
        self.at = end;
        if end == len {
            let ghost input = self.session.input();
            self.session.finish();
            proof {
                let events = events_on_finish(input);
                assert(Seq::<EventView>::empty() + events =~= events);
            }
        }
    }

    /// Whether a live stream was fed all there is.
    pub fn at_eof(&self) -> (eof: bool)
        ensures
            eof == (self.view().at >= self.view().data.len()),
    {
        self.at >= self.data.len()
    }
}

/// The bytes that were fed so far.
pub open spec fn bytes_fed(input: Seq<Option<Seq<u8>>>) -> Seq<u8>
    decreases input.len(),
{
    if input.len() == 0 {
        Seq::empty()
    } else {
        match input.last() {
            Some(chunk) => bytes_fed(input.drop_last()) + chunk,
            None => bytes_fed(input.drop_last()),
        }
    }
}

/// However a live stream is stepped, its session has been fed exactly the
/// bytes up to where it stands: nothing twice, nothing left out.
pub proof fn steps_feed_every_byte_once(stream: StreamView, n: int)
    requires
        0 <= stream.at <= stream.data.len(),
        0 <= n,
        bytes_fed(stream.input) == stream.data.take(stream.at),
    ensures
        ({
            let next = stepped(stream, n);
            &&& stream.at <= next.at <= next.data.len()
            &&& next.data == stream.data
            &&& bytes_fed(next.input) == next.data.take(next.at)
            &&& n > 0 && stream.at < stream.data.len() ==> next.at > stream.at
        }),
{
    if stream.at < stream.data.len() {
        let end = step_end(stream, n);
        let chunk = stream.data.subrange(stream.at, end);
        let input = stream.input.push(Some(chunk));
        assert(input.drop_last() =~= stream.input);
        assert(bytes_fed(input) =~= stream.data.take(end));
        if end == stream.data.len() {
            assert(input.push(None).drop_last() =~= input);
        }
    }
}

/// A live stream starts with nothing fed.
pub proof fn live_stream_starts_empty(data: Seq<u8>)
    ensures
        bytes_fed(live_stream(data).input) == live_stream(data).data.take(0),
        live_stream(data).session.store.segments.len() == 0,
{
    assert(data.take(0) =~= Seq::empty());
}

// ---------------------------------------------------------------------------
// All streams
// ---------------------------------------------------------------------------

/// Owns one session per slug, started on first use.
pub struct Manager {
    live: Vec<String>,
    sessions: Vec<(String, StreamSession)>,
}

/// [`Manager`] as a mathematical value.
pub struct ManagerView {
    pub live: Seq<Seq<char>>,
    pub sessions: Seq<(Seq<char>, StreamView)>,
}

/// Where the session of a slug stands, from `from` on.
pub open spec fn position(
    sessions: Seq<(Seq<char>, StreamView)>,
    slug: Seq<char>,
    from: int,
) -> Option<int>
    decreases sessions.len() - from,
{
    if from < 0 || from >= sessions.len() {
        None
    } else if sessions[from].0 == slug {
        Some(from)
    } else {
        position(sessions, slug, from + 1)
    }
}

impl ManagerView {
    /// The stream of a slug, if it was started.
    pub open spec fn stream(self, slug: Seq<char>) -> Option<StreamView> {
        match position(self.sessions, slug, 0) {
            Some(i) => Some(self.sessions[i].1),
            None => None,
        }
    }
}

/// The manager after a slug was started from a capture. One that was started
/// goes on.
pub open spec fn started(manager: ManagerView, slug: Seq<char>, data: Seq<u8>) -> ManagerView {
    if manager.stream(slug) is Some {
        manager
    } else {
        ManagerView {
            sessions: manager.sessions.push(
                (
                    slug,
                    if manager.live.contains(slug) {
                        live_stream(data)
                    } else {
                        vod_stream(data)
                    },
                ),
            ),
            ..manager
        }
    }
}

/// The manager after a live stream was fed its next `n` bytes.
pub open spec fn with_step(manager: ManagerView, slug: Seq<char>, n: int) -> ManagerView {
    match position(manager.sessions, slug, 0) {
        Some(i) => ManagerView {
            sessions: manager.sessions.update(i, (slug, stepped(manager.sessions[i].1, n))),
            ..manager
        },
        None => manager,
    }
}

pub(crate) proof fn lemma_position(sessions: Seq<(Seq<char>, StreamView)>, slug: Seq<char>, from: int)
    requires
        0 <= from,
    ensures
        match position(sessions, slug, from) {
            Some(i) => from <= i < sessions.len() && sessions[i].0 == slug,
            None => forall|i: int| from <= i < sessions.len() ==> (#[trigger] sessions[i]).0 != slug,
        },
    decreases sessions.len() - from,
{
    if from < sessions.len() && sessions[from].0 != slug {
        lemma_position(sessions, slug, from + 1);
    }
}

impl Manager {
    pub closed spec fn view(&self) -> ManagerView {
        ManagerView {
            live: self.live@.map_values(|s: String| s@),
            sessions: self.sessions@.map_values(|s: (String, StreamSession)| (s.0@, s.1.view())),
        }
    }

    /// Every stream is ready for the next call.
    pub closed spec fn wf(&self) -> bool {
        forall|i: int| 0 <= i < self.sessions@.len() ==> (#[trigger] self.sessions@[i]).1.wf()
    }

    /// Create a manager that serves these slugs live, and every other one
    /// whole.
    #[must_use]
    pub fn new(live: Vec<String>) -> (manager: Self)
        ensures
            manager.wf(),
            manager.view() == (ManagerView {
                live: live@.map_values(|s: String| s@),
                sessions: Seq::empty(),
            }),
    {
        let manager = Manager { live, sessions: Vec::new() };
        assert(manager.view().sessions =~= Seq::empty());
        manager
    }

    /// Whether a slug is served live.
    pub fn is_live(&self, slug: &str) -> (live: bool)
        ensures
            live == self.view().live.contains(slug@),
    {
        let wanted: String = slug.to_string();
        let mut i: usize = 0;
        while i < self.live.len()
            invariant
                i <= self.live@.len(),
                wanted@ == slug@,
                forall|j: int| 0 <= j < i ==> (#[trigger] self.live@[j])@ != slug@,
            decreases self.live@.len() - i,
        {
            if self.live[i] == wanted {
                assert(self.view().live[i as int] == slug@);
                return true;
            }
            i = i + 1;
        }
        assert forall|j: int| 0 <= j < self.view().live.len() implies self.view().live[j]
            != slug@ by {
            assert(self.view().live[j] == self.live@[j]@);
        }
        false
    }

    fn find(&self, slug: &str) -> (at: Option<usize>)
        ensures
            match at {
                Some(i) => position(self.view().sessions, slug@, 0) == Some(i as int) && i
                    < self.sessions@.len() && self.view().sessions[i as int] == (
                    slug@,
                    self.sessions@[i as int].1.view(),
                ),
                None => position(self.view().sessions, slug@, 0) is None,
            },
    {
        let wanted: String = slug.to_string();
        let ghost all = self.view().sessions;
        let mut i: usize = 0;
        while i < self.sessions.len()
            invariant
                i <= self.sessions@.len(),
                wanted@ == slug@,
                all == self.view().sessions,
                position(all, slug@, 0) == position(all, slug@, i as int),
            decreases self.sessions@.len() - i,
        {
            assert(all[i as int] == (self.sessions@[i as int].0@, self.sessions@[i as int].1.view()));
            if self.sessions[i].0 == wanted {
                return Some(i);
            }
            i = i + 1;
        }
        None
    }

    /// Whether a slug was started.
    pub fn is_started(&self, slug: &str) -> (is: bool)
        ensures
            is == self.view().stream(slug@) is Some,
    {
        self.find(slug).is_some()
    }

    /// Start a slug from its capture: one that is served whole is fed at once,
    /// a live one waits for its steps. One that was started goes on.
    pub fn start(&mut self, slug: &str, data: Vec<u8>)
        requires
            old(self).wf(),
        ensures
            final(self).wf(),
            final(self).view() == started(old(self).view(), slug@, data@),
    {
        if self.find(slug).is_some() {
            return;
        }
        let ghost before = self.view().sessions;
        let stream: StreamSession = if self.is_live(slug) {
            StreamSession::live(data)
        } else {
            StreamSession::vod(data.as_slice())
        };
        let ghost entry = (slug@, stream.view());
        self.sessions.push((slug.to_string(), stream));
        assert(self.view().sessions =~= before.push(entry));
    }

    /// The playlist of a stream, if it was started.
    #[must_use]
    pub fn playlist(&self, slug: &str) -> (text: Option<String>)
        ensures
            match (self.view().stream(slug@), text) {
                (Some(stream), Some(t)) => t@ == playlist_text(
                    stream.session.cfg,
                    stream.session.store,
                    stream.session.finished,
                ),
                (None, None) => true,
                _ => false,
            },
    {
        match self.find(slug) {
            Some(i) => Some(self.sessions[i].1.session.playlist()),
            None => None,
        }
    }

    /// Whether a stream was started and has a segment to serve.
    #[must_use]
    pub fn is_ready(&self, slug: &str) -> (ready: bool)
        ensures
            ready == (match self.view().stream(slug@) {
                Some(stream) => stream.session.store.segments.len() > 0,
                None => false,
            }),
    {
        match self.find(slug) {
            Some(i) => self.sessions[i].1.session.is_ready(),
            None => false,
        }
    }

    /// The bytes of a segment of a stream that was started.
    #[must_use]
    pub fn segment(&self, slug: &str, name: &str) -> (bytes: Option<Arc<Vec<u8>>>)
        ensures
            match (self.view().stream(slug@), bytes) {
                (Some(stream), Some(b)) => find_segment(
                    stream.session.store.segments,
                    name@,
                ) matches Some(s) && b@ == s.bytes,
                (Some(stream), None) => find_segment(
                    stream.session.store.segments,
                    name@,
                ) is None,
                (None, None) => true,
                (None, Some(_)) => false,
            },
    {
        match self.find(slug) {
            Some(i) => self.sessions[i].1.session.segment(name),
            None => None,
        }
    }

    /// Feed a live stream that was started the next `n` bytes.
    pub fn feed_live_step(&mut self, slug: &str, n: usize)
        requires
            old(self).wf(),
        ensures
            final(self).wf(),
            final(self).view() == (match position(old(self).view().sessions, slug@, 0) {
                Some(i) => ManagerView {
                    sessions: old(self).view().sessions.update(
                        i,
                        (slug@, stepped(old(self).view().sessions[i].1, n as int)),
                    ),
                    ..old(self).view()
                },
                None => old(self).view(),
            }),
            final(self).view() == with_step(old(self).view(), slug@, n as int),
    {
        if let Some(i) = self.find(slug) {
            let ghost before = self.view().sessions;
            let (name, mut stream): (String, StreamSession) = self.sessions.remove(i);
            stream.feed_step(n);
            let ghost entry = (slug@, stream.view());
            self.sessions.insert(i, (name, stream));
            assert(self.view().sessions =~= before.update(i as int, entry));
        }
    }

    /// Whether there is nothing left to feed a stream: it ended, is served
    /// whole, or was never started.
    pub fn at_eof(&self, slug: &str) -> (eof: bool)
        ensures
            eof == (match self.view().stream(slug@) {
                Some(stream) => stream.at >= stream.data.len(),
                None => true,
            }),
    {
        match self.find(slug) {
            Some(i) => self.sessions[i].1.at_eof(),
            None => true,
        }
    }

    /// Answer a request for a playlist.
    pub fn answer_playlist(&self, slug: &str) -> (reply: Reply)
        ensures
            match (self.view().stream(slug@), reply) {
                (Some(stream), Reply::Playlist(text)) => stream.session.store.segments.len() > 0
                    && text@ == playlist_text(
                    stream.session.cfg,
                    stream.session.store,
                    stream.session.finished,
                ),
                (Some(stream), Reply::NotReady) => stream.session.store.segments.len() == 0,
                (None, Reply::UnknownStream) => true,
                _ => false,
            },
    {
        playlist_reply(self.playlist(slug), self.is_ready(slug))
    }

    /// Answer a request for a segment. A name that could not be one is refused
    /// before anything is looked up.
    pub fn answer_segment(&self, slug: &str, name: &str) -> (reply: Reply)
        ensures
            reply is BadSegmentName == !is_plain_name(name@),
            is_plain_name(name@) ==> match (self.view().stream(slug@), reply) {
                (Some(stream), Reply::Segment(bytes)) => find_segment(
                    stream.session.store.segments,
                    name@,
                ) matches Some(s) && bytes@ == s.bytes,
                (Some(stream), Reply::NoSuchSegment) => find_segment(
                    stream.session.store.segments,
                    name@,
                ) is None,
                (None, Reply::NoSuchSegment) => true,
                _ => false,
            },
    {
        if !is_segment_name(name) {
            return Reply::BadSegmentName;
        }
        segment_reply(self.segment(slug, name))
    }
}

/// A slug is started once: what comes after does not restart it, and no other
/// stream is touched.
pub proof fn streams_are_started_once(
    manager: ManagerView,
    slug: Seq<char>,
    data: Seq<u8>,
    other: Seq<char>,
)
    ensures
        manager.stream(slug) is Some ==> started(manager, slug, data) == manager,
        started(manager, slug, data).stream(slug) is Some,
        other != slug ==> started(manager, slug, data).stream(other) == manager.stream(other),
{
    let after = started(manager, slug, data);
    lemma_position(manager.sessions, slug, 0);
    lemma_position(after.sessions, slug, 0);
    if manager.stream(slug) is None {
        assert(after.sessions[manager.sessions.len() as int].0 == slug);
        lemma_position_push(manager.sessions, after.sessions.last(), other, 0);
        assert(after.sessions =~= manager.sessions.push(after.sessions.last()));
    }
}

proof fn lemma_position_push(
    sessions: Seq<(Seq<char>, StreamView)>,
    entry: (Seq<char>, StreamView),
    slug: Seq<char>,
    from: int,
)
    requires
        0 <= from <= sessions.len(),
    ensures
        entry.0 != slug ==> position(sessions.push(entry), slug, from) == position(
            sessions,
            slug,
            from,
        ),
        position(sessions, slug, from) matches Some(i) ==> from <= i < sessions.len(),
    decreases sessions.len() - from,
{
    if from < sessions.len() {
        lemma_position_push(sessions, entry, slug, from + 1);
    } else {
        assert(position(sessions.push(entry), slug, from + 1) is None);
    }
}

} // verus!
