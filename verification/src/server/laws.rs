//! What a server serves, over any requests.

use vstd::prelude::*;
use crate::hls::laws::{ends_with, events_only_commit_segments, holds_text};
use crate::hls::playlist::ConfigView;
use crate::hls::session::{closed_session, new_session, session_run, SessionView};
use crate::server::catalog::{slug_in, slugs_in, text_le};
use crate::server::manager::{
    bytes_fed, lemma_position, live_stream, position, started, stepped, vod_stream, with_step,
    ManagerView, StreamView,
};
use crate::server::reply::is_plain_name;
use crate::ts::demux::{events_on_feed, events_on_finish};

verus! {

proof fn lemma_run_keeps(session: SessionView, events: Seq<crate::ts::demux::EventView>)
    ensures
        session_run(session, events).finished == session.finished,
        session_run(session, events).cfg == session.cfg,
        closed_session(session).finished == session.finished,
        closed_session(session).cfg == session.cfg,
{
    events_only_commit_segments(session, events);
}

/// A capture that is served whole is fed all of its bytes and ended before it
/// is served, and keeps every segment.
pub proof fn whole_captures_are_served_complete(data: Seq<u8>)
    ensures
        bytes_fed(vod_stream(data).input) == data,
        vod_stream(data).input.last() is None,
        vod_stream(data).session.finished,
        vod_stream(data).session.cfg.window is None,
        vod_stream(data).session.cfg.target_secs == 4,
{
    let stream = vod_stream(data);
    let input = stream.input;
    assert(input.drop_last() =~= seq![Some(data)]);
    assert(seq![Some(data)].drop_last() =~= Seq::<Option<Seq<u8>>>::empty());
    reveal_with_fuel(bytes_fed, 3);
    assert(Seq::<u8>::empty() + data =~= data);
    let new = new_session(crate::server::manager::vod_config());
    lemma_run_keeps(new, events_on_feed(Seq::empty(), data));
    let fed = session_run(new, events_on_feed(Seq::empty(), data));
    let open = SessionView { finished: true, ..fed };
    lemma_run_keeps(open, events_on_finish(seq![Some(data)]));
    lemma_run_keeps(session_run(open, events_on_finish(seq![Some(data)])), Seq::empty());
}

/// A live stream is open, with a window of six segments, until the last of its
/// bytes is fed, and ends with them; after that no step changes it.
pub proof fn live_streams_end_with_their_last_byte(stream: StreamView, n: int, data: Seq<u8>)
    requires
        0 <= stream.at <= stream.data.len(),
        0 <= n,
    ensures
        !live_stream(data).session.finished,
        live_stream(data).session.cfg.window == Some(6usize),
        live_stream(data).at == 0,
        live_stream(data).data == data,
        ({
            let next = stepped(stream, n);
            &&& stream.at == stream.data.len() ==> next == stream
            &&& stream.at < stream.data.len() ==> {
                &&& next.at == if stream.data.len() - stream.at <= n {
                    stream.data.len() as int
                } else {
                    stream.at + n
                }
                &&& next.at == stream.data.len() ==> next.session.finished && next.input.last()
                    is None
                &&& next.at < stream.data.len() ==> next.session.finished == stream.session.finished
                    && next.input.last() == Some(stream.data.subrange(stream.at, next.at))
                &&& next.session.cfg == stream.session.cfg
            }
        }),
{
    if stream.at < stream.data.len() {
        let end = crate::server::manager::step_end(stream, n);
        let chunk = stream.data.subrange(stream.at, end);
        lemma_run_keeps(stream.session, events_on_feed(stream.input, chunk));
        let fed = session_run(stream.session, events_on_feed(stream.input, chunk));
        let open = SessionView { finished: true, ..fed };
        let input = stream.input.push(Some(chunk));
        lemma_run_keeps(open, events_on_finish(input));
        lemma_run_keeps(session_run(open, events_on_finish(input)), Seq::empty());
    }
}

/// What is served of a capture is a session that ran over what the demuxer
/// raised: over all of a whole capture, and over each step of a live one as it
/// comes. The tail that the demuxer held back comes at the end.
pub proof fn streams_run_over_their_bytes(stream: StreamView, n: int, data: Seq<u8>)
    requires
        0 <= stream.at < stream.data.len(),
        0 <= n,
    ensures
        ({
            let run = session_run(empty_session(None), events_on_feed(Seq::empty(), data));
            vod_stream(data).session == closed_session(
                session_run(
                    SessionView { finished: true, ..run },
                    events_on_finish(seq![Some(data)]),
                ),
            )
        }),
        live_stream(data).session == empty_session(Some(6usize)),
        ({
            let next = stepped(stream, n);
            let chunk = stream.data.subrange(stream.at, next.at);
            let run = session_run(stream.session, events_on_feed(stream.input, chunk));
            &&& next.at < stream.data.len() ==> next.session == run
            &&& next.at == stream.data.len() ==> next.session == closed_session(
                session_run(
                    SessionView { finished: true, ..run },
                    events_on_finish(stream.input.push(Some(chunk))),
                ),
            )
        }),
{
}

/// A session with nothing in it, of four-second segments that are named `seg`.
pub open spec fn empty_session(window: Option<usize>) -> SessionView {
    new_session(ConfigView { target_secs: 4, window, uri_prefix: "seg"@ })
}

/// A slug that is started is served from its own capture: live if it was said
/// to be, whole otherwise.
pub proof fn slugs_are_served_from_their_capture(
    manager: ManagerView,
    slug: Seq<char>,
    data: Seq<u8>,
)
    requires
        manager.stream(slug) is None,
    ensures
        started(manager, slug, data).live == manager.live,
        manager.live.contains(slug) ==> started(manager, slug, data).stream(slug) == Some(
            live_stream(data),
        ),
        !manager.live.contains(slug) ==> started(manager, slug, data).stream(slug) == Some(
            vod_stream(data),
        ),
{
    let after = started(manager, slug, data);
    lemma_position(manager.sessions, slug, 0);
    lemma_position(after.sessions, slug, 0);
    assert(after.sessions[manager.sessions.len() as int].0 == slug);
    let at = position(after.sessions, slug, 0)->0;
    if at < manager.sessions.len() {
        assert(after.sessions[at] == manager.sessions[at]);
    }
}

/// A step feeds the stream of its slug and no other.
pub proof fn steps_feed_one_stream(manager: ManagerView, slug: Seq<char>, n: int, other: Seq<char>)
    ensures
        manager.stream(slug) is None ==> with_step(manager, slug, n) == manager,
        manager.stream(slug) matches Some(stream) ==> with_step(manager, slug, n).stream(slug)
            == Some(stepped(stream, n)),
        other != slug ==> with_step(manager, slug, n).stream(other) == manager.stream(other),
        with_step(manager, slug, n).live == manager.live,
{
    lemma_position(manager.sessions, slug, 0);
    if let Some(i) = position(manager.sessions, slug, 0) {
        let after = with_step(manager, slug, n);
        lemma_same_names(manager.sessions, after.sessions, slug, 0);
        lemma_same_names(manager.sessions, after.sessions, other, 0);
        lemma_position(manager.sessions, other, 0);
    }
}

proof fn lemma_same_names(
    a: Seq<(Seq<char>, StreamView)>,
    b: Seq<(Seq<char>, StreamView)>,
    slug: Seq<char>,
    from: int,
)
    requires
        0 <= from,
        a.len() == b.len(),
        forall|i: int| 0 <= i < a.len() ==> (#[trigger] a[i]).0 == b[i].0,
    ensures
        position(a, slug, from) == position(b, slug, from),
    decreases a.len() - from,
{
    if from < a.len() {
        assert(a[from].0 == b[from].0);
        lemma_same_names(a, b, slug, from + 1);
    }
}

/// The file of a stream is its slug and `.ts`; a file without that ending, and
/// one that is nothing else, is no stream.
pub proof fn slugs_are_file_names_without_their_ending(name: Seq<char>, slug: Seq<char>)
    ensures
        slug.len() > 0 ==> slug_in(slug + ".ts"@) == Some(slug),
        slug_in(name) matches Some(s) ==> s.len() > 0 && name == s + ".ts"@,
        !ends_with(name, ".ts"@) ==> slug_in(name) is None,
        slug_in(".ts"@) is None,
{
    reveal_strlit(".ts");
    let ts = ".ts"@;
    assert(ts.len() == 3 && ts[0] == '.' && ts[1] == 't' && ts[2] == 's');
    assert((slug + ts).take(slug.len() as int) =~= slug);
    if slug_in(name) is Some {
        let n = name.len();
        assert(name =~= name.take(n - 3) + ts);
        assert(name.subrange(n - 3, n as int) =~= ts);
    }
}

/// Each file of a directory is one stream or none, whatever the other files
/// are.
pub proof fn each_capture_is_one_stream(names: Seq<Seq<char>>, name: Seq<char>)
    ensures
        slugs_in(Seq::<Seq<char>>::empty()).len() == 0,
        slug_in(name) matches Some(slug) ==> slugs_in(names.push(name)) == slugs_in(names).push(
            slug,
        ),
        slug_in(name) is None ==> slugs_in(names.push(name)) == slugs_in(names),
{
    assert(names.push(name).drop_last() =~= names);
}

/// Streams are ordered as in a dictionary: a text comes before every text that
/// it begins, and of two texts that differ first in one character, the one with
/// the lower character comes first.
pub proof fn streams_are_ordered_as_in_a_dictionary(
    front: Seq<char>,
    a: char,
    b: char,
    rest: Seq<char>,
    more: Seq<char>,
)
    ensures
        text_le(front, front + rest),
        rest.len() > 0 ==> !text_le(front + rest, front),
        (a as u32) < (b as u32) ==> text_le(front + seq![a] + rest, front + seq![b] + more)
            && !text_le(front + seq![b] + more, front + seq![a] + rest),
    decreases front.len(),
{
    if front.len() == 0 {
        assert(front + rest =~= rest);
        assert((front + seq![a] + rest)[0] == a);
        assert((front + seq![b] + more)[0] == b);
    } else {
        let tail = front.drop_first();
        streams_are_ordered_as_in_a_dictionary(tail, a, b, rest, more);
        assert((front + rest).drop_first() =~= tail + rest);
        assert((front + seq![a] + rest).drop_first() =~= tail + seq![a] + rest);
        assert((front + seq![b] + more).drop_first() =~= tail + seq![b] + more);
    }
}

/// A name with a slash, or with two dots in a row, is no segment name; every
/// other is.
pub proof fn segment_names_stay_in_their_place(name: Seq<char>)
    ensures
        is_plain_name(name) <==> !holds_text(name, "/"@) && !holds_text(name, ".."@),
{
    reveal_strlit("/");
    reveal_strlit("..");
    let slash = "/"@;
    let dots = ".."@;
    if name.contains('/') {
        let i = choose|i: int| 0 <= i < name.len() && name[i] == '/';
        assert(name.subrange(i, i + slash.len()) =~= slash);
    }
    if holds_text(name, slash) {
        let at = choose|at: int|
            0 <= at <= name.len() - slash.len() && #[trigger] name.subrange(at, at + slash.len())
                == slash;
        assert(name.subrange(at, at + slash.len())[0] == name[at]);
    }
    if holds_text(name, dots) {
        let at = choose|at: int|
            0 <= at <= name.len() - dots.len() && #[trigger] name.subrange(at, at + dots.len())
                == dots;
        assert(name.subrange(at, at + dots.len())[0] == name[at]);
        assert(name.subrange(at, at + dots.len())[1] == name[at + 1]);
    }
    if !is_plain_name(name) && !name.contains('/') {
        let i = choose|i: int|
            0 <= i < name.len() - 1 && (#[trigger] name[i] == '.' && name[i + 1] == '.');
        assert(name.subrange(i, i + dots.len()) =~= dots);
    }
}

} // verus!
