//! What holds of the playlists of a session.

use vstd::prelude::*;
use crate::hls::playlist::{
    all_segment_lines, appended, committing_keeps_the_store_valid, empty_store,
    empty_store_is_valid, find_segment, listed_segments_are_served, number_line, playlist_head,
    playlist_tail, playlist_text, rolled_off, segment_lines, segment_name, stored_all, windowed,
    ConfigView, StoreView, StoredView,
};
use crate::hls::segmenter::{
    all_shown, can_push, cut_on_finish, cut_on_push, hls_on_finish, hls_on_push, CutView,
    HlsHistory, WireCut,
};
use crate::hls::session::{
    buffered, built, closed_session, first_rap, new_session, pushed, pushed_all, segmenter_window,
    session_run, session_step, with_discontinuity, with_new_track, SegmenterView, SessionView,
};
use crate::text::{decimal_text, digit_char, millionths_text};
use crate::ts::demux::{events_on_feed, events_on_finish, EventView, SampleView};
use crate::ts::track::TrackView;

verus! {

// ---------------------------------------------------------------------------
// Tags in text
// ---------------------------------------------------------------------------

/// Whether a text holds another somewhere.
pub open spec fn holds_text(text: Seq<char>, part: Seq<char>) -> bool {
    exists|at: int|
        0 <= at <= text.len() - part.len() && #[trigger] text.subrange(at, at + part.len()) == part
}

/// Whether a text ends with another.
pub open spec fn ends_with(text: Seq<char>, part: Seq<char>) -> bool {
    part.len() <= text.len() && text.subrange(text.len() - part.len(), text.len() as int) == part
}

/// Whether a character does not occur in a text.
pub open spec fn lacks(text: Seq<char>, c: char) -> bool {
    forall|i: int| 0 <= i < text.len() ==> text[i] != c
}

/// Whether a text is made of whole lines.
spec fn of_lines(text: Seq<char>) -> bool {
    text.len() == 0 || text.last() == '\n'
}

proof fn lemma_part_of(a: Seq<char>, b: Seq<char>, c: Seq<char>)
    ensures
        holds_text(a + b + c, b),
{
    let text = a + b + c;
    assert(text.subrange(a.len() as int, (a.len() + b.len()) as int) =~= b);
}

/// A part without a line end lies within whole lines or within what follows.
proof fn lemma_between_lines(a: Seq<char>, b: Seq<char>, part: Seq<char>)
    requires
        of_lines(a),
        part.len() > 0,
        lacks(part, '\n'),
    ensures
        holds_text(a + b, part) <==> holds_text(a, part) || holds_text(b, part),
{
    let text = a + b;
    if holds_text(a, part) {
        let at = choose|at: int|
            0 <= at <= a.len() - part.len() && #[trigger] a.subrange(at, at + part.len()) == part;
        assert(text.subrange(at, at + part.len()) =~= part);
    }
    if holds_text(b, part) {
        let at = choose|at: int|
            0 <= at <= b.len() - part.len() && #[trigger] b.subrange(at, at + part.len()) == part;
        assert(text.subrange(a.len() + at, a.len() + at + part.len()) =~= part);
    }
    if holds_text(text, part) {
        let at = choose|at: int|
            0 <= at <= text.len() - part.len() && #[trigger] text.subrange(at, at + part.len())
                == part;
        if at + part.len() <= a.len() {
            assert(a.subrange(at, at + part.len()) =~= part);
        } else if at >= a.len() {
            assert(b.subrange(at - a.len(), at - a.len() + part.len()) =~= part);
        } else {
            let end = a.len() - 1;
            assert(text.subrange(at, at + part.len())[end - at] == text[end]);
            assert(part[end - at] == '\n');
        }
    }
}

/// A part that lacks the first character of what follows lies before it or
/// within it.
proof fn lemma_apart(a: Seq<char>, b: Seq<char>, part: Seq<char>)
    requires
        b.len() > 0,
        part.len() > 0,
        lacks(part, b[0]),
    ensures
        holds_text(a + b, part) <==> holds_text(a, part) || holds_text(b, part),
{
    let text = a + b;
    if holds_text(a, part) {
        let at = choose|at: int|
            0 <= at <= a.len() - part.len() && #[trigger] a.subrange(at, at + part.len()) == part;
        assert(text.subrange(at, at + part.len()) =~= part);
    }
    if holds_text(b, part) {
        let at = choose|at: int|
            0 <= at <= b.len() - part.len() && #[trigger] b.subrange(at, at + part.len()) == part;
        assert(text.subrange(a.len() + at, a.len() + at + part.len()) =~= part);
    }
    if holds_text(text, part) {
        let at = choose|at: int|
            0 <= at <= text.len() - part.len() && #[trigger] text.subrange(at, at + part.len())
                == part;
        if at + part.len() <= a.len() {
            assert(a.subrange(at, at + part.len()) =~= part);
        } else if at >= a.len() {
            assert(b.subrange(at - a.len(), at - a.len() + part.len()) =~= part);
        } else {
            let end = a.len() as int;
            assert(text.subrange(at, at + part.len())[end - at] == text[end]);
            assert(part[end - at] == b[0]);
        }
    }
}

/// A line in which `#` stands at most at the start does not hold a tag that it
/// does not start with.
proof fn lemma_other_line(line: Seq<char>, tag: Seq<char>, at: int)
    requires
        0 <= at < tag.len(),
        tag[0] == '#',
        forall|i: int| 0 < i < line.len() ==> line[i] != '#',
        at < line.len() ==> line[at] != tag[at],
    ensures
        !holds_text(line, tag),
{
    if holds_text(line, tag) {
        let from = choose|from: int|
            0 <= from <= line.len() - tag.len() && #[trigger] line.subrange(from, from + tag.len())
                == tag;
        assert(line.subrange(from, from + tag.len())[0] == line[from]);
        assert(line.subrange(from, from + tag.len())[at] == line[from + at]);
    }
}

proof fn lemma_digits(n: nat)
    ensures
        lacks(decimal_text(n), '#'),
        decimal_text(n).len() > 0,
        exists|d: nat| decimal_text(n)[0] == #[trigger] digit_char(d),
    decreases n,
{
    if n >= 10 {
        lemma_digits(n / 10);
        let d = choose|d: nat| decimal_text(n / 10)[0] == #[trigger] digit_char(d);
        assert(decimal_text(n)[0] == digit_char(d));
    } else {
        assert(decimal_text(n)[0] == digit_char(n));
    }
}

/// The duration of a segment, as it is written, holds no `#`.
pub proof fn durations_are_plain(micros: nat)
    ensures
        lacks(millionths_text(micros), '#'),
{
    reveal_strlit(".");
    lemma_digits(micros / 1_000_000);
}

proof fn lemma_number_line(tag: Seq<char>, number: u64, wanted: Seq<char>, at: int)
    requires
        0 <= at < wanted.len(),
        at < tag.len(),
        wanted[0] == '#',
        forall|i: int| 0 < i < tag.len() ==> tag[i] != '#',
        tag[at] != wanted[at],
    ensures
        !holds_text(number_line(tag, number), wanted),
        of_lines(number_line(tag, number)),
{
    reveal_strlit("\n");
    lemma_digits(number as nat);
    lemma_other_line(number_line(tag, number), wanted, at);
}

/// Whether the texts of a segment are as in every session: the duration holds
/// no `#`, and the name follows the numbering.
pub open spec fn is_committed(cfg: ConfigView, segment: StoredView) -> bool {
    &&& lacks(segment.duration, '#')
    &&& exists|number: nat| segment.name == #[trigger] segment_name(cfg, number)
}

/// Whether a text is one of the tags that [`lemma_tag_lines`] looks for.
spec fn is_wanted(tag: Seq<char>) -> bool {
    &&& tag.len() > 7
    &&& tag[0] == '#'
    &&& tag[4] == '-'
    &&& tag[7] == 'E' || tag[7] == 'P'
    &&& lacks(tag, '\n')
    &&& forall|d: nat| lacks(tag, #[trigger] digit_char(d))
}

proof fn lemma_name_line(cfg: ConfigView, number: nat, tag: Seq<char>)
    requires
        is_wanted(tag),
    ensures
        holds_text(segment_name(cfg, number) + "\n"@, tag) <==> holds_text(cfg.uri_prefix, tag),
{
    reveal_strlit(".ts");
    reveal_strlit("\n");
    let rest = decimal_text(number) + ".ts"@ + "\n"@;
    lemma_digits(number);
    let d = choose|d: nat| decimal_text(number)[0] == #[trigger] digit_char(d);
    assert(rest[0] == digit_char(d));
    assert(lacks(tag, digit_char(d)));
    lemma_other_line(rest, tag, 0);
    lemma_apart(cfg.uri_prefix, rest, tag);
    assert(segment_name(cfg, number) + "\n"@ =~= cfg.uri_prefix + rest);
}

proof fn lemma_segment_lines(cfg: ConfigView, segment: StoredView, tag: Seq<char>)
    requires
        is_committed(cfg, segment),
        is_wanted(tag),
    ensures
        holds_text(segment_lines(segment), tag) <==> holds_text(cfg.uri_prefix, tag),
        of_lines(segment_lines(segment)),
{
    reveal_strlit("#EXT-X-DISCONTINUITY\n");
    reveal_strlit("#EXTINF:");
    reveal_strlit(",\n");
    reveal_strlit("\n");
    let mark = if segment.discontinuous {
        "#EXT-X-DISCONTINUITY\n"@
    } else {
        Seq::empty()
    };
    let length = "#EXTINF:"@ + segment.duration + ",\n"@;
    let name = segment.name + "\n"@;
    let number = choose|number: nat| segment.name == #[trigger] segment_name(cfg, number);
    assert(segment_lines(segment) =~= mark + (length + name));
    lemma_other_line(mark, tag, 7);
    lemma_other_line(length, tag, 4);
    lemma_name_line(cfg, number, tag);
    lemma_between_lines(length, name, tag);
    lemma_between_lines(mark, length + name, tag);
}

proof fn lemma_all_segment_lines(cfg: ConfigView, segments: Seq<StoredView>, tag: Seq<char>)
    requires
        forall|i: int| 0 <= i < segments.len() ==> is_committed(cfg, #[trigger] segments[i]),
        is_wanted(tag),
    ensures
        holds_text(all_segment_lines(segments), tag) <==> segments.len() > 0 && holds_text(
            cfg.uri_prefix,
            tag,
        ),
        of_lines(all_segment_lines(segments)),
    decreases segments.len(),
{
    if segments.len() > 0 {
        lemma_all_segment_lines(cfg, segments.drop_last(), tag);
        assert(segments[segments.len() - 1] == segments.last());
        lemma_segment_lines(cfg, segments.last(), tag);
        lemma_between_lines(
            all_segment_lines(segments.drop_last()),
            segment_lines(segments.last()),
            tag,
        );
    }
}

/// A playlist holds a tag of the kind looked for if and only if the line that
/// tells its type or the line that ends it does, or the name of a segment.
proof fn lemma_tag_lines(cfg: ConfigView, store: StoreView, finished: bool, tag: Seq<char>)
    requires
        forall|i: int|
            0 <= i < store.segments.len() ==> is_committed(cfg, #[trigger] store.segments[i]),
        is_wanted(tag),
    ensures
        holds_text(playlist_text(cfg, store, finished), tag) <==> {
            ||| cfg.window is None && holds_text("#EXT-X-PLAYLIST-TYPE:VOD\n"@, tag)
            ||| cfg.window is None && finished && holds_text("#EXT-X-ENDLIST\n"@, tag)
            ||| store.segments.len() > 0 && holds_text(cfg.uri_prefix, tag)
        },
{
    reveal_strlit("#EXTM3U\n#EXT-X-VERSION:3\n");
    reveal_strlit("#EXTM3U\n");
    reveal_strlit("#EXT-X-VERSION:3\n");
    reveal_strlit("#EXT-X-TARGETDURATION:");
    reveal_strlit("#EXT-X-MEDIA-SEQUENCE:");
    reveal_strlit("#EXT-X-DISCONTINUITY-SEQUENCE:");
    reveal_strlit("#EXT-X-PLAYLIST-TYPE:VOD\n");
    reveal_strlit("#EXT-X-INDEPENDENT-SEGMENTS\n");
    reveal_strlit("#EXT-X-ENDLIST\n");
    let target: u64 = if store.target_duration == 0 {
        1
    } else {
        store.target_duration
    };
    let magic = "#EXTM3U\n"@;
    let version = "#EXT-X-VERSION:3\n"@;
    let first = "#EXTM3U\n#EXT-X-VERSION:3\n"@;
    let length = number_line("#EXT-X-TARGETDURATION:"@, target);
    let number = number_line("#EXT-X-MEDIA-SEQUENCE:"@, store.media_sequence);
    let breaks = if cfg.window is Some && store.discontinuity_sequence > 0 {
        number_line("#EXT-X-DISCONTINUITY-SEQUENCE:"@, store.discontinuity_sequence)
    } else {
        Seq::empty()
    };
    let kind = if cfg.window is None {
        "#EXT-X-PLAYLIST-TYPE:VOD\n"@
    } else {
        Seq::empty()
    };
    let starts = "#EXT-X-INDEPENDENT-SEGMENTS\n"@;
    let listed = all_segment_lines(store.segments);
    let tail = playlist_tail(cfg, finished);
    assert(first =~= magic + version);
    lemma_other_line(magic, tag, 4);
    lemma_other_line(version, tag, 7);
    lemma_between_lines(magic, version, tag);
    lemma_number_line("#EXT-X-TARGETDURATION:"@, target, tag, 7);
    lemma_number_line("#EXT-X-MEDIA-SEQUENCE:"@, store.media_sequence, tag, 7);
    lemma_number_line("#EXT-X-DISCONTINUITY-SEQUENCE:"@, store.discontinuity_sequence, tag, 7);
    lemma_other_line(starts, tag, 7);
    lemma_other_line(Seq::empty(), tag, 0);
    lemma_all_segment_lines(cfg, store.segments, tag);
    lemma_between_lines(listed, tail, tag);
    lemma_between_lines(starts, listed + tail, tag);
    lemma_between_lines(kind, starts + (listed + tail), tag);
    lemma_between_lines(breaks, kind + (starts + (listed + tail)), tag);
    lemma_between_lines(number, breaks + (kind + (starts + (listed + tail))), tag);
    lemma_between_lines(length, number + (breaks + (kind + (starts + (listed + tail)))), tag);
    lemma_between_lines(
        first,
        length + (number + (breaks + (kind + (starts + (listed + tail))))),
        tag,
    );
    assert(playlist_text(cfg, store, finished) =~= first + (length + (number + (breaks + (kind + (
    starts + (listed + tail)))))));
}

proof fn lemma_own_line(tag: Seq<char>, line: Seq<char>)
    requires
        line == tag.push('\n'),
    ensures
        holds_text(line, tag),
{
    lemma_part_of(Seq::empty(), tag, seq!['\n']);
    assert(line =~= Seq::<char>::empty() + tag + seq!['\n']);
}

proof fn lemma_end_tag()
    ensures
        is_wanted("#EXT-X-ENDLIST"@),
        holds_text("#EXT-X-ENDLIST\n"@, "#EXT-X-ENDLIST"@),
        !holds_text("#EXT-X-PLAYLIST-TYPE:VOD\n"@, "#EXT-X-ENDLIST"@),
{
    reveal_strlit("#EXT-X-ENDLIST");
    reveal_strlit("#EXT-X-ENDLIST\n");
    reveal_strlit("#EXT-X-PLAYLIST-TYPE:VOD\n");
    assert("#EXT-X-ENDLIST\n"@ =~= "#EXT-X-ENDLIST"@.push('\n'));
    lemma_own_line("#EXT-X-ENDLIST"@, "#EXT-X-ENDLIST\n"@);
    lemma_other_line("#EXT-X-PLAYLIST-TYPE:VOD\n"@, "#EXT-X-ENDLIST"@, 7);
}

proof fn lemma_kind_tag()
    ensures
        is_wanted("#EXT-X-PLAYLIST-TYPE:VOD"@),
        holds_text("#EXT-X-PLAYLIST-TYPE:VOD\n"@, "#EXT-X-PLAYLIST-TYPE:VOD"@),
        !holds_text("#EXT-X-ENDLIST\n"@, "#EXT-X-PLAYLIST-TYPE:VOD"@),
{
    reveal_strlit("#EXT-X-PLAYLIST-TYPE:VOD");
    reveal_strlit("#EXT-X-PLAYLIST-TYPE:VOD\n");
    reveal_strlit("#EXT-X-ENDLIST\n");
    assert("#EXT-X-PLAYLIST-TYPE:VOD\n"@ =~= "#EXT-X-PLAYLIST-TYPE:VOD"@.push('\n'));
    lemma_own_line("#EXT-X-PLAYLIST-TYPE:VOD"@, "#EXT-X-PLAYLIST-TYPE:VOD\n"@);
    lemma_other_line("#EXT-X-ENDLIST\n"@, "#EXT-X-PLAYLIST-TYPE:VOD"@, 7);
}

/// The end of a playlist is marked, and its type given as VOD, exactly where
/// that is due: the end once a VOD session is finished, and the type in every
/// VOD session. A rolling playlist holds neither. Beyond that, either text
/// occurs only where the prefix of the names brings it along.
pub proof fn only_vod_playlists_are_closed(cfg: ConfigView, store: StoreView, finished: bool)
    requires
        forall|i: int|
            0 <= i < store.segments.len() ==> is_committed(cfg, #[trigger] store.segments[i]),
    ensures
        holds_text(playlist_text(cfg, store, finished), "#EXT-X-ENDLIST"@) <==> (cfg.window is None
            && finished) || (store.segments.len() > 0 && holds_text(
            cfg.uri_prefix,
            "#EXT-X-ENDLIST"@,
        )),
        holds_text(playlist_text(cfg, store, finished), "#EXT-X-PLAYLIST-TYPE:VOD"@) <==> (
        cfg.window is None) || (store.segments.len() > 0 && holds_text(
            cfg.uri_prefix,
            "#EXT-X-PLAYLIST-TYPE:VOD"@,
        )),
{
    lemma_end_tag();
    lemma_kind_tag();
    lemma_tag_lines(cfg, store, finished, "#EXT-X-ENDLIST"@);
    lemma_tag_lines(cfg, store, finished, "#EXT-X-PLAYLIST-TYPE:VOD"@);
}

/// Whatever the names of its segments, a playlist ends with the end tag if and
/// only if it is that of a finished VOD session.
pub proof fn finished_vod_playlists_end_with_the_end_tag(
    cfg: ConfigView,
    store: StoreView,
    finished: bool,
)
    requires
        forall|i: int| 0 <= i < store.segments.len() ==> ends_with(
            (#[trigger] store.segments[i]).name,
            ".ts"@,
        ),
    ensures
        ends_with(playlist_text(cfg, store, finished), "#EXT-X-ENDLIST\n"@) <==> cfg.window is None
            && finished,
{
    reveal_strlit("#EXT-X-ENDLIST\n");
    reveal_strlit("#EXT-X-INDEPENDENT-SEGMENTS\n");
    reveal_strlit(".ts");
    reveal_strlit("\n");
    let text = playlist_text(cfg, store, finished);
    let end = "#EXT-X-ENDLIST\n"@;
    let n = text.len() as int;
    if cfg.window is None && finished {
        assert(text.subrange(n - end.len(), n) =~= end);
    } else if ends_with(text, end) {
        assert(text.subrange(n - end.len(), n)[end.len() - 2] == text[n - 2]);
        assert(text[n - 2] == 'T');
        if store.segments.len() == 0 {
            assert(text[n - 2] == 'S');
        } else {
            let name = store.segments.last().name;
            assert(store.segments[store.segments.len() - 1] == store.segments.last());
            assert(name.subrange(name.len() - 3, name.len() as int)[2] == name.last());
            assert(text[n - 2] == name.last());
        }
    }
}

/// The names of all segments end in `.ts`.
pub proof fn segment_names_end_alike(cfg: ConfigView, number: nat)
    ensures
        ends_with(segment_name(cfg, number), ".ts"@),
{
    reveal_strlit(".ts");
    let name = segment_name(cfg, number);
    assert(name.subrange(name.len() - 3, name.len() as int) =~= ".ts"@);
}

/// The number of the first listed segment stands in the playlist.
pub proof fn playlist_tells_its_first_number(cfg: ConfigView, store: StoreView, finished: bool)
    ensures
        holds_text(
            playlist_text(cfg, store, finished),
            number_line("#EXT-X-MEDIA-SEQUENCE:"@, store.media_sequence),
        ),
{
    let target: u64 = if store.target_duration == 0 {
        1
    } else {
        store.target_duration
    };
    let before = "#EXTM3U\n#EXT-X-VERSION:3\n"@ + number_line("#EXT-X-TARGETDURATION:"@, target);
    let line = number_line("#EXT-X-MEDIA-SEQUENCE:"@, store.media_sequence);
    let text = playlist_text(cfg, store, finished);
    let after = text.skip((before.len() + line.len()) as int);
    lemma_part_of(before, line, after);
    assert(text =~= before + line + after);
}

// ---------------------------------------------------------------------------
// Which segments are listed
// ---------------------------------------------------------------------------

proof fn lemma_windowed_keeps(store: StoreView, window: nat)
    requires
        store.media_sequence + store.segments.len() < u64::MAX,
    ensures
        ({
            let after = windowed(store, window);
            let kept = if store.segments.len() <= window {
                store.segments.len()
            } else {
                window
            };
            &&& after.segments == store.segments.skip(store.segments.len() - kept)
            &&& after.media_sequence == store.media_sequence + store.segments.len() - kept
            &&& after.next_seq == store.next_seq
        }),
    decreases store.segments.len(),
{
    if store.segments.len() <= window {
        assert(store.segments.skip(0) =~= store.segments);
    } else {
        let next = rolled_off(store);
        lemma_windowed_keeps(next, window);
        assert(next.segments.skip(next.segments.len() - window) =~= store.segments.skip(
            store.segments.len() - window,
        ));
    }
}

/// How many of the segments cut so far a playlist lists: all of them, or the
/// newest that fit in its window.
pub open spec fn listed_count(cfg: ConfigView, cut: nat) -> nat {
    match cfg.window {
        Some(window) => if cut <= window {
            cut
        } else {
            window as nat
        },
        None => cut,
    }
}

/// A playlist lists the newest of the segments that were cut, as many as its
/// window holds, in order and under their running numbers; the number of the
/// first one is the number of segments that are gone.
pub proof fn playlist_lists_the_newest_segments(cfg: ConfigView, cuts: Seq<CutView>)
    requires
        cuts.len() < u64::MAX,
    ensures
        ({
            let store = stored_all(empty_store(cfg), cfg, cuts);
            let gone = cuts.len() - listed_count(cfg, cuts.len());
            &&& store.segments.len() == listed_count(cfg, cuts.len())
            &&& store.media_sequence == gone
            &&& store.next_seq == cuts.len()
            &&& forall|i: int|
                0 <= i < store.segments.len() ==> (#[trigger] store.segments[i]) == (StoredView {
                    name: segment_name(cfg, (gone + i) as nat),
                    bytes: cuts[gone + i].bytes,
                    duration: cuts[gone + i].duration,
                    ceil_secs: cuts[gone + i].ceil_secs,
                    discontinuous: cuts[gone + i].discontinuous,
                })
        }),
    decreases cuts.len(),
{
    if cuts.len() > 0 {
        let earlier = cuts.drop_last();
        playlist_lists_the_newest_segments(cfg, earlier);
        let before = stored_all(empty_store(cfg), cfg, earlier);
        let grown = appended(before, cfg, cuts.last());
        let store = stored_all(empty_store(cfg), cfg, cuts);
        let was_gone = earlier.len() - listed_count(cfg, earlier.len());
        let gone = cuts.len() - listed_count(cfg, cuts.len());
        assert forall|i: int| 0 <= i < grown.segments.len() implies (#[trigger] grown.segments[i])
            == (StoredView {
            name: segment_name(cfg, (was_gone + i) as nat),
            bytes: cuts[was_gone + i].bytes,
            duration: cuts[was_gone + i].duration,
            ceil_secs: cuts[was_gone + i].ceil_secs,
            discontinuous: cuts[was_gone + i].discontinuous,
        }) by {
            if i < before.segments.len() {
                assert(grown.segments[i] == before.segments[i]);
            }
        }
        if let Some(window) = cfg.window {
            lemma_windowed_keeps(grown, window as nat);
            assert forall|i: int| 0 <= i < store.segments.len() implies (
            #[trigger] store.segments[i]) == grown.segments[gone - was_gone + i] by {}
        }
    }
}

// ---------------------------------------------------------------------------
// Sessions
// ---------------------------------------------------------------------------

/// Whether the durations of segments are written without a `#`.
pub open spec fn plain_cuts(cuts: Seq<CutView>) -> bool {
    forall|i: int| 0 <= i < cuts.len() ==> lacks((#[trigger] cuts[i]).duration, '#')
}

/// Whether the segments that the segmenter of a session holds ready are so.
pub open spec fn plain_ready(session: SessionView) -> bool {
    session.segmenter matches Some(segmenter) ==> plain_cuts(segmenter.ready)
}

/// Whether a store comes from another by committing these segments.
pub open spec fn committed(
    before: StoreView,
    after: StoreView,
    cfg: ConfigView,
    cuts: Seq<CutView>,
) -> bool {
    after == stored_all(before, cfg, cuts)
}

/// Whether one session comes from another by cutting segments: they differ
/// neither in the configuration nor in whether the input has ended, and the
/// store of one follows from that of the other. Durations stay plain.
pub open spec fn follows(before: SessionView, after: SessionView) -> bool {
    &&& after.cfg == before.cfg
    &&& after.finished == before.finished
    &&& plain_ready(before) ==> plain_ready(after)
    &&& exists|cuts: Seq<CutView>| #[trigger]
        committed(before.store, after.store, before.cfg, cuts) && (plain_ready(before)
            ==> plain_cuts(cuts))
}

proof fn lemma_shown_is_plain(cuts: Seq<WireCut>)
    ensures
        plain_cuts(all_shown(cuts)),
{
    assert forall|i: int| 0 <= i < cuts.len() implies lacks(
        (#[trigger] all_shown(cuts)[i]).duration,
        '#',
    ) by {
        durations_are_plain(cuts[i].micros);
    }
}

proof fn lemma_stored_twice(store: StoreView, cfg: ConfigView, a: Seq<CutView>, b: Seq<CutView>)
    ensures
        stored_all(stored_all(store, cfg, a), cfg, b) == stored_all(store, cfg, a + b),
    decreases b.len(),
{
    if b.len() == 0 {
        assert(a + b =~= a);
    } else {
        lemma_stored_twice(store, cfg, a, b.drop_last());
        assert((a + b).drop_last() =~= a + b.drop_last());
    }
}

proof fn lemma_same_store(before: SessionView, after: SessionView)
    requires
        after.cfg == before.cfg,
        after.finished == before.finished,
        after.store == before.store,
        plain_ready(before) ==> plain_ready(after),
    ensures
        follows(before, after),
{
    assert(committed(before.store, after.store, before.cfg, Seq::<CutView>::empty()));
}

proof fn lemma_follows_twice(a: SessionView, b: SessionView, c: SessionView)
    requires
        follows(a, b),
        follows(b, c),
    ensures
        follows(a, c),
{
    let first = choose|cuts: Seq<CutView>| #[trigger]
        committed(a.store, b.store, a.cfg, cuts) && (plain_ready(a) ==> plain_cuts(cuts));
    let second = choose|cuts: Seq<CutView>| #[trigger]
        committed(b.store, c.store, b.cfg, cuts) && (plain_ready(b) ==> plain_cuts(cuts));
    lemma_stored_twice(a.store, a.cfg, first, second);
    assert(committed(a.store, c.store, a.cfg, first + second));
}

proof fn lemma_pushed_follows(session: SessionView, track_id: u32, sample: SampleView)
    ensures
        follows(session, pushed(session, track_id, sample)),
{
    let after = pushed(session, track_id, sample);
    match session.segmenter {
        Some(segmenter) => {
            let answer = cut_on_push(segmenter.history, track_id, sample);
            let cuts = if can_push(segmenter.history, track_id, sample) {
                segmenter.ready + answer.1
            } else {
                segmenter.ready
            };
            lemma_shown_is_plain(hls_on_push(segmenter.history, track_id, sample).1);
            assert(committed(session.store, after.store, session.cfg, cuts));
        },
        None => {
            lemma_same_store(session, after);
        },
    }
}

proof fn lemma_pushed_all_follows(session: SessionView, samples: Seq<(u32, SampleView)>)
    ensures
        follows(session, pushed_all(session, samples)),
    decreases samples.len(),
{
    if samples.len() == 0 {
        lemma_same_store(session, session);
    } else {
        let before = pushed_all(session, samples.drop_last());
        lemma_pushed_all_follows(session, samples.drop_last());
        lemma_pushed_follows(before, samples.last().0, samples.last().1);
        lemma_follows_twice(session, before, pushed_all(session, samples));
    }
}

proof fn lemma_built_follows(session: SessionView)
    ensures
        follows(session, built(session)),
{
    lemma_same_store(session, session);
    if let Some(video) = session.video_track_id {
        if let Some(rap) = first_rap(session.buffer, video, 0) {
            let tracks = session.tracks.map_values(|t: TrackView| t.source);
            let start = SessionView {
                segmenter: Some(
                    SegmenterView {
                        history: HlsHistory {
                            target_secs: session.cfg.target_secs,
                            window: segmenter_window(session.cfg),
                            tracks,
                            calls: Seq::empty(),
                        },
                        ready: Seq::empty(),
                    },
                ),
                buffer: Seq::empty(),
                ..session
            };
            lemma_same_store(session, start);
            lemma_pushed_all_follows(start, session.buffer.skip(rap));
            lemma_follows_twice(session, start, pushed_all(start, session.buffer.skip(rap)));
        }
    }
}

proof fn lemma_step_follows(session: SessionView, event: EventView)
    ensures
        follows(session, session_step(session, event)),
{
    let after = session_step(session, event);
    match event {
        EventView::TrackAdded(track) => {
            lemma_same_store(session, with_new_track(session, track));
        },
        EventView::Sample { track_id, sample } => {
            if session.segmenter is Some {
                lemma_pushed_follows(session, track_id, sample);
            } else {
                let next = buffered(session, track_id, sample);
                lemma_same_store(session, next);
                lemma_built_follows(next);
                lemma_follows_twice(session, next, after);
            }
        },
        EventView::TracksResolved { .. } => {
            let next = SessionView { tracks_resolved: true, ..session };
            lemma_same_store(session, next);
            lemma_built_follows(next);
            lemma_follows_twice(session, next, after);
        },
        _ => {
            lemma_same_store(session, with_discontinuity(session));
            lemma_same_store(session, after);
        },
    }
}

/// Whatever a stream brings, a session stays open or finished as it was, keeps
/// its configuration, and only commits further segments.
pub proof fn events_only_commit_segments(session: SessionView, events: Seq<EventView>)
    ensures
        follows(session, session_run(session, events)),
    decreases events.len(),
{
    if events.len() == 0 {
        lemma_same_store(session, session);
    } else {
        let next = session_step(session, events[0]);
        lemma_step_follows(session, events[0]);
        events_only_commit_segments(next, events.drop_first());
        lemma_follows_twice(session, next, session_run(session, events));
    }
}

/// What a caller does with a session.
pub enum SessionCall {
    Feed(Seq<u8>),
    Finish,
}

/// What the demuxer of a session has been given after a list of calls.
pub open spec fn input_after(calls: Seq<SessionCall>) -> Seq<Option<Seq<u8>>> {
    calls.map_values(
        |call: SessionCall|
            match call {
                SessionCall::Feed(data) => Some(data),
                SessionCall::Finish => None,
            },
    )
}

/// A new session after a list of calls.
pub open spec fn session_after(cfg: ConfigView, calls: Seq<SessionCall>) -> SessionView
    decreases calls.len(),
{
    if calls.len() == 0 {
        new_session(cfg)
    } else {
        let before = session_after(cfg, calls.drop_last());
        let input = input_after(calls.drop_last());
        match calls.last() {
            SessionCall::Feed(data) => session_run(before, events_on_feed(input, data)),
            SessionCall::Finish => closed_session(
                session_run(SessionView { finished: true, ..before }, events_on_finish(input)),
            ),
        }
    }
}

/// Whether a list of calls ends the input.
pub open spec fn ends_input(calls: Seq<SessionCall>) -> bool {
    exists|i: int| 0 <= i < calls.len() && #[trigger] calls[i] is Finish
}

proof fn lemma_closed_follows(session: SessionView)
    ensures
        follows(session, closed_session(session)),
{
    match session.segmenter {
        Some(segmenter) => {
            let cuts = segmenter.ready + cut_on_finish(segmenter.history).1;
            lemma_shown_is_plain(hls_on_finish(segmenter.history).1);
            assert(committed(session.store, closed_session(session).store, session.cfg, cuts));
        },
        None => {
            lemma_same_store(session, session);
        },
    }
}

/// After any calls, a session is finished if and only if one of them ended the
/// input, and what it lists comes from committing segments one after another
/// to an empty store.
pub proof fn sessions_commit_in_order(cfg: ConfigView, calls: Seq<SessionCall>)
    ensures
        session_after(cfg, calls).cfg == cfg,
        session_after(cfg, calls).finished == ends_input(calls),
        plain_ready(session_after(cfg, calls)),
        exists|cuts: Seq<CutView>| #[trigger]
            committed(empty_store(cfg), session_after(cfg, calls).store, cfg, cuts) && plain_cuts(
                cuts,
            ),
    decreases calls.len(),
{
    let after = session_after(cfg, calls);
    if calls.len() == 0 {
        assert(committed(empty_store(cfg), after.store, cfg, Seq::<CutView>::empty()));
    } else {
        let earlier = calls.drop_last();
        let before = session_after(cfg, earlier);
        let input = input_after(earlier);
        sessions_commit_in_order(cfg, earlier);
        assert(ends_input(earlier) ==> ends_input(calls)) by {
            if ends_input(earlier) {
                let i = choose|i: int| 0 <= i < earlier.len() && #[trigger] earlier[i] is Finish;
                assert(calls[i] is Finish);
            }
        }
        let open = match calls.last() {
            SessionCall::Feed(_) => before,
            SessionCall::Finish => SessionView { finished: true, ..before },
        };
        match calls.last() {
            SessionCall::Feed(data) => {
                events_only_commit_segments(open, events_on_feed(input, data));
                assert(ends_input(calls) ==> ends_input(earlier)) by {
                    if ends_input(calls) {
                        let i = choose|i: int| 0 <= i < calls.len() && #[trigger] calls[i] is Finish;
                        assert(earlier[i] is Finish);
                    }
                }
            },
            SessionCall::Finish => {
                let run = session_run(open, events_on_finish(input));
                events_only_commit_segments(open, events_on_finish(input));
                lemma_closed_follows(run);
                lemma_follows_twice(open, run, after);
                assert(calls[calls.len() - 1] is Finish);
            },
        }
        let first = choose|cuts: Seq<CutView>| #[trigger]
            committed(empty_store(cfg), before.store, cfg, cuts) && plain_cuts(cuts);
        let second = choose|cuts: Seq<CutView>| #[trigger]
            committed(open.store, after.store, cfg, cuts) && (plain_ready(open) ==> plain_cuts(cuts));
        lemma_stored_twice(empty_store(cfg), cfg, first, second);
        assert(committed(empty_store(cfg), after.store, cfg, first + second));
    }
}

proof fn lemma_stored_segments(cfg: ConfigView, cuts: Seq<CutView>)
    requires
        plain_cuts(cuts),
    ensures
        ({
            let store = stored_all(empty_store(cfg), cfg, cuts);
            &&& store.next_seq == if cuts.len() < u64::MAX {
                cuts.len() as int
            } else {
                u64::MAX as int
            }
            &&& forall|i: int|
                0 <= i < store.segments.len() ==> is_committed(cfg, #[trigger] store.segments[i])
        }),
    decreases cuts.len(),
{
    if cuts.len() > 0 {
        let earlier = cuts.drop_last();
        let before = stored_all(empty_store(cfg), cfg, earlier);
        let grown = appended(before, cfg, cuts.last());
        lemma_stored_segments(cfg, earlier);
        assert(cuts[cuts.len() - 1] == cuts.last());
        assert forall|i: int| 0 <= i < grown.segments.len() implies is_committed(
            cfg,
            #[trigger] grown.segments[i],
        ) by {
            if i < before.segments.len() {
                assert(grown.segments[i] == before.segments[i]);
            } else {
                assert(grown.segments[i].name == segment_name(cfg, before.next_seq as nat));
            }
        }
        if let Some(window) = cfg.window {
            lemma_windowed_segments(cfg, grown, window as nat);
        }
    }
}

proof fn lemma_windowed_segments(cfg: ConfigView, store: StoreView, window: nat)
    requires
        forall|i: int|
            0 <= i < store.segments.len() ==> is_committed(cfg, #[trigger] store.segments[i]),
    ensures
        windowed(store, window).next_seq == store.next_seq,
        forall|i: int|
            0 <= i < windowed(store, window).segments.len() ==> is_committed(
                cfg,
                #[trigger] windowed(store, window).segments[i],
            ),
    decreases store.segments.len(),
{
    if store.segments.len() > window {
        let next = rolled_off(store);
        assert forall|i: int| 0 <= i < next.segments.len() implies is_committed(
            cfg,
            #[trigger] next.segments[i],
        ) by {
            assert(next.segments[i] == store.segments[i + 1]);
        }
        lemma_windowed_segments(cfg, next, window);
    }
}

/// After any calls, the playlist of a session ends with the end tag if and only
/// if it is a VOD session whose input was ended.
pub proof fn playlists_end_when_the_input_does(cfg: ConfigView, calls: Seq<SessionCall>)
    ensures
        ({
            let session = session_after(cfg, calls);
            ends_with(
                playlist_text(session.cfg, session.store, session.finished),
                "#EXT-X-ENDLIST\n"@,
            ) <==> cfg.window is None && ends_input(calls)
        }),
{
    let session = session_after(cfg, calls);
    sessions_commit_in_order(cfg, calls);
    let cuts = choose|cuts: Seq<CutView>| #[trigger]
        committed(empty_store(cfg), session.store, cfg, cuts) && plain_cuts(cuts);
    lemma_stored_segments(cfg, cuts);
    assert forall|i: int| 0 <= i < session.store.segments.len() implies ends_with(
        (#[trigger] session.store.segments[i]).name,
        ".ts"@,
    ) by {
        let number = choose|number: nat|
            session.store.segments[i].name == #[trigger] segment_name(cfg, number);
        segment_names_end_alike(cfg, number);
    }
    finished_vod_playlists_end_with_the_end_tag(cfg, session.store, session.finished);
}

/// After any calls, the playlist of a session holds the end tag if and only if
/// it is a VOD session whose input was ended, and the VOD type if and only if
/// nothing rolls off. The one other place where either text can stand is the
/// prefix of the names, once a segment is listed.
pub proof fn playlists_hold_the_tags_that_are_due(cfg: ConfigView, calls: Seq<SessionCall>)
    ensures
        ({
            let session = session_after(cfg, calls);
            let text = playlist_text(session.cfg, session.store, session.finished);
            let listed = session.store.segments.len() > 0;
            &&& holds_text(text, "#EXT-X-ENDLIST"@) <==> (cfg.window is None && ends_input(calls))
                || (listed && holds_text(cfg.uri_prefix, "#EXT-X-ENDLIST"@))
            &&& holds_text(text, "#EXT-X-PLAYLIST-TYPE:VOD"@) <==> (cfg.window is None) || (listed
                && holds_text(cfg.uri_prefix, "#EXT-X-PLAYLIST-TYPE:VOD"@))
        }),
{
    let session = session_after(cfg, calls);
    sessions_commit_in_order(cfg, calls);
    let cuts = choose|cuts: Seq<CutView>| #[trigger]
        committed(empty_store(cfg), session.store, cfg, cuts) && plain_cuts(cuts);
    lemma_stored_segments(cfg, cuts);
    only_vod_playlists_are_closed(cfg, session.store, session.finished);
}

/// After any calls, the playlist of a session gives the number of segments that
/// are gone as that of the first one; the lines of those that are left follow,
/// oldest first, no more than the window holds, under consecutive numbers; and
/// each of them is served under the name by which it is listed. This is claimed
/// for as many segments as the counter can number.
pub proof fn playlists_list_what_is_served(cfg: ConfigView, calls: Seq<SessionCall>)
    requires
        session_after(cfg, calls).store.next_seq < u64::MAX,
    ensures
        ({
            let session = session_after(cfg, calls);
            let store = session.store;
            let text = playlist_text(session.cfg, store, session.finished);
            let gone = store.next_seq - store.segments.len();
            &&& exists|cuts: Seq<CutView>| #[trigger]
                committed(empty_store(cfg), store, cfg, cuts) && cuts.len() == store.next_seq
            &&& store.segments.len() == listed_count(cfg, store.next_seq as nat)
            &&& store.media_sequence == gone
            &&& holds_text(text, number_line("#EXT-X-MEDIA-SEQUENCE:"@, gone as u64))
            &&& text == playlist_head(cfg, store) + all_segment_lines(store.segments)
                + playlist_tail(cfg, session.finished)
            &&& forall|i: int|
                0 <= i < store.segments.len() ==> (#[trigger] store.segments[i]).name
                    == segment_name(cfg, (gone + i) as nat) && find_segment(
                    store.segments,
                    store.segments[i].name,
                ) == Some(store.segments[i])
        }),
{
    let session = session_after(cfg, calls);
    let store = session.store;
    sessions_commit_in_order(cfg, calls);
    let cuts = choose|cuts: Seq<CutView>| #[trigger]
        committed(empty_store(cfg), store, cfg, cuts) && plain_cuts(cuts);
    lemma_stored_segments(cfg, cuts);
    playlist_lists_the_newest_segments(cfg, cuts);
    playlist_tells_its_first_number(cfg, store, session.finished);
    empty_store_is_valid(cfg);
    committing_keeps_the_store_valid(cfg, empty_store(cfg), cuts);
    assert forall|i: int| 0 <= i < store.segments.len() implies find_segment(
        store.segments,
        (#[trigger] store.segments[i]).name,
    ) == Some(store.segments[i]) by {
        listed_segments_are_served(cfg, store, i);
    }
}

} // verus!
