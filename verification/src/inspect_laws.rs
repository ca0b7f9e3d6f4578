//! What holds of the reports on a capture.

use vstd::arithmetic::power2::lemma2_to64;
use vstd::prelude::*;
use crate::bits::{field, lemma_field_range};
use crate::bridge::helpers::lossy_text;
use crate::bridge::probe::{tracks_in, tracks_run, tracks_step};
use crate::engine::TrackInfo;
use crate::inspect::{
    activity_after, activity_step, audio_label, entries_below, entry_lines, events_in,
    histogram_text, map_after, map_text, packet_pid, packets_with, shows_page, stream_lines, summary_after,
    ActivityView, MapView, SummaryView,
};
use crate::text::{decimal_text, hex_text};
use crate::ts::codec::{audio_codec_name, video_codec_name, AudioCodec, TrackKind, VideoCodec};
use crate::ts::demux::{event_of, raised_by_feed, raised_by_finish, EventView, SampleView};
use crate::ts::pixel_laws::{fields_join, whole_bytes_are_read};
use crate::ts::track::{meta_of, Codec, TrackView};

verus! {

// ---------------------------------------------------------------------------
// The histogram
// ---------------------------------------------------------------------------

/// The PID of a packet that begins with the sync byte is the thirteen bits from
/// the twelfth on; packets are 188 bytes long.
pub proof fn pids_are_thirteen_bits(data: Seq<u8>, i: int)
    requires
        0 <= i,
        188 * (i + 1) <= data.len(),
    ensures
        data[188 * i] != 0x47 ==> packet_pid(data, i) is None,
        data[188 * i] == 0x47 ==> (packet_pid(data, i) matches Some(pid) && pid == field(
            data,
            8 * (188 * i) + 11,
            13,
        )),
{
    let at = 188 * i;
    lemma2_to64();
    whole_bytes_are_read(data, at + 1);
    whole_bytes_are_read(data, at + 2);
    assert(8 * (at + 1) == 8 * at + 8);
    assert(8 * (at + 2) == 8 * at + 16);
    fields_join(data, 8 * at + 8, 3, 5);
    fields_join(data, 8 * at + 11, 5, 8);
    lemma_field_range(data, 8 * at + 8, 3);
    lemma_field_range(data, 8 * at + 11, 5);
}

/// Each packet counts once, for its own PID: one more packet adds one to the
/// count of its PID and nothing to any other.
pub proof fn packets_count_for_their_pid(data: Seq<u8>, pid: u16, n: nat)
    ensures
        packets_with(data, pid, 0) == 0,
        packet_pid(data, n as int) == Some(pid) ==> packets_with(data, pid, n + 1) == packets_with(
            data,
            pid,
            n,
        ) + 1,
        packet_pid(data, n as int) != Some(pid) ==> packets_with(data, pid, n + 1) == packets_with(
            data,
            pid,
            n,
        ),
{
}

/// The entries of a histogram are listed by PID, lowest first, each once, with
/// its count; none is left out.
pub proof fn entries_are_listed_by_pid(hist: Map<u16, u64>, n: nat, i: int, j: int, pid: u16)
    requires
        n <= 65536,
    ensures
        0 <= i < j < entries_below(hist, n).len() ==> entries_below(hist, n)[i].0 < entries_below(
            hist,
            n,
        )[j].0,
        0 <= i < entries_below(hist, n).len() ==> hist.contains_key(entries_below(hist, n)[i].0)
            && hist[entries_below(hist, n)[i].0] == entries_below(hist, n)[i].1
            && entries_below(hist, n)[i].0 < n,
        pid < n && hist.contains_key(pid) ==> entries_below(hist, n).contains((pid, hist[pid])),
    decreases n,
{
    if n > 0 {
        let before = entries_below(hist, (n - 1) as nat);
        let all = entries_below(hist, n);
        entries_are_listed_by_pid(hist, (n - 1) as nat, i, j, pid);
        if 0 <= i < before.len() {
            entries_are_listed_by_pid(hist, (n - 1) as nat, i, i, pid);
        }
        if pid < n - 1 && hist.contains_key(pid) {
            let k = choose|k: int| 0 <= k < before.len() && before[k] == (pid, hist[pid]);
            assert(all[k] == (pid, hist[pid]));
        } else if pid == n - 1 && hist.contains_key(pid) {
            assert(all[all.len() - 1] == (pid, hist[pid]));
        }
    }
}

/// What a capture tells is all that its bytes raise, and then all that the end
/// of input raises.
pub proof fn captures_are_read_to_the_end(data: Seq<u8>, i: int)
    ensures
        events_in(data).len() == raised_by_feed(Seq::empty(), data).len() + raised_by_finish(
            seq![Some(data)],
        ).len(),
        0 <= i < raised_by_feed(Seq::empty(), data).len() ==> events_in(data)[i] == event_of(
            raised_by_feed(Seq::empty(), data)[i],
        ),
        0 <= i < raised_by_finish(seq![Some(data)]).len() ==> events_in(data)[raised_by_feed(
            Seq::empty(),
            data,
        ).len() + i] == event_of(raised_by_finish(seq![Some(data)])[i]),
        tracks_in(data) == tracks_run(Seq::empty(), events_in(data)),
{
    lemma_tracks_in_turn(
        Seq::empty(),
        crate::ts::demux::events_on_feed(Seq::empty(), data),
        crate::ts::demux::events_on_finish(seq![Some(data)]),
    );
}

proof fn lemma_tracks_in_turn(
    tracks: Seq<TrackInfo>,
    first: Seq<EventView>,
    rest: Seq<EventView>,
)
    ensures
        tracks_run(tracks, first + rest) == tracks_run(tracks_run(tracks, first), rest),
    decreases first.len(),
{
    if first.len() == 0 {
        assert(first + rest =~= rest);
    } else {
        assert((first + rest).drop_first() =~= first.drop_first() + rest);
        lemma_tracks_in_turn(tracks_step(tracks, first[0]), first.drop_first(), rest);
    }
}

// ---------------------------------------------------------------------------
// Tracks
// ---------------------------------------------------------------------------

/// The tracks that are announced among events, in order.
pub open spec fn announced(events: Seq<EventView>) -> Seq<TrackView>
    decreases events.len(),
{
    if events.len() == 0 {
        Seq::empty()
    } else {
        let rest = announced(events.drop_first());
        match events[0] {
            EventView::TrackAdded(track) => seq![track] + rest,
            _ => rest,
        }
    }
}

/// Whether a track is audio.
pub open spec fn is_audio(track: TrackView) -> bool {
    meta_of(track).kind is Audio
}

/// Whether a track is video.
pub open spec fn is_video(track: TrackView) -> bool {
    meta_of(track).kind is Video
}

/// The audio tracks among tracks, in order.
pub open spec fn audio_among(tracks: Seq<TrackView>) -> Seq<TrackView>
    decreases tracks.len(),
{
    if tracks.len() == 0 {
        Seq::empty()
    } else if is_audio(tracks[0]) {
        seq![tracks[0]] + audio_among(tracks.drop_first())
    } else {
        audio_among(tracks.drop_first())
    }
}

/// The PID of a track, zero without one.
pub open spec fn pid_or_zero(track: TrackView) -> u16 {
    match meta_of(track).pid {
        Some(pid) => pid,
        None => 0,
    }
}

/// A channel map lists each announced audio track with its PID and codec, in
/// order, and the first announced video track with its own. A map that knows
/// its video track keeps it.
pub proof fn maps_list_the_announced_tracks(map: MapView, events: Seq<EventView>)
    ensures
        ({
            let after = map_after(map, events);
            let audio = audio_among(announced(events));
            let n = map.audio_streams.len();
            &&& after.audio_streams.len() == n + audio.len()
            &&& forall|i: int|
                0 <= i < n ==> after.audio_streams[i] == #[trigger] map.audio_streams[i]
            &&& forall|i: int|
                0 <= i < audio.len() ==> (#[trigger] after.audio_streams[n + i]).0 == pid_or_zero(
                    audio[i],
                ) && TrackKind::Audio(after.audio_streams[n + i].1) == meta_of(audio[i]).kind
            &&& map.video is Some ==> after.video == map.video
        }),
    decreases events.len(),
{
    if events.len() > 0 {
        let rest = events.drop_first();
        let n = map.audio_streams.len();
        match events[0] {
            EventView::TrackAdded(track) => {
                let next = crate::inspect::map_with(map, meta_of(track));
                maps_list_the_announced_tracks(next, rest);
                let all = announced(events);
                assert(all.drop_first() =~= announced(rest));
                assert(all[0] == track);
                let after = map_after(map, events);
                let audio = audio_among(all);
                let later = audio_among(announced(rest));
                assert forall|i: int| 0 <= i < n implies after.audio_streams[i]
                    == #[trigger] map.audio_streams[i] by {
                    assert(next.audio_streams[i] == map.audio_streams[i]);
                }
                if is_audio(track) {
                    assert forall|i: int| 0 <= i < audio.len() implies (
                    #[trigger] after.audio_streams[n + i]).0 == pid_or_zero(audio[i])
                        && TrackKind::Audio(after.audio_streams[n + i].1) == meta_of(
                        audio[i],
                    ).kind by {
                        if i == 0 {
                            assert(after.audio_streams[n as int] == next.audio_streams[n as int]);
                        } else {
                            assert(audio[i] == later[i - 1]);
                            assert(after.audio_streams[next.audio_streams.len() + (i - 1)]
                                == after.audio_streams[n + i]);
                        }
                    }
                }
            },
            _ => {
                maps_list_the_announced_tracks(map, rest);
            },
        }
    }
}

/// The first video track that is announced is the one of the map, with its PID
/// and its codec.
pub proof fn first_video_is_mapped(map: MapView, track: TrackView, rest: Seq<EventView>)
    requires
        map.video is None,
        is_video(track),
    ensures
        map_after(map, seq![EventView::TrackAdded(track)] + rest).video matches Some((pid, codec))
            && pid == pid_or_zero(track) && TrackKind::Video(codec) == meta_of(track).kind,
{
    let events = seq![EventView::TrackAdded(track)] + rest;
    assert(events.drop_first() =~= rest);
    assert(events[0] == EventView::TrackAdded(track));
    maps_list_the_announced_tracks(crate::inspect::map_with(map, meta_of(track)), rest);
}

/// A summary takes a track in by its kind: an audio track behind the others
/// with its PID, the name of its codec and its language, the first of them
/// being the default; a subtitle track behind the others; the first video track
/// with its codec and its picture size. Nothing that it holds changes.
pub proof fn summaries_take_tracks_in(summary: SummaryView, track: TrackView)
    ensures
        ({
            let after = summary_after(summary, seq![EventView::TrackAdded(track)]);
            let meta = meta_of(track);
            &&& meta.kind matches TrackKind::Audio(codec) ==> {
                &&& after.audio.len() == summary.audio.len() + 1
                &&& after.audio.drop_last() == summary.audio
                &&& after.audio.last().pid == pid_or_zero(track)
                &&& after.audio.last().codec == audio_codec_name(codec)
                &&& meta.language matches Some(code) ==> after.audio.last().lang == Some(
                    lossy_text(code@),
                )
                &&& meta.language is None ==> after.audio.last().lang is None
                &&& after.default_audio_pid == if summary.default_audio_pid is Some {
                    summary.default_audio_pid
                } else {
                    Some(pid_or_zero(track))
                }
                &&& after.subtitle == summary.subtitle
                &&& after.video == summary.video
            }
            &&& meta.kind is Subtitle ==> {
                &&& after.subtitle.len() == summary.subtitle.len() + 1
                &&& after.subtitle.drop_last() == summary.subtitle
                &&& after.subtitle.last().pid == pid_or_zero(track)
                &&& meta.language matches Some(code) ==> after.subtitle.last().lang == Some(
                    lossy_text(code@),
                )
                &&& meta.language is None ==> after.subtitle.last().lang is None
                &&& after.subtitle.last().codec == "DVBSUB"@
                &&& after.default_audio_pid == summary.default_audio_pid
                &&& after.audio == summary.audio
                &&& after.video == summary.video
            }
            &&& meta.kind matches TrackKind::Video(codec) ==> {
                &&& after.audio == summary.audio
                &&& after.subtitle == summary.subtitle
                &&& after.default_audio_pid == summary.default_audio_pid
                &&& summary.video is Some ==> after.video == summary.video
                &&& summary.video is None ==> (after.video matches Some(video) && {
                    &&& video.codec == video_codec_name(codec)
                    &&& track.codec matches Codec::Avc { width, height } ==> video.width == width
                        && video.height == height
                    &&& track.codec matches Codec::Hevc { width, height } ==> video.width == width
                        && video.height == height
                    &&& !(track.codec is Avc) && !(track.codec is Hevc) ==> video.width == 0
                        && video.height == 0
                })
            }
            &&& meta.kind is Other ==> after == summary
        }),
{
    let events = seq![EventView::TrackAdded(track)];
    reveal_with_fuel(summary_after, 2);
    assert(events.drop_first() =~= Seq::empty());
    let after = summary_after(summary, events);
    if meta_of(track).kind is Audio {
        assert(after.audio.drop_last() =~= summary.audio);
    }
    if meta_of(track).kind is Subtitle {
        assert(after.subtitle.drop_last() =~= summary.subtitle);
    }
}

// ---------------------------------------------------------------------------
// Subtitle activity
// ---------------------------------------------------------------------------

/// A data field that begins with a page composition of more than its two fixed
/// bytes shows a page, whatever follows; one that begins with another segment
/// shows what the segments behind that one show.
pub proof fn page_compositions_show_a_page(
    kind: u8,
    page: Seq<u8>,
    body: Seq<u8>,
    rest: Seq<u8>,
)
    requires
        page.len() == 2,
        body.len() <= 0xffff,
    ensures
        ({
            let length = seq![(body.len() / 256) as u8, (body.len() % 256) as u8];
            let data = seq![0x20u8, 0u8] + (seq![0x0fu8, kind] + page + length) + body + rest;
            &&& kind == 0x10 && body.len() > 2 ==> shows_page(data)
            &&& !(kind == 0x10 && body.len() > 2) ==> shows_page(data) == shows_page(
                seq![0x20u8, 0u8] + rest,
            )
        }),
{
    let length = seq![(body.len() / 256) as u8, (body.len() % 256) as u8];
    let head = seq![0x0fu8, kind] + page + length;
    let front = seq![0x20u8, 0u8] + head + body;
    let data = front + rest;
    assert(data =~= seq![0x20u8, 0u8] + head + body + rest);
    assert(head.len() == 6);
    assert(data[2] == 0x0f && data[3] == kind && data[6] == length[0] && data[7] == length[1]);
    let plain = seq![0x20u8, 0u8] + rest;
    assert(plain[0] == 0x20 && plain[1] == 0);
    lemma_page_shift(front, rest, 0);
    lemma_page_shift(seq![0x20u8, 0u8], rest, 0);
}

proof fn lemma_page_shift(front: Seq<u8>, rest: Seq<u8>, at: int)
    requires
        0 <= at,
    ensures
        crate::inspect::page_from(front + rest, front.len() + at) == crate::inspect::page_from(
            rest,
            at,
        ),
    decreases rest.len() - at,
{
    if at + 6 <= rest.len() {
        let data = front + rest;
        let n = front.len();
        assert(data[n + at] == rest[at] && data[n + at + 1] == rest[at + 1] && data[n + at + 4]
            == rest[at + 4] && data[n + at + 5] == rest[at + 5]);
        let len = rest[at + 4] * 256 + rest[at + 5];
        if at + 6 + len <= rest.len() {
            lemma_page_shift(front, rest, at + 6 + len);
        }
    }
}

/// A sample of an announced subtitle track that shows a page, with a time that
/// is not negative, is logged behind the others with the PID of its track and
/// that time. Any other sample is not logged.
pub proof fn shown_pages_are_logged(
    state: ActivityView,
    track_id: u32,
    sample: SampleView,
    track: TrackView,
)
    ensures
        ({
            let after = activity_step(state, EventView::Sample { track_id, sample });
            let logs = state.subtitle_pids.contains_key(track_id) && shows_page(sample.data) && (
            sample.pts matches Some(pts) && pts >= 0);
            &&& logs ==> {
                &&& after.activity.len() == state.activity.len() + 1
                &&& after.activity.drop_last() == state.activity
                &&& after.activity.last().pid == state.subtitle_pids[track_id]
                &&& after.activity.last().pts_ticks == sample.pts->0
            }
            &&& !logs ==> after == state
        }),
        ({
            let after = activity_step(state, EventView::TrackAdded(track));
            &&& after.activity == state.activity
            &&& meta_of(track).kind is Subtitle ==> after.subtitle_pids.contains_key(track.track_id)
                && after.subtitle_pids[track.track_id] == pid_or_zero(track)
            &&& !(meta_of(track).kind is Subtitle) ==> after == state
        }),
{
    let after = activity_step(state, EventView::Sample { track_id, sample });
    if after.activity.len() > state.activity.len() {
        assert(after.activity.drop_last() =~= state.activity);
    }
}

/// Activity is collected event by event, in order.
pub proof fn activity_runs_in_turn(
    state: ActivityView,
    first: Seq<EventView>,
    rest: Seq<EventView>,
)
    ensures
        activity_after(state, first + rest) == activity_after(activity_after(state, first), rest),
        first.len() == 1 ==> activity_after(state, first) == activity_step(state, first[0]),
        first.len() == 0 ==> activity_after(state, first) == state,
    decreases first.len(),
{
    if first.len() == 0 {
        assert(first + rest =~= rest);
    } else {
        assert((first + rest).drop_first() =~= first.drop_first() + rest);
        activity_runs_in_turn(activity_step(state, first[0]), first.drop_first(), rest);
    }
}

// ---------------------------------------------------------------------------
// The printed reports
// ---------------------------------------------------------------------------

/// The entries of a histogram are printed one to a line, in their order, each
/// with its PID and its count.
pub proof fn entries_are_printed_in_order(
    a: Seq<(u16, u64)>,
    b: Seq<(u16, u64)>,
    pid: u16,
    count: u64,
)
    ensures
        entry_lines(a + b) == entry_lines(a) + entry_lines(b),
        entry_lines(seq![(pid, count)]) == "  PID "@ + hex_text(pid) + ": "@ + decimal_text(
            count as nat,
        ) + "\n"@,
        entry_lines(Seq::empty()).len() == 0,
    decreases b.len(),
{
    let one = seq![(pid, count)];
    assert(one.drop_last() =~= Seq::empty());
    assert(entry_lines(one.drop_last()) =~= Seq::empty());
    assert(entry_lines(one) =~= "  PID "@ + hex_text(pid) + ": "@ + decimal_text(count as nat)
        + "\n"@);
    if b.len() == 0 {
        assert(a + b =~= a);
        assert(entry_lines(a) + entry_lines(b) =~= entry_lines(a));
    } else {
        entries_are_printed_in_order(a, b.drop_last(), pid, count);
        assert((a + b).drop_last() =~= a + b.drop_last());
        assert((a + b).last() == b.last());
        assert(entry_lines(a + b) =~= entry_lines(a) + entry_lines(b));
    }
}

/// A histogram is printed behind its capture's path, the number of packets and
/// the number of PIDs.
pub proof fn histograms_are_printed_with_their_totals(
    path: Seq<char>,
    packets: u64,
    entries: Seq<(u16, u64)>,
)
    ensures
        ({
            let head = path + ": "@ + decimal_text(packets as nat) + " packets, "@ + decimal_text(
                entries.len(),
            ) + " distinct PIDs\n"@;
            let text = histogram_text(path, packets, entries);
            &&& text.take(head.len() as int) == head
            &&& text.skip(head.len() as int) == entry_lines(entries)
        }),
{
    let head = path + ": "@ + decimal_text(packets as nat) + " packets, "@ + decimal_text(
        entries.len(),
    ) + " distinct PIDs\n"@;
    let text = histogram_text(path, packets, entries);
    assert(text =~= head + entry_lines(entries));
    assert(text.take(head.len() as int) =~= head);
    assert(text.skip(head.len() as int) =~= entry_lines(entries));
}

/// The audio streams of a channel map are printed one to a line, in their
/// order, each with its PID and its codec.
pub proof fn streams_are_printed_in_order(
    a: Seq<(u16, AudioCodec)>,
    b: Seq<(u16, AudioCodec)>,
    pid: u16,
)
    ensures
        stream_lines(a + b) == stream_lines(a) + stream_lines(b),
        stream_lines(seq![(pid, AudioCodec::Ac3)]) == "  audio PID "@ + hex_text(pid) + " ("@
            + "Ac3"@ + ")\n"@,
        stream_lines(seq![(pid, AudioCodec::EAc3)]) == "  audio PID "@ + hex_text(pid) + " ("@
            + "EAc3"@ + ")\n"@,
        stream_lines(seq![(pid, AudioCodec::Mp2)]) == "  audio PID "@ + hex_text(pid) + " ("@
            + "Mp2"@ + ")\n"@,
        stream_lines(Seq::empty()).len() == 0,
    decreases b.len(),
{
    lemma_one_stream(pid, AudioCodec::Ac3);
    lemma_one_stream(pid, AudioCodec::EAc3);
    lemma_one_stream(pid, AudioCodec::Mp2);
    if b.len() == 0 {
        assert(a + b =~= a);
        assert(stream_lines(a) + stream_lines(b) =~= stream_lines(a));
    } else {
        streams_are_printed_in_order(a, b.drop_last(), pid);
        assert((a + b).drop_last() =~= a + b.drop_last());
        assert((a + b).last() == b.last());
        assert(stream_lines(a + b) =~= stream_lines(a) + stream_lines(b));
    }
}

proof fn lemma_one_stream(pid: u16, codec: AudioCodec)
    ensures
        stream_lines(seq![(pid, codec)]) == "  audio PID "@ + hex_text(pid) + " ("@ + audio_label(
            codec,
        ) + ")\n"@,
{
    let one = seq![(pid, codec)];
    assert(one.drop_last() =~= Seq::empty());
    assert(stream_lines(one.drop_last()) =~= Seq::empty());
    assert(stream_lines(one) =~= "  audio PID "@ + hex_text(pid) + " ("@ + audio_label(codec)
        + ")\n"@);
}

/// A channel map is printed with its video stream first.
pub proof fn maps_are_printed_video_first(pid: u16, streams: Seq<(u16, AudioCodec)>)
    ensures
        map_text(pid, VideoCodec::H264, streams) == "Channel map: video PID "@ + hex_text(pid)
            + " ("@ + "H264"@ + ")\n"@ + stream_lines(streams),
        map_text(pid, VideoCodec::H265, streams) == "Channel map: video PID "@ + hex_text(pid)
            + " ("@ + "H265"@ + ")\n"@ + stream_lines(streams),
{
}

} // verus!
