//! What holds of the channel map of a stream, and of the media segments that
//! are read.

use vstd::prelude::*;
use crate::bridge::helpers::{decode_time_from, samples_before};
use crate::bridge::probe::{
    audio_codecs_of, audio_pids_of, channel_map, first_video, tracks_run,
};
use crate::engine::{engine_run, EngineView, TrackInfo};
use crate::ts::codec::{audio_codec_name, video_codec_name, TrackKind};
use crate::ts::demux::EventView;

verus! {

// ---------------------------------------------------------------------------
// The channel map
// ---------------------------------------------------------------------------

/// The PID of a track, zero without one.
pub open spec fn pid_or_zero(track: TrackInfo) -> u16 {
    match track.pid {
        Some(pid) => pid,
        None => 0,
    }
}

/// There is a map if and only if there is a video and an audio track. It gives
/// the PID and the codec of the first video track.
pub proof fn maps_need_video_and_audio(tracks: Seq<TrackInfo>, v: int, a: int)
    ensures
        (forall|i: int| 0 <= i < tracks.len() ==> !((#[trigger] tracks[i]).kind is Video))
            ==> channel_map(tracks) is None,
        (forall|i: int| 0 <= i < tracks.len() ==> !((#[trigger] tracks[i]).kind is Audio))
            ==> channel_map(tracks) is None,
        0 <= v < tracks.len() && 0 <= a < tracks.len() && tracks[v].kind is Video && tracks[a].kind
            is Audio && (forall|i: int| 0 <= i < v ==> !((#[trigger] tracks[i]).kind is Video)) ==> (
        channel_map(tracks) matches Some(map) && map.video_pid == pid_or_zero(tracks[v]) && (
        tracks[v].kind matches TrackKind::Video(codec) ==> map.video_codec == video_codec_name(
            codec,
        )) && map.audio_pids == audio_pids_of(tracks) && map.audio_codecs == audio_codecs_of(
            tracks,
        )),
{
    lemma_first_video(tracks, 0, v);
    lemma_audio_count(tracks, a);
}

proof fn lemma_first_video(tracks: Seq<TrackInfo>, from: int, v: int)
    requires
        0 <= from,
    ensures
        (forall|i: int| from <= i < tracks.len() ==> !((#[trigger] tracks[i]).kind is Video))
            ==> first_video(tracks, from) is None,
        from <= v < tracks.len() && tracks[v].kind is Video && (forall|i: int|
            from <= i < v ==> !((#[trigger] tracks[i]).kind is Video)) ==> first_video(tracks, from)
            == Some(tracks[v]),
    decreases tracks.len() - from,
{
    if from < tracks.len() {
        lemma_first_video(tracks, from + 1, v);
    }
}

proof fn lemma_audio_count(tracks: Seq<TrackInfo>, a: int)
    ensures
        (forall|i: int| 0 <= i < tracks.len() ==> !((#[trigger] tracks[i]).kind is Audio))
            ==> audio_pids_of(tracks).len() == 0,
        0 <= a < tracks.len() && tracks[a].kind is Audio ==> audio_pids_of(tracks).len() > 0,
    decreases tracks.len(),
{
    if tracks.len() > 0 {
        let rest = tracks.drop_last();
        lemma_audio_count(rest, a);
        assert(tracks[tracks.len() - 1] == tracks.last());
        if forall|i: int| 0 <= i < tracks.len() ==> !((#[trigger] tracks[i]).kind is Audio) {
            assert forall|i: int| 0 <= i < rest.len() implies !((#[trigger] rest[i]).kind is Audio) by {
                assert(!(tracks[i].kind is Audio));
            }
        }
        if 0 <= a < tracks.len() - 1 {
            assert(rest[a] == tracks[a]);
        }
    }
}

/// Audio tracks are listed in the order of the tracks, each with its PID and
/// its codec at the same place of both lists; other tracks are not listed.
pub proof fn audio_is_listed_in_order(tracks: Seq<TrackInfo>, track: TrackInfo)
    ensures
        audio_pids_of(Seq::<TrackInfo>::empty()).len() == 0,
        audio_codecs_of(Seq::<TrackInfo>::empty()).len() == 0,
        track.kind matches TrackKind::Audio(codec) ==> {
            let pids = audio_pids_of(tracks.push(track));
            let codecs = audio_codecs_of(tracks.push(track));
            &&& pids.len() == audio_pids_of(tracks).len() + 1
            &&& pids.drop_last() == audio_pids_of(tracks)
            &&& pids.last() == pid_or_zero(track)
            &&& codecs.len() == audio_codecs_of(tracks).len() + 1
            &&& codecs.drop_last() == audio_codecs_of(tracks)
            &&& codecs.last() == audio_codec_name(codec)
        },
        !(track.kind is Audio) ==> audio_pids_of(tracks.push(track)) == audio_pids_of(tracks)
            && audio_codecs_of(tracks.push(track)) == audio_codecs_of(tracks),
{
    assert(tracks.push(track).drop_last() =~= tracks);
    if track.kind is Audio {
        assert(audio_pids_of(tracks.push(track)).drop_last() =~= audio_pids_of(tracks));
        assert(audio_codecs_of(tracks.push(track)).drop_last() =~= audio_codecs_of(tracks));
    }
}

/// The tracks that are mapped are those that an engine lists, whatever events
/// come.
pub proof fn mapped_tracks_are_the_engines(engine: EngineView, events: Seq<EventView>)
    ensures
        engine_run(engine, events).tracks == tracks_run(engine.tracks, events),
    decreases events.len(),
{
    if events.len() > 0 {
        mapped_tracks_are_the_engines(
            crate::engine::engine_step(engine, events[0]),
            events.drop_first(),
        );
    }
}

// ---------------------------------------------------------------------------
// Media segments
// ---------------------------------------------------------------------------

/// The bytes of a number, most significant first.
pub open spec fn big_endian(n: nat, len: nat) -> Seq<u8>
    decreases len,
{
    if len == 0 {
        Seq::empty()
    } else {
        big_endian(n / 256, (len - 1) as nat).push((n % 256) as u8)
    }
}

proof fn lemma_big_endian4(n: nat)
    requires
        n <= u32::MAX,
    ensures
        ({
            let b = big_endian(n, 4);
            &&& b.len() == 4
            &&& b[0] * 0x100_0000 + b[1] * 0x1_0000 + b[2] * 0x100 + b[3] == n
        }),
{
    reveal_with_fuel(big_endian, 5);
    let b = big_endian(n, 4);
    assert(b[3] == n % 256);
    assert(b[2] == n / 256 % 256);
    assert(b[1] == n / 256 / 256 % 256);
    assert(b[0] == n / 256 / 256 / 256 % 256);
}

/// Whether `kind` stands in `data` at no place below `n` other than `at`.
pub open spec fn only_at(data: Seq<u8>, kind: Seq<u8>, at: int, n: int) -> bool {
    forall|i: int| 0 <= i < n && i != at ==> #[trigger] data.subrange(i, i + 4) != kind
}

/// The decode time of a media segment is the number in its track fragment
/// decode time box: four bytes behind the type, the version and the flags, or
/// eight where the version is one. What stands before the box does not matter
/// as long as it is no such box, and nor does what follows.
pub proof fn decode_times_are_read_from_their_box(
    data: Seq<u8>,
    front: Seq<u8>,
    version: u8,
    flags: Seq<u8>,
    high: u32,
    low: u32,
    rest: Seq<u8>,
)
    requires
        flags.len() == 3,
        version != 1 ==> data == front + seq![0x74u8, 0x66u8, 0x64u8, 0x74u8] + seq![version]
            + flags + big_endian(low as nat, 4) + rest,
        version == 1 ==> data == front + seq![0x74u8, 0x66u8, 0x64u8, 0x74u8] + seq![version]
            + flags + big_endian(high as nat, 4) + big_endian(low as nat, 4) + rest,
        only_at(
            data,
            seq![0x74u8, 0x66u8, 0x64u8, 0x74u8],
            front.len() as int,
            front.len() as int,
        ),
    ensures
        version != 1 ==> decode_time_from(data, 0) == low,
        version == 1 ==> decode_time_from(data, 0) == 0x1_0000_0000 * high + low,
{
    let kind = seq![0x74u8, 0x66u8, 0x64u8, 0x74u8];
    let h = big_endian(high as nat, 4);
    let l = big_endian(low as nat, 4);
    let at = front.len() as int;
    lemma_big_endian4(high as nat);
    lemma_big_endian4(low as nat);
    lemma_no_box_before(data, 0, at);
    assert(data.subrange(at, at + 4) =~= kind);
    assert(data[at + 4] == version);
    if version == 1 {
        assert(data[at + 8] == h[0] && data[at + 9] == h[1] && data[at + 10] == h[2] && data[at
            + 11] == h[3]);
        assert(data[at + 12] == l[0] && data[at + 13] == l[1] && data[at + 14] == l[2] && data[at
            + 15] == l[3]);
    } else {
        assert(data[at + 8] == l[0] && data[at + 9] == l[1] && data[at + 10] == l[2] && data[at
            + 11] == l[3]);
    }
}

proof fn lemma_no_box_before(data: Seq<u8>, from: int, at: int)
    requires
        0 <= from <= at,
        at + 4 <= data.len(),
        only_at(data, seq![0x74u8, 0x66u8, 0x64u8, 0x74u8], at, at),
    ensures
        decode_time_from(data, from) == decode_time_from(data, at),
    decreases at - from,
{
    if from < at {
        assert(!(data.subrange(from, from + 4) == seq![0x74u8, 0x66u8, 0x64u8, 0x74u8]));
        lemma_no_box_before(data, from + 1, at);
    }
}

/// The sample count of a media segment is the number behind the type, version
/// and flags of its track run, where there is one and a box size before it.
pub proof fn sample_counts_are_read_from_their_box(
    data: Seq<u8>,
    front: Seq<u8>,
    flags: Seq<u8>,
    count: u32,
    rest: Seq<u8>,
)
    requires
        front.len() >= 4,
        flags.len() == 4,
        data == front + seq![0x74u8, 0x72u8, 0x75u8, 0x6eu8] + flags + big_endian(count as nat, 4)
            + rest,
        only_at(
            data,
            seq![0x74u8, 0x72u8, 0x75u8, 0x6eu8],
            front.len() as int,
            data.len() - 3,
        ),
    ensures
        samples_before(data, data.len()) == count,
{
    let kind = seq![0x74u8, 0x72u8, 0x75u8, 0x6eu8];
    let number = big_endian(count as nat, 4);
    let at = front.len() as int;
    lemma_big_endian4(count as nat);
    assert(data.subrange(at, at + 4) =~= kind);
    assert(data[at + 8] == number[0] && data[at + 9] == number[1] && data[at + 10] == number[2]
        && data[at + 11] == number[3]);
    assert forall|i: int| 0 <= i < data.len() && i != at implies
        !#[trigger] crate::bridge::helpers::box_type_at(
        data,
        i,
        crate::bridge::helpers::trun(),
    ) by {
        if i + 4 <= data.len() {
            assert(data.subrange(i, i + 4) != kind);
        }
    }
    crate::bridge::helpers::single_run_is_counted(data, at, data.len());
}

} // verus!
