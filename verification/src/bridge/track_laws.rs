//! What holds of the track list whatever a stream announces.

use vstd::prelude::*;
use crate::bridge::dto::{AudioTrackView, SubtitleTrackView};
use crate::bridge::helpers::lossy_text;
use crate::bridge::stream::{
    bridge_run, bridge_step, channels_after, header_channels, new_bridge, sample_seen, BridgeView,
};
use crate::bridge::tracks::{
    audio_listed, by_pid, in_pid_order, list_is_sorted_and_complete, listed_pid, lookup,
    numbers_stay_unique, placed, set_then_get, subtitles_listed, track_list_of, unique_numbers,
    with_entry,
};
use crate::ts::codec::{
    audio_codec_name, video_codec_name, AudioCodec, SubtitleKind, TrackKind, VideoCodec,
};
use crate::ts::demux::EventView;
use crate::ts::track::{meta_of, TrackMeta, TrackView};

verus! {

// ---------------------------------------------------------------------------
// What the events of a stream tell
// ---------------------------------------------------------------------------

/// The track that an event announces or changes.
pub open spec fn told_track(event: EventView) -> Option<TrackView> {
    match event {
        EventView::TrackAdded(track) => Some(track),
        EventView::TrackUpdated(track) => Some(track),
        _ => None,
    }
}

/// Whether an event announces a video track.
pub open spec fn adds_video(event: EventView) -> bool {
    event matches EventView::TrackAdded(track) && meta_of(track).kind is Video
}

/// The tracks that the events tell of, in the order of their first mention.
pub open spec fn tracks_of(events: Seq<EventView>) -> Seq<(u32, TrackMeta)>
    decreases events.len(),
{
    if events.len() == 0 {
        Seq::empty()
    } else {
        let before = tracks_of(events.drop_last());
        match told_track(events.last()) {
            Some(track) => with_entry(before, track.track_id, meta_of(track)),
            None => before,
        }
    }
}

/// The first video track that the events announce.
pub open spec fn first_video(events: Seq<EventView>) -> Option<u32>
    decreases events.len(),
{
    if events.len() == 0 {
        None
    } else {
        match (first_video(events.drop_last()), events.last()) {
            (Some(id), _) => Some(id),
            (None, EventView::TrackAdded(track)) => if meta_of(track).kind is Video {
                Some(track.track_id)
            } else {
                None
            },
            (None, _) => None,
        }
    }
}

/// The PID and the channel count that the event at `at` tells: that of an audio
/// sample whose frame header can be read.
pub open spec fn told_channels(events: Seq<EventView>, at: int) -> Option<(u16, u8)> {
    match events[at] {
        EventView::Sample { track_id, sample } => match lookup(
            tracks_of(events.take(at)),
            track_id,
        ) {
            Some(meta) => match (meta.kind, meta.pid) {
                (TrackKind::Audio(codec), Some(pid)) => match header_channels(codec, sample.data) {
                    Some(channels) => Some((pid, channels)),
                    None => None,
                },
                _ => None,
            },
            None => None,
        },
        _ => None,
    }
}

/// The channel counts that the events tell, by PID; the first one counts.
pub open spec fn channels_of(events: Seq<EventView>) -> Map<u16, u8>
    decreases events.len(),
{
    if events.len() == 0 {
        Map::empty()
    } else {
        let before = channels_of(events.drop_last());
        match told_channels(events, events.len() - 1) {
            Some((pid, channels)) => if before.contains_key(pid) {
                before
            } else {
                before.insert(pid, channels)
            },
            None => before,
        }
    }
}

/// Whether a bridge knows of the tracks what the events tell.
pub open spec fn knows_tracks(bridge: BridgeView, events: Seq<EventView>) -> bool {
    &&& bridge.tracks == tracks_of(events)
    &&& bridge.video_track_id == first_video(events)
    &&& bridge.audio_channels == channels_of(events)
}

proof fn lemma_step_knows(bridge: BridgeView, seen: Seq<EventView>, event: EventView)
    requires
        knows_tracks(bridge, seen),
    ensures
        knows_tracks(bridge_step(bridge, event), seen.push(event)),
{
    let events = seen.push(event);
    assert(events.drop_last() =~= seen);
    assert(events.take(events.len() - 1) =~= seen);
    if let EventView::Sample { track_id, sample } = event {
        if let Some(meta) = lookup(bridge.tracks, track_id) {
            if let TrackKind::Audio(codec) = meta.kind {
                assert(channels_after(bridge.audio_channels, meta.pid, codec, sample.data)
                    =~= channels_of(events));
            }
        }
        assert(sample_seen(bridge, track_id, sample).audio_channels =~= channels_of(events));
    }
}

/// A new bridge knows of no tracks.
pub proof fn new_bridge_knows_no_tracks()
    ensures
        knows_tracks(new_bridge(), Seq::empty()),
{
}

/// Whatever happens between them, events leave a bridge that knows what those
/// before them told knowing what all of them told.
pub proof fn bridges_know_the_tracks_of_their_events(
    bridge: BridgeView,
    seen: Seq<EventView>,
    events: Seq<EventView>,
)
    requires
        knows_tracks(bridge, seen),
    ensures
        knows_tracks(bridge_run(bridge, events), seen + events),
    decreases events.len(),
{
    if events.len() == 0 {
        assert(seen + events =~= seen);
    } else {
        let rest = events.drop_first();
        lemma_step_knows(bridge, seen, events[0]);
        bridges_know_the_tracks_of_their_events(
            bridge_step(bridge, events[0]),
            seen.push(events[0]),
            rest,
        );
        assert(seen.push(events[0]) + rest =~= seen + events);
    }
}

// ---------------------------------------------------------------------------
// The list
// ---------------------------------------------------------------------------

/// No track occurs twice, and those that occur are those that an event told of,
/// with what the last such event told.
pub proof fn tracks_are_those_announced(events: Seq<EventView>, track_id: u32)
    ensures
        unique_numbers(tracks_of(events)),
        match lookup(tracks_of(events), track_id) {
            Some(meta) => exists|i: int|
                {
                    &&& 0 <= i < events.len()
                    &&& #[trigger] told_track(events[i]) matches Some(track) && track.track_id
                        == track_id && meta_of(track) == meta
                    &&& forall|j: int|
                        i < j < events.len() ==> !(#[trigger] told_track(events[j]) matches Some(
                            later,
                        ) && later.track_id == track_id)
                },
            None => forall|i: int|
                0 <= i < events.len() ==> !(#[trigger] told_track(events[i]) matches Some(track)
                    && track.track_id == track_id),
        },
    decreases events.len(),
{
    if events.len() > 0 {
        let earlier = events.drop_last();
        let last = events.len() - 1;
        tracks_are_those_announced(earlier, track_id);
        match told_track(events.last()) {
            Some(track) => {
                numbers_stay_unique(tracks_of(earlier), track.track_id, meta_of(track));
                set_then_get(tracks_of(earlier), track.track_id, meta_of(track), track_id);
                assert(told_track(events[last]) == Some(track));
            },
            None => {},
        }
        assert forall|i: int| 0 <= i < last implies events[i] == earlier[i] by {}
        if told_track(events.last()) matches Some(track) && track.track_id == track_id {
        } else {
            match lookup(tracks_of(earlier), track_id) {
                Some(meta) => {
                    let i = choose|i: int|
                        {
                            &&& 0 <= i < earlier.len()
                            &&& #[trigger] told_track(earlier[i]) matches Some(track)
                                && track.track_id == track_id && meta_of(track) == meta
                            &&& forall|j: int|
                                i < j < earlier.len() ==> !(#[trigger] told_track(
                                    earlier[j],
                                ) matches Some(later) && later.track_id == track_id)
                        };
                    assert(told_track(events[i]) == told_track(earlier[i]));
                    assert forall|j: int| i < j < events.len() implies !(#[trigger] told_track(
                        events[j],
                    ) matches Some(later) && later.track_id == track_id) by {
                        if j < last {
                            assert(told_track(events[j]) == told_track(earlier[j]));
                        }
                    }
                },
                None => {
                    assert forall|i: int| 0 <= i < events.len() implies !(#[trigger] told_track(
                        events[i],
                    ) matches Some(track) && track.track_id == track_id) by {
                        if i < last {
                            assert(told_track(events[i]) == told_track(earlier[i]));
                        }
                    }
                },
            }
        }
    }
}

proof fn lemma_first_video(events: Seq<EventView>)
    ensures
        match first_video(events) {
            Some(id) => lookup(tracks_of(events), id) is Some && exists|i: int|
                0 <= i < events.len() && #[trigger] adds_video(events[i]),
            None => forall|i: int| 0 <= i < events.len() ==> !#[trigger] adds_video(events[i]),
        },
    decreases events.len(),
{
    if events.len() > 0 {
        let earlier = events.drop_last();
        let last = events.len() - 1;
        lemma_first_video(earlier);
        if let Some(track) = told_track(events.last()) {
            match first_video(events) {
                Some(id) => {
                    set_then_get(tracks_of(earlier), track.track_id, meta_of(track), id);
                },
                None => {},
            }
        }
        match first_video(earlier) {
            Some(id) => {
                let i = choose|i: int| 0 <= i < earlier.len() && #[trigger] adds_video(earlier[i]);
                assert(adds_video(events[i]));
            },
            None => {
                if adds_video(events.last()) {
                    assert(adds_video(events[last]));
                } else {
                    assert forall|i: int| 0 <= i < events.len() implies !#[trigger] adds_video(
                        events[i],
                    ) by {
                        if i < last {
                            assert(events[i] == earlier[i]);
                        }
                    }
                }
            },
        }
    }
}

/// There is a track list if and only if a video track was announced.
pub proof fn track_list_needs_a_video_track(events: Seq<EventView>)
    ensures
        track_list_of(tracks_of(events), first_video(events), channels_of(events)) is None <==> (
        forall|i: int| 0 <= i < events.len() ==> !#[trigger] adds_video(events[i])),
{
    lemma_first_video(events);
}

/// Whether a list of audio tracks is in the order of PIDs.
pub open spec fn audio_in_order(listed: Seq<AudioTrackView>) -> bool {
    forall|i: int, j: int|
        0 <= i <= j < listed.len() ==> (#[trigger] listed[i]).pid <= (#[trigger] listed[j]).pid
}

/// Whether a list of subtitle tracks is in the order of PIDs.
pub open spec fn subtitles_in_order(listed: Seq<SubtitleTrackView>) -> bool {
    forall|i: int, j: int|
        0 <= i <= j < listed.len() ==> (#[trigger] listed[i]).pid <= (#[trigger] listed[j]).pid
}

proof fn lemma_listed_in_order(tracks: Seq<TrackMeta>, channels: Map<u16, u8>)
    requires
        in_pid_order(tracks),
    ensures
        audio_in_order(audio_listed(tracks, channels)),
        subtitles_in_order(subtitles_listed(tracks)),
        forall|i: int|
            0 <= i < audio_listed(tracks, channels).len() ==> (#[trigger] audio_listed(
                tracks,
                channels,
            )[i]).pid <= listed_pid(tracks.last()),
        forall|i: int|
            0 <= i < subtitles_listed(tracks).len() ==> (#[trigger] subtitles_listed(tracks)[i]).pid
                <= listed_pid(tracks.last()),
    decreases tracks.len(),
{
    if tracks.len() > 0 {
        let rest = tracks.drop_last();
        assert(in_pid_order(rest)) by {
            assert forall|i: int, j: int| 0 <= i <= j < rest.len() implies listed_pid(
                #[trigger] rest[i],
            ) <= listed_pid(#[trigger] rest[j]) by {
                assert(rest[i] == tracks[i] && rest[j] == tracks[j]);
            }
        }
        lemma_listed_in_order(rest, channels);
        if rest.len() > 0 {
            assert(listed_pid(tracks[rest.len() - 1]) <= listed_pid(tracks[tracks.len() - 1]));
        }
    }
}

/// A list with one more track holds what the list holds, and the entry of that
/// track alone.
proof fn lemma_pushed_list(tracks: Seq<TrackMeta>, meta: TrackMeta, channels: Map<u16, u8>)
    ensures
        audio_listed(tracks.push(meta), channels).to_multiset() == audio_listed(
            tracks,
            channels,
        ).to_multiset().add(audio_listed(seq![meta], channels).to_multiset()),
        subtitles_listed(tracks.push(meta)).to_multiset() == subtitles_listed(
            tracks,
        ).to_multiset().add(subtitles_listed(seq![meta]).to_multiset()),
{
    broadcast use vstd::seq_lib::group_to_multiset_ensures;

    assert(tracks.push(meta).drop_last() =~= tracks);
    assert(seq![meta].drop_last() =~= Seq::empty());
    assert(seq![meta].last() == meta);
    reveal_with_fuel(audio_listed, 2);
    reveal_with_fuel(subtitles_listed, 2);
    assert(audio_listed(tracks.push(meta), channels).to_multiset() =~= audio_listed(
        tracks,
        channels,
    ).to_multiset().add(audio_listed(seq![meta], channels).to_multiset()));
    assert(subtitles_listed(tracks.push(meta)).to_multiset() =~= subtitles_listed(
        tracks,
    ).to_multiset().add(subtitles_listed(seq![meta]).to_multiset()));
}

proof fn lemma_placed_lists(sorted: Seq<TrackMeta>, meta: TrackMeta, channels: Map<u16, u8>)
    ensures
        audio_listed(placed(sorted, meta), channels).to_multiset() == audio_listed(
            sorted.push(meta),
            channels,
        ).to_multiset(),
        subtitles_listed(placed(sorted, meta)).to_multiset() == subtitles_listed(
            sorted.push(meta),
        ).to_multiset(),
    decreases sorted.len(),
{
    if !(sorted.len() == 0 || listed_pid(sorted.last()) <= listed_pid(meta)) {
        let rest = sorted.drop_last();
        let last = sorted.last();
        lemma_placed_lists(rest, meta, channels);
        lemma_pushed_list(placed(rest, meta), last, channels);
        lemma_pushed_list(rest, meta, channels);
        lemma_pushed_list(rest, last, channels);
        assert(rest.push(last) =~= sorted);
        lemma_pushed_list(sorted, meta, channels);
        assert(audio_listed(placed(sorted, meta), channels).to_multiset() =~= audio_listed(
            sorted.push(meta),
            channels,
        ).to_multiset());
        assert(subtitles_listed(placed(sorted, meta)).to_multiset() =~= subtitles_listed(
            sorted.push(meta),
        ).to_multiset());
    }
}

/// The tracks of a table, in its order.
pub open spec fn metas_of(entries: Seq<(u32, TrackMeta)>) -> Seq<TrackMeta> {
    entries.map_values(|e: (u32, TrackMeta)| e.1)
}

/// The list holds one entry for each audio track and one for each subtitle
/// track that is known, and no others, in the order of PIDs.
pub proof fn track_list_has_one_entry_per_track(
    entries: Seq<(u32, TrackMeta)>,
    channels: Map<u16, u8>,
)
    ensures
        audio_listed(by_pid(entries), channels).to_multiset() == audio_listed(
            metas_of(entries),
            channels,
        ).to_multiset(),
        subtitles_listed(by_pid(entries)).to_multiset() == subtitles_listed(
            metas_of(entries),
        ).to_multiset(),
        audio_in_order(audio_listed(by_pid(entries), channels)),
        subtitles_in_order(subtitles_listed(by_pid(entries))),
    decreases entries.len(),
{
    list_is_sorted_and_complete(entries);
    lemma_listed_in_order(by_pid(entries), channels);
    if entries.len() == 0 {
        assert(by_pid(entries) =~= metas_of(entries));
    } else {
        let rest = entries.drop_last();
        let meta = entries.last().1;
        track_list_has_one_entry_per_track(rest, channels);
        lemma_placed_lists(by_pid(rest), meta, channels);
        lemma_pushed_list(by_pid(rest), meta, channels);
        lemma_pushed_list(metas_of(rest), meta, channels);
        assert(metas_of(entries) =~= metas_of(rest).push(meta));
    }
}

/// A listed audio track has its PID, zero without one, the name of its codec,
/// its language and the channels that were seen on its PID; a listed subtitle
/// track has its PID, its kind and its language. Tracks of other kinds are not
/// listed.
pub proof fn entries_tell_their_track(
    tracks: Seq<TrackMeta>,
    meta: TrackMeta,
    channels: Map<u16, u8>,
)
    ensures
        ({
            let audio = audio_listed(tracks.push(meta), channels);
            let subtitles = subtitles_listed(tracks.push(meta));
            let pid = if meta.pid is Some {
                meta.pid->0
            } else {
                0
            };
            &&& meta.kind matches TrackKind::Audio(codec) ==> {
                &&& audio.len() == audio_listed(tracks, channels).len() + 1
                &&& audio.drop_last() == audio_listed(tracks, channels)
                &&& audio.last().pid == pid
                &&& audio.last().codec == audio_codec_name(codec)
                &&& audio.last().channels == if channels.contains_key(pid) {
                    Some(channels[pid])
                } else {
                    None
                }
                &&& meta.language matches Some(code) ==> audio.last().language == Some(
                    lossy_text(code@),
                )
                &&& meta.language is None ==> audio.last().language is None
            }
            &&& !(meta.kind is Audio) ==> audio == audio_listed(tracks, channels)
            &&& meta.kind matches TrackKind::Subtitle(kind) ==> {
                &&& subtitles.len() == subtitles_listed(tracks).len() + 1
                &&& subtitles.drop_last() == subtitles_listed(tracks)
                &&& subtitles.last().pid == pid
                &&& subtitles.last().kind == (match kind {
                    SubtitleKind::DvbSubtitles => "DvbSubtitles"@,
                    SubtitleKind::Teletext => "Teletext"@,
                })
                &&& meta.language matches Some(code) ==> subtitles.last().language == Some(
                    lossy_text(code@),
                )
                &&& meta.language is None ==> subtitles.last().language is None
            }
            &&& !(meta.kind is Subtitle) ==> subtitles == subtitles_listed(tracks)
        }),
{
    assert(tracks.push(meta).drop_last() =~= tracks);
    if meta.kind is Audio {
        assert(audio_listed(tracks.push(meta), channels).drop_last() =~= audio_listed(
            tracks,
            channels,
        ));
    }
    if meta.kind is Subtitle {
        assert(subtitles_listed(tracks.push(meta)).drop_last() =~= subtitles_listed(tracks));
    }
}

/// The list gives the PID and the codec of the shown video track, and the audio
/// and subtitle tracks that are known.
pub proof fn lists_tell_the_video_track(
    entries: Seq<(u32, TrackMeta)>,
    id: u32,
    meta: TrackMeta,
    channels: Map<u16, u8>,
)
    requires
        lookup(entries, id) == Some(meta),
    ensures
        track_list_of(entries, Some(id), channels) matches Some(list) && {
            &&& list.video_pid == if meta.pid is Some {
                meta.pid->0
            } else {
                0
            }
            &&& meta.kind matches TrackKind::Video(codec) ==> list.video_codec == video_codec_name(
                codec,
            )
            &&& list.audio == audio_listed(by_pid(entries), channels)
            &&& list.subtitles == subtitles_listed(by_pid(entries))
        },
{
}

/// Codecs go by their usual names.
pub proof fn codecs_go_by_their_names()
    ensures
        audio_codec_name(AudioCodec::Ac3) == "AC3"@,
        audio_codec_name(AudioCodec::EAc3) == "EAC3"@,
        audio_codec_name(AudioCodec::Mp2) == "MP2"@,
        video_codec_name(VideoCodec::H264) == "H264"@,
        video_codec_name(VideoCodec::H265) == "H265"@,
{
}

/// The channel count of a PID is that of the first frame header on it that
/// could be read; there is none as long as no header could be.
pub proof fn channels_are_those_of_the_first_header(events: Seq<EventView>, pid: u16)
    ensures
        if channels_of(events).contains_key(pid) {
            exists|i: int|
                {
                    &&& 0 <= i < events.len()
                    &&& #[trigger] told_channels(events, i) == Some((pid, channels_of(events)[pid]))
                    &&& forall|j: int|
                        0 <= j < i ==> !(#[trigger] told_channels(events, j) matches Some(told)
                            && told.0 == pid)
                }
        } else {
            forall|i: int|
                0 <= i < events.len() ==> !(#[trigger] told_channels(events, i) matches Some(told)
                    && told.0 == pid)
        },
    decreases events.len(),
{
    if events.len() > 0 {
        let earlier = events.drop_last();
        let last = events.len() - 1;
        channels_are_those_of_the_first_header(earlier, pid);
        assert forall|i: int| 0 <= i < last implies #[trigger] told_channels(events, i)
            == told_channels(earlier, i) by {
            assert(events.take(i) =~= earlier.take(i));
        }
        if channels_of(earlier).contains_key(pid) {
            let i = choose|i: int|
                {
                    &&& 0 <= i < earlier.len()
                    &&& #[trigger] told_channels(earlier, i) == Some(
                        (pid, channels_of(earlier)[pid]),
                    )
                    &&& forall|j: int|
                        0 <= j < i ==> !(#[trigger] told_channels(earlier, j) matches Some(told)
                            && told.0 == pid)
                };
            assert(told_channels(events, i) == Some((pid, channels_of(events)[pid])));
        } else {
            assert(forall|j: int|
                0 <= j < last ==> !(#[trigger] told_channels(events, j) matches Some(told) && told.0
                    == pid));
            assert(told_channels(events, last) == told_channels(events, last));
        }
    }
}

} // verus!
