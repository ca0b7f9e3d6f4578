//! The tracks that a bridge knows, and the list that it shows of them.

use std::collections::BTreeMap;
use vstd::prelude::*;
use crate::bridge::dto::{
    AudioTrackView, SubtitleTrackView, TrackListView, WasmAudioTrack, WasmSubtitleTrack,
    WasmTrackList,
};
use crate::bridge::helpers::{lang_bytes_to_string, lossy_text};
use crate::ts::codec::{
    audio_codec_name, audio_codec_str, video_codec_name, video_codec_str, SubtitleKind, TrackKind,
};
use crate::ts::track::TrackMeta;

verus! {

broadcast use vstd::std_specs::btree::group_btree_axioms;

// ---------------------------------------------------------------------------
// The table
// ---------------------------------------------------------------------------

/// Tracks by number, in the order of their first announcement. No number
/// occurs twice.
pub struct TrackTable {
    entries: Vec<(u32, TrackMeta)>,
}

/// The metadata of a track.
pub open spec fn lookup(entries: Seq<(u32, TrackMeta)>, track_id: u32) -> Option<TrackMeta>
    decreases entries.len(),
{
    if entries.len() == 0 {
        None
    } else if entries.last().0 == track_id {
        Some(entries.last().1)
    } else {
        lookup(entries.drop_last(), track_id)
    }
}

/// The entries with the metadata of a track set; a new track goes to the end.
pub open spec fn with_entry(entries: Seq<(u32, TrackMeta)>, track_id: u32, meta: TrackMeta) -> Seq<
    (u32, TrackMeta),
>
    decreases entries.len(),
{
    if entries.len() == 0 {
        seq![(track_id, meta)]
    } else if entries.last().0 == track_id {
        entries.drop_last().push((track_id, meta))
    } else if lookup(entries.drop_last(), track_id) is None {
        entries.push((track_id, meta))
    } else {
        with_entry(entries.drop_last(), track_id, meta).push(entries.last())
    }
}

proof fn lemma_absent(entries: Seq<(u32, TrackMeta)>, track_id: u32)
    requires
        forall|i: int| 0 <= i < entries.len() ==> (#[trigger] entries[i]).0 != track_id,
    ensures
        lookup(entries, track_id) is None,
    decreases entries.len(),
{
    if entries.len() > 0 {
        lemma_absent(entries.drop_last(), track_id);
    }
}

proof fn lemma_entry_at(entries: Seq<(u32, TrackMeta)>, at: int, meta: TrackMeta)
    requires
        0 <= at < entries.len(),
        forall|i: int| at < i < entries.len() ==> (#[trigger] entries[i]).0 != entries[at].0,
    ensures
        lookup(entries, entries[at].0) == Some(entries[at].1),
        with_entry(entries, entries[at].0, meta) == entries.update(at, (entries[at].0, meta)),
    decreases entries.len(),
{
    let id = entries[at].0;
    if at < entries.len() - 1 {
        let rest = entries.drop_last();
        lemma_entry_at(rest, at, meta);
        assert(entries.update(at, (id, meta)) =~= rest.update(at, (id, meta)).push(entries.last()));
    } else {
        assert(entries.update(at, (id, meta)) =~= entries.drop_last().push((id, meta)));
    }
}

proof fn lemma_new_entry(entries: Seq<(u32, TrackMeta)>, track_id: u32, meta: TrackMeta)
    requires
        forall|i: int| 0 <= i < entries.len() ==> (#[trigger] entries[i]).0 != track_id,
    ensures
        with_entry(entries, track_id, meta) == entries.push((track_id, meta)),
{
    if entries.len() > 0 {
        lemma_absent(entries.drop_last(), track_id);
    } else {
        assert(entries.push((track_id, meta)) =~= seq![(track_id, meta)]);
    }
}

impl TrackTable {
    pub closed spec fn view(&self) -> Seq<(u32, TrackMeta)> {
        self.entries@
    }

    /// Create an empty table.
    pub fn new() -> (table: Self)
        ensures
            table@ == Seq::<(u32, TrackMeta)>::empty(),
    {
        TrackTable { entries: Vec::new() }
    }

    /// The metadata of a track, if it is known.
    pub fn get(&self, track_id: u32) -> (meta: Option<TrackMeta>)
        ensures
            meta == lookup(self@, track_id),
    {
        let mut i: usize = self.entries.len();
        assert(self@.take(i as int) =~= self@);
        while i > 0
            invariant
                i <= self.entries@.len(),
                lookup(self@, track_id) == lookup(self@.take(i as int), track_id),
            decreases i,
        {
            proof {
                assert(self@.take(i as int).drop_last() =~= self@.take(i - 1));
            }
            i = i - 1;
            if self.entries[i].0 == track_id {
                return Some(self.entries[i].1);
            }
        }
        None
    }

    /// Set the metadata of a track.
    pub fn insert(&mut self, track_id: u32, meta: TrackMeta)
        ensures
            final(self)@ == with_entry(old(self)@, track_id, meta),
    {
        let mut i: usize = self.entries.len();
        while i > 0
            invariant
                i <= self.entries@.len(),
                *self == *old(self),
                forall|j: int| i <= j < self.entries@.len() ==> (#[trigger] self.entries@[j]).0
                    != track_id,
            decreases i,
        {
            i = i - 1;
            if self.entries[i].0 == track_id {
                proof {
                    lemma_entry_at(self.entries@, i as int, meta);
                }
                self.entries.set(i, (track_id, meta));
                return;
            }
        }
        proof {
            lemma_new_entry(self.entries@, track_id, meta);
        }
        self.entries.push((track_id, meta));
    }
}

/// What was set last is what is looked up; other tracks are not touched.
pub proof fn set_then_get(entries: Seq<(u32, TrackMeta)>, track_id: u32, meta: TrackMeta, other: u32)
    ensures
        lookup(with_entry(entries, track_id, meta), track_id) == Some(meta),
        other != track_id ==> lookup(with_entry(entries, track_id, meta), other) == lookup(
            entries,
            other,
        ),
    decreases entries.len(),
{
    if entries.len() == 0 {
        assert(with_entry(entries, track_id, meta).drop_last() =~= entries);
    } else {
        set_then_get(entries.drop_last(), track_id, meta, other);
        let after = with_entry(entries, track_id, meta);
        if entries.last().0 == track_id {
            assert(after.drop_last() =~= entries.drop_last());
        } else if lookup(entries.drop_last(), track_id) is None {
            assert(after.drop_last() =~= entries);
        } else {
            assert(after.drop_last() =~= with_entry(entries.drop_last(), track_id, meta));
        }
    }
}

/// Whether no number occurs twice.
pub open spec fn unique_numbers(entries: Seq<(u32, TrackMeta)>) -> bool {
    forall|i: int, j: int|
        0 <= i < j < entries.len() ==> (#[trigger] entries[i]).0 != (#[trigger] entries[j]).0
}

/// Setting a track keeps the numbers unique and never drops another track.
pub proof fn numbers_stay_unique(entries: Seq<(u32, TrackMeta)>, track_id: u32, meta: TrackMeta)
    requires
        unique_numbers(entries),
    ensures
        unique_numbers(with_entry(entries, track_id, meta)),
        with_entry(entries, track_id, meta).len() >= entries.len(),
{
    if exists|i: int| 0 <= i < entries.len() && (#[trigger] entries[i]).0 == track_id {
        let at = choose|i: int| 0 <= i < entries.len() && (#[trigger] entries[i]).0 == track_id;
        lemma_entry_at(entries, at, meta);
    } else {
        lemma_new_entry(entries, track_id, meta);
    }
}

// ---------------------------------------------------------------------------
// The list
// ---------------------------------------------------------------------------

/// The PID by which a track is listed.
pub open spec fn listed_pid(meta: TrackMeta) -> u16 {
    match meta.pid {
        Some(pid) => pid,
        None => 0,
    }
}

/// A list in the order of PIDs with one more track, behind those of its PID.
pub open spec fn placed(sorted: Seq<TrackMeta>, meta: TrackMeta) -> Seq<TrackMeta>
    decreases sorted.len(),
{
    if sorted.len() == 0 || listed_pid(sorted.last()) <= listed_pid(meta) {
        sorted.push(meta)
    } else {
        placed(sorted.drop_last(), meta).push(sorted.last())
    }
}

/// The tracks in the order of PIDs; those of one PID keep their order.
pub open spec fn by_pid(entries: Seq<(u32, TrackMeta)>) -> Seq<TrackMeta>
    decreases entries.len(),
{
    if entries.len() == 0 {
        Seq::empty()
    } else {
        placed(by_pid(entries.drop_last()), entries.last().1)
    }
}

/// The text of a language code.
pub open spec fn language_text(language: Option<[u8; 3]>) -> Option<Seq<char>> {
    match language {
        Some(code) => Some(lossy_text(code@)),
        None => None,
    }
}

/// The channel count that was seen on a PID.
pub open spec fn channels_on(channels: Map<u16, u8>, pid: u16) -> Option<u8> {
    if channels.contains_key(pid) {
        Some(channels[pid])
    } else {
        None
    }
}

/// The audio tracks among these, as they are listed.
pub open spec fn audio_listed(tracks: Seq<TrackMeta>, channels: Map<u16, u8>) -> Seq<AudioTrackView>
    decreases tracks.len(),
{
    if tracks.len() == 0 {
        Seq::empty()
    } else {
        let before = audio_listed(tracks.drop_last(), channels);
        match tracks.last().kind {
            TrackKind::Audio(codec) => before.push(
                AudioTrackView {
                    pid: listed_pid(tracks.last()),
                    codec: audio_codec_name(codec),
                    language: language_text(tracks.last().language),
                    channels: channels_on(channels, listed_pid(tracks.last())),
                },
            ),
            _ => before,
        }
    }
}

/// The name of a subtitle kind.
pub open spec fn subtitle_kind_name(kind: SubtitleKind) -> Seq<char> {
    match kind {
        SubtitleKind::DvbSubtitles => "DvbSubtitles"@,
        SubtitleKind::Teletext => "Teletext"@,
    }
}

/// The subtitle tracks among these, as they are listed.
pub open spec fn subtitles_listed(tracks: Seq<TrackMeta>) -> Seq<SubtitleTrackView>
    decreases tracks.len(),
{
    if tracks.len() == 0 {
        Seq::empty()
    } else {
        let before = subtitles_listed(tracks.drop_last());
        match tracks.last().kind {
            TrackKind::Subtitle(kind) => before.push(
                SubtitleTrackView {
                    pid: listed_pid(tracks.last()),
                    kind: subtitle_kind_name(kind),
                    language: language_text(tracks.last().language),
                },
            ),
            _ => before,
        }
    }
}

/// The track list: available once the video track is known.
pub open spec fn track_list_of(
    entries: Seq<(u32, TrackMeta)>,
    video_track_id: Option<u32>,
    channels: Map<u16, u8>,
) -> Option<TrackListView> {
    match video_track_id {
        None => None,
        Some(id) => match lookup(entries, id) {
            None => None,
            Some(meta) => Some(
                TrackListView {
                    video_pid: listed_pid(meta),
                    video_codec: match meta.kind {
                        TrackKind::Video(codec) => video_codec_name(codec),
                        _ => "H264"@,
                    },
                    audio: audio_listed(by_pid(entries), channels),
                    subtitles: subtitles_listed(by_pid(entries)),
                },
            ),
        },
    }
}

fn pid_of(meta: &TrackMeta) -> (pid: u16)
    ensures
        pid == listed_pid(*meta),
{
    match meta.pid {
        Some(pid) => pid,
        None => 0,
    }
}

proof fn lemma_placed_at(sorted: Seq<TrackMeta>, meta: TrackMeta, at: int)
    requires
        0 <= at <= sorted.len(),
        forall|i: int| at <= i < sorted.len() ==> listed_pid(#[trigger] sorted[i]) > listed_pid(meta),
        at > 0 ==> listed_pid(sorted[at - 1]) <= listed_pid(meta),
    ensures
        placed(sorted, meta) == sorted.insert(at, meta),
    decreases sorted.len(),
{
    if at == sorted.len() {
        assert(sorted.insert(at, meta) =~= sorted.push(meta));
    } else {
        lemma_placed_at(sorted.drop_last(), meta, at);
        assert(sorted.insert(at, meta) =~= sorted.drop_last().insert(at, meta).push(sorted.last()));
    }
}

impl TrackTable {
    /// The tracks in the order of PIDs.
    fn sorted(&self) -> (sorted: Vec<TrackMeta>)
        ensures
            sorted@ == by_pid(self@),
    {
        let mut sorted: Vec<TrackMeta> = Vec::new();
        let mut i: usize = 0;
        assert(self@.take(0) =~= Seq::<(u32, TrackMeta)>::empty());
        while i < self.entries.len()
            invariant
                i <= self.entries@.len(),
                sorted@ == by_pid(self@.take(i as int)),
            decreases self.entries@.len() - i,
        {
            let meta: TrackMeta = self.entries[i].1;
            let pid: u16 = pid_of(&meta);
            let mut at: usize = sorted.len();
            while at > 0 && pid_of(&sorted[at - 1]) > pid
                invariant
                    at <= sorted@.len(),
                    pid == listed_pid(meta),
                    forall|j: int| at <= j < sorted@.len() ==> listed_pid(#[trigger] sorted@[j])
                        > listed_pid(meta),
                decreases at,
            {
                at = at - 1;
            }
            proof {
                lemma_placed_at(sorted@, meta, at as int);
                assert(self@.take(i + 1).drop_last() =~= self@.take(i as int));
            }
            sorted.insert(at, meta);
            i = i + 1;
        }
        assert(self@.take(i as int) =~= self@);
        sorted
    }

    /// The track list, once the video track is known.
    pub fn track_list(&self, video_track_id: Option<u32>, channels: &BTreeMap<u16, u8>) -> (list:
        Option<WasmTrackList>)
        ensures
            match list {
                Some(l) => track_list_of(self@, video_track_id, channels@) == Some(l.view()),
                None => track_list_of(self@, video_track_id, channels@) is None,
            },
    {
        let video_id: u32 = match video_track_id {
            Some(id) => id,
            None => {
                return None;
            },
        };
        let video_meta: TrackMeta = match self.get(video_id) {
            Some(meta) => meta,
            None => {
                return None;
            },
        };
        let video_codec: &'static str = match video_meta.kind {
            TrackKind::Video(codec) => video_codec_str(codec),
            _ => "H264",
        };
        let sorted: Vec<TrackMeta> = self.sorted();
        let mut audio: Vec<WasmAudioTrack> = Vec::new();
        let mut subtitles: Vec<WasmSubtitleTrack> = Vec::new();
        let ghost mut audio_views = Seq::<AudioTrackView>::empty();
        let ghost mut subtitle_views = Seq::<SubtitleTrackView>::empty();
        let mut i: usize = 0;
        assert(sorted@.take(0) =~= Seq::<TrackMeta>::empty());
        while i < sorted.len()
            invariant
                i <= sorted@.len(),
                audio_views == audio@.map_values(|t: WasmAudioTrack| t.view()),
                subtitle_views == subtitles@.map_values(|t: WasmSubtitleTrack| t.view()),
                audio_views == audio_listed(sorted@.take(i as int), channels@),
                subtitle_views == subtitles_listed(sorted@.take(i as int)),
            decreases sorted@.len() - i,
        {
            let meta: TrackMeta = sorted[i];
            let pid: u16 = pid_of(&meta);
            proof {
                assert(sorted@.take(i + 1).drop_last() =~= sorted@.take(i as int));
                assert(sorted@.take(i + 1).last() == meta);
            }
            let language: Option<String> = match meta.language {
                Some(code) => Some(lang_bytes_to_string(&code)),
                None => None,
            };
            match meta.kind {
                TrackKind::Audio(codec) => {
                    let seen: Option<u8> = match channels.get(&pid) {
                        Some(count) => Some(*count),
                        None => None,
                    };
                    let track = WasmAudioTrack {
                        pid,
                        codec: audio_codec_str(codec).to_string(),
                        language,
                        channels: seen,
                    };
                    proof {
                        audio_views = audio_views.push(track.view());
                    }
                    audio.push(track);
                    assert(audio_views =~= audio@.map_values(|t: WasmAudioTrack| t.view()));
                },
                TrackKind::Subtitle(kind) => {
                    let name: &'static str = match kind {
                        SubtitleKind::DvbSubtitles => "DvbSubtitles",
                        SubtitleKind::Teletext => "Teletext",
                    };
                    let track = WasmSubtitleTrack { pid, kind: name.to_string(), language };
                    proof {
                        subtitle_views = subtitle_views.push(track.view());
                    }
                    subtitles.push(track);
                    assert(subtitle_views =~= subtitles@.map_values(
                        |t: WasmSubtitleTrack| t.view(),
                    ));
                },
                _ => {},
            }
            i = i + 1;
        }
        assert(sorted@.take(i as int) =~= sorted@);
        Some(
            WasmTrackList {
                video_pid: pid_of(&video_meta),
                video_codec: video_codec.to_string(),
                audio,
                subtitles,
            },
        )
    }
}

/// Whether a list is in the order of PIDs.
pub open spec fn in_pid_order(tracks: Seq<TrackMeta>) -> bool {
    forall|i: int, j: int|
        0 <= i <= j < tracks.len() ==> listed_pid(#[trigger] tracks[i]) <= listed_pid(
            #[trigger] tracks[j],
        )
}

proof fn lemma_placed_sorted(sorted: Seq<TrackMeta>, meta: TrackMeta)
    requires
        in_pid_order(sorted),
    ensures
        in_pid_order(placed(sorted, meta)),
        placed(sorted, meta).len() == sorted.len() + 1,
        placed(sorted, meta).to_multiset() == sorted.to_multiset().insert(meta),
        sorted.len() > 0 ==> listed_pid(placed(sorted, meta).last()) == (if listed_pid(
            sorted.last(),
        ) <= listed_pid(meta) {
            listed_pid(meta)
        } else {
            listed_pid(sorted.last())
        }),
    decreases sorted.len(),
{
    broadcast use vstd::seq_lib::group_to_multiset_ensures;

    if !(sorted.len() == 0 || listed_pid(sorted.last()) <= listed_pid(meta)) {
        let rest = sorted.drop_last();
        lemma_placed_sorted(rest, meta);
        assert(sorted =~= rest.push(sorted.last()));
        assert(sorted.to_multiset() =~= rest.to_multiset().insert(sorted.last()));
        assert(placed(sorted, meta).to_multiset() =~= sorted.to_multiset().insert(meta));
        let inner = placed(rest, meta);
        assert forall|i: int| 0 <= i < inner.len() implies listed_pid(#[trigger] inner[i])
            <= listed_pid(sorted.last()) by {
            assert(listed_pid(inner[i]) <= listed_pid(inner[inner.len() - 1]));
            if rest.len() == 0 {
                assert(inner[0] == meta);
            } else {
                assert(listed_pid(rest[rest.len() - 1]) <= listed_pid(sorted[sorted.len() - 1]));
            }
        }
    }
}

/// The list is in the order of PIDs and holds every known track, each once.
pub proof fn list_is_sorted_and_complete(entries: Seq<(u32, TrackMeta)>)
    ensures
        in_pid_order(by_pid(entries)),
        by_pid(entries).to_multiset() == entries.map_values(
            |e: (u32, TrackMeta)| e.1,
        ).to_multiset(),
    decreases entries.len(),
{
    broadcast use vstd::seq_lib::group_to_multiset_ensures;

    let metas = entries.map_values(|e: (u32, TrackMeta)| e.1);
    if entries.len() == 0 {
        assert(by_pid(entries) =~= metas);
    } else {
        let rest = entries.drop_last();
        list_is_sorted_and_complete(rest);
        lemma_placed_sorted(by_pid(rest), entries.last().1);
        let rest_metas = rest.map_values(|e: (u32, TrackMeta)| e.1);
        assert(metas =~= rest_metas.push(entries.last().1));
    }
}

} // verus!
