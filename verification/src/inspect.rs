//! What a capture holds: a PID histogram, the tracks, and when subtitles are
//! shown.

use std::collections::{BTreeMap, HashMap};
use vstd::prelude::*;
use vstd::string::StringExecFns;
use crate::bridge::helpers::{lang_bytes_to_string, lossy_text};
use crate::text::{decimal, decimal_text, hex, hex_text};
use crate::ts::codec::{
    audio_codec_name, audio_codec_str, video_codec_name, video_codec_str, AudioCodec, TrackKind,
    VideoCodec,
};
use crate::ts::demux::{
    events_on_feed, events_on_finish, DemuxEvent, EventView, TsDemux, TS_PACKET_LEN,
};
use crate::ts::ticks::{checked_ticks, ticks_of};
use crate::ts::track::{meta_of, track_meta, Codec, TrackMeta};

verus! {

broadcast use {
    vstd::std_specs::btree::group_btree_axioms,
    vstd::std_specs::hash::group_hash_axioms,
};

// ---------------------------------------------------------------------------
// PID histogram
// ---------------------------------------------------------------------------

/// The PID of the `i`-th packet, if a packet starts there.
pub open spec fn packet_pid(data: Seq<u8>, i: int) -> Option<u16> {
    let at = i * TS_PACKET_LEN;
    if data[at] == 0x47 {
        Some(((data[at + 1] as int % 32) * 256 + data[at + 2]) as u16)
    } else {
        None
    }
}

/// How many of the first `n` packets have this PID.
pub open spec fn packets_with(data: Seq<u8>, pid: u16, n: nat) -> nat
    decreases n,
{
    if n == 0 {
        0
    } else {
        packets_with(data, pid, (n - 1) as nat) + (if packet_pid(data, n - 1) == Some(pid) {
            1nat
        } else {
            0
        })
    }
}

proof fn lemma_packets_bound(data: Seq<u8>, pid: u16, n: nat)
    ensures
        packets_with(data, pid, n) <= n,
    decreases n,
{
    if n > 0 {
        lemma_packets_bound(data, pid, (n - 1) as nat);
    }
}

/// Whether a histogram counts the first `n` packets.
pub open spec fn is_histogram(hist: Map<u16, u64>, data: Seq<u8>, n: nat) -> bool {
    forall|pid: u16|
        #![trigger hist.contains_key(pid)]
        #![trigger packets_with(data, pid, n)]
        if packets_with(data, pid, n) == 0 {
            !hist.contains_key(pid)
        } else {
            hist.contains_key(pid) && hist[pid] == packets_with(data, pid, n)
        }
}

/// Count the packets of each PID. A trailing partial packet is not counted,
/// nor is one that does not begin with the sync byte.
pub fn build_histogram(data: &[u8]) -> (hist: BTreeMap<u16, u64>)
    ensures
        is_histogram(hist@, data@, data@.len() / (TS_PACKET_LEN as nat)),
{
    let len: usize = data.len();
    let total: usize = len / TS_PACKET_LEN;
    let mut hist: BTreeMap<u16, u64> = BTreeMap::new();
    let mut i: usize = 0;
    while i < total
        invariant
            len == data@.len(),
            total == len / TS_PACKET_LEN,
            i <= total,
            is_histogram(hist@, data@, i as nat),
        decreases total - i,
    {
        assert((i + 1) * TS_PACKET_LEN <= len) by (nonlinear_arith)
            requires
                i + 1 <= total,
                total == len / TS_PACKET_LEN,
                TS_PACKET_LEN == 188,
        ;
        let at: usize = i * TS_PACKET_LEN;
        let ghost before = hist@;
        if data[at] == 0x47 {
            let pid: u16 = (data[at + 1] % 32) as u16 * 256 + data[at + 2] as u16;
            let count: u64 = match hist.get(&pid) {
                Some(count) => *count,
                None => 0,
            };
            proof {
                assert(packet_pid(data@, i as int) == Some(pid));
                assert(count == packets_with(data@, pid, i as nat));
                lemma_packets_bound(data@, pid, i as nat);
            }
            hist.insert(pid, count + 1);
            assert forall|p: u16|
                #![trigger hist@.contains_key(p)]
                #![trigger packets_with(data@, p, (i + 1) as nat)]
                if packets_with(data@, p, (i + 1) as nat) == 0 {
                    !hist@.contains_key(p)
                } else {
                    hist@.contains_key(p) && hist@[p] == packets_with(data@, p, (i + 1) as nat)
                } by {
                assert(before.contains_key(p) || packets_with(data@, p, i as nat) == 0);
            }
        } else {
            assert(packet_pid(data@, i as int) is None);
            assert forall|p: u16|
                #![trigger hist@.contains_key(p)]
                #![trigger packets_with(data@, p, (i + 1) as nat)]
                if packets_with(data@, p, (i + 1) as nat) == 0 {
                    !hist@.contains_key(p)
                } else {
                    hist@.contains_key(p) && hist@[p] == packets_with(data@, p, (i + 1) as nat)
                } by {
                assert(packets_with(data@, p, (i + 1) as nat) == packets_with(data@, p, i as nat));
            }
        }
        i = i + 1;
    }
    hist
}

/// Two histograms of the same capture are equal: the counts say all.
pub proof fn histogram_is_unique(a: Map<u16, u64>, b: Map<u16, u64>, data: Seq<u8>, n: nat)
    requires
        is_histogram(a, data, n),
        is_histogram(b, data, n),
    ensures
        a == b,
{
    assert forall|pid: u16| a.contains_key(pid) == b.contains_key(pid) && (a.contains_key(pid)
        ==> a[pid] == b[pid]) by {
        let count = packets_with(data, pid, n);
    }
    assert(a =~= b);
}

// ---------------------------------------------------------------------------
// The channel map
// ---------------------------------------------------------------------------

/// The events of a capture that is fed as one chunk.
pub open spec fn events_in(data: Seq<u8>) -> Seq<EventView> {
    events_on_feed(Seq::empty(), data) + events_on_finish(seq![Some(data)])
}

fn demux_all(data: &[u8]) -> (demux: TsDemux)
    ensures
        demux.pending() == events_in(data@),
{
    let mut demux: TsDemux = TsDemux::new();
    demux.feed(data);
    proof {
        assert(demux.input() =~= seq![Some(data@)]);
        assert(demux.pending() =~= events_on_feed(Seq::empty(), data@));
    }
    demux.finish();
    demux
}

/// The PID by which a track is reported.
pub open spec fn meta_pid(meta: TrackMeta) -> u16 {
    match meta.pid {
        Some(pid) => pid,
        None => 0,
    }
}

fn pid_of(meta: &TrackMeta) -> (pid: u16)
    ensures
        pid == meta_pid(*meta),
{
    match meta.pid {
        Some(pid) => pid,
        None => 0,
    }
}

/// The video stream and the audio streams of a capture.
pub struct ChannelMap {
    /// PID and codec of the first video track.
    pub video: Option<(u16, VideoCodec)>,
    /// PID and codec of each audio track, in the order of announcement.
    pub audio_streams: Vec<(u16, AudioCodec)>,
}

/// [`ChannelMap`] as a mathematical value.
pub struct MapView {
    pub video: Option<(u16, VideoCodec)>,
    pub audio_streams: Seq<(u16, AudioCodec)>,
}

/// The map with one more track.
pub open spec fn map_with(map: MapView, meta: TrackMeta) -> MapView {
    match meta.kind {
        TrackKind::Video(codec) => if map.video is None {
            MapView { video: Some((meta_pid(meta), codec)), ..map }
        } else {
            map
        },
        TrackKind::Audio(codec) => MapView {
            audio_streams: map.audio_streams.push((meta_pid(meta), codec)),
            ..map
        },
        _ => map,
    }
}

/// The map after several events.
pub open spec fn map_after(map: MapView, events: Seq<EventView>) -> MapView
    decreases events.len(),
{
    if events.len() == 0 {
        map
    } else {
        map_after(
            match events[0] {
                EventView::TrackAdded(track) => map_with(map, meta_of(track)),
                _ => map,
            },
            events.drop_first(),
        )
    }
}

/// The map of a capture.
pub open spec fn map_of(data: Seq<u8>) -> MapView {
    map_after(MapView { video: None, audio_streams: Seq::empty() }, events_in(data))
}

impl ChannelMap {
    pub open spec fn view(&self) -> MapView {
        MapView { video: self.video, audio_streams: self.audio_streams@ }
    }

    /// A map without tracks.
    pub fn new() -> (map: Self)
        ensures
            map.view() == (MapView { video: None, audio_streams: Seq::empty() }),
    {
        ChannelMap { video: None, audio_streams: Vec::new() }
    }

    /// Take an announced track into the map.
    pub fn add(&mut self, meta: &TrackMeta)
        ensures
            final(self).view() == map_with(old(self).view(), *meta),
    {
        let pid: u16 = pid_of(meta);
        match meta.kind {
            TrackKind::Video(codec) => {
                if self.video.is_none() {
                    self.video = Some((pid, codec));
                }
            },
            TrackKind::Audio(codec) => {
                self.audio_streams.push((pid, codec));
            },
            _ => {},
        }
    }
}

/// Find the channel map of a capture; `None` where it has no video track.
pub fn probe(data: &[u8]) -> (map: Option<ChannelMap>)
    ensures
        match map {
            Some(m) => m.view() == map_of(data@) && m.video is Some,
            None => map_of(data@).video is None,
        },
{
    let mut demux: TsDemux = demux_all(data);
    let mut map: ChannelMap = ChannelMap::new();
    let ghost end = map_of(data@);
    loop
        invariant_except_break
            map_after(map.view(), demux.pending()) == end,
        ensures
            map.view() == end,
        decreases demux.pending().len(),
    {
        match demux.poll_event() {
            Some(DemuxEvent::TrackAdded(track)) => {
                let meta: TrackMeta = track_meta(&track);
                map.add(&meta);
            },
            Some(_) => {},
            None => {
                break ;
            },
        }
    }
    if map.video.is_none() {
        None
    } else {
        Some(map)
    }
}

// ---------------------------------------------------------------------------
// The full probe
// ---------------------------------------------------------------------------

/// The text of a track's language.
pub open spec fn lang_text(meta: TrackMeta) -> Option<Seq<char>> {
    match meta.language {
        Some(code) => Some(lossy_text(code@)),
        None => None,
    }
}

/// The language of a track as text.
pub fn lang_str(meta: &TrackMeta) -> (lang: Option<String>)
    ensures
        match lang {
            Some(text) => lang_text(*meta) == Some(text@),
            None => lang_text(*meta) is None,
        },
{
    match meta.language {
        Some(code) => Some(lang_bytes_to_string(&code)),
        None => None,
    }
}

/// The video track of a capture.
pub struct VideoSummary {
    pub codec: String,
    pub width: u16,
    pub height: u16,
}

/// [`VideoSummary`] as a mathematical value.
pub struct VideoSummaryView {
    pub codec: Seq<char>,
    pub width: u16,
    pub height: u16,
}

/// An audio or subtitle track of a capture.
pub struct TrackSummary {
    pub pid: u16,
    pub codec: String,
    pub lang: Option<String>,
}

/// [`TrackSummary`] as a mathematical value.
pub struct TrackSummaryView {
    pub pid: u16,
    pub codec: Seq<char>,
    pub lang: Option<Seq<char>>,
}

impl TrackSummary {
    pub open spec fn view(&self) -> TrackSummaryView {
        TrackSummaryView {
            pid: self.pid,
            codec: self.codec@,
            lang: match self.lang {
                Some(text) => Some(text@),
                None => None,
            },
        }
    }
}

/// The tracks of a capture.
pub struct ProbeSummary {
    pub video: Option<VideoSummary>,
    pub audio: Vec<TrackSummary>,
    pub subtitle: Vec<TrackSummary>,
    pub default_audio_pid: Option<u16>,
}

/// [`ProbeSummary`] as a mathematical value.
pub struct SummaryView {
    pub video: Option<VideoSummaryView>,
    pub audio: Seq<TrackSummaryView>,
    pub subtitle: Seq<TrackSummaryView>,
    pub default_audio_pid: Option<u16>,
}

/// Tracks as mathematical values.
pub open spec fn track_summaries(tracks: Seq<TrackSummary>) -> Seq<TrackSummaryView> {
    tracks.map_values(|t: TrackSummary| t.view())
}

/// The picture size that a codec tells.
pub open spec fn picture_size(codec: Codec) -> (u16, u16) {
    match codec {
        Codec::Avc { width, height } => (width, height),
        Codec::Hevc { width, height } => (width, height),
        _ => (0, 0),
    }
}

/// A summary without tracks.
pub open spec fn empty_summary() -> SummaryView {
    SummaryView {
        video: None,
        audio: Seq::empty(),
        subtitle: Seq::empty(),
        default_audio_pid: None,
    }
}

/// The summary with one more track. The first video track counts, and the
/// first audio track is the default.
pub open spec fn summary_with(summary: SummaryView, meta: TrackMeta, codec: Codec) -> SummaryView {
    match meta.kind {
        TrackKind::Video(video) => if summary.video is None {
            SummaryView {
                video: Some(
                    VideoSummaryView {
                        codec: video_codec_name(video),
                        width: picture_size(codec).0,
                        height: picture_size(codec).1,
                    },
                ),
                ..summary
            }
        } else {
            summary
        },
        TrackKind::Audio(audio) => SummaryView {
            default_audio_pid: if summary.default_audio_pid is None {
                Some(meta_pid(meta))
            } else {
                summary.default_audio_pid
            },
            audio: summary.audio.push(
                TrackSummaryView {
                    pid: meta_pid(meta),
                    codec: audio_codec_name(audio),
                    lang: lang_text(meta),
                },
            ),
            ..summary
        },
        TrackKind::Subtitle(_) => SummaryView {
            subtitle: summary.subtitle.push(
                TrackSummaryView {
                    pid: meta_pid(meta),
                    codec: "DVBSUB"@,
                    lang: lang_text(meta),
                },
            ),
            ..summary
        },
        TrackKind::Other => summary,
    }
}

/// The summary after several events.
pub open spec fn summary_after(summary: SummaryView, events: Seq<EventView>) -> SummaryView
    decreases events.len(),
{
    if events.len() == 0 {
        summary
    } else {
        summary_after(
            match events[0] {
                EventView::TrackAdded(track) => summary_with(summary, meta_of(track), track.codec),
                _ => summary,
            },
            events.drop_first(),
        )
    }
}

impl ProbeSummary {
    pub open spec fn view(&self) -> SummaryView {
        SummaryView {
            video: match self.video {
                Some(v) => Some(
                    VideoSummaryView { codec: v.codec@, width: v.width, height: v.height },
                ),
                None => None,
            },
            audio: track_summaries(self.audio@),
            subtitle: track_summaries(self.subtitle@),
            default_audio_pid: self.default_audio_pid,
        }
    }

    /// A summary without tracks.
    pub fn new() -> (summary: Self)
        ensures
            summary.view() == empty_summary(),
    {
        let summary = ProbeSummary {
            video: None,
            audio: Vec::new(),
            subtitle: Vec::new(),
            default_audio_pid: None,
        };
        assert(summary.view().audio =~= Seq::empty());
        assert(summary.view().subtitle =~= Seq::empty());
        summary
    }

    /// Take an announced track into the summary.
    pub fn add(&mut self, meta: &TrackMeta, codec: Codec)
        ensures
            final(self).view() == summary_with(old(self).view(), *meta, codec),
    {
        let pid: u16 = pid_of(meta);
        match meta.kind {
            TrackKind::Video(video) => {
                if self.video.is_none() {
                    let (width, height): (u16, u16) = match codec {
                        Codec::Avc { width, height } => (width, height),
                        Codec::Hevc { width, height } => (width, height),
                        _ => (0, 0),
                    };
                    self.video = Some(
                        VideoSummary { codec: video_codec_str(video).to_string(), width, height },
                    );
                }
            },
            TrackKind::Audio(audio) => {
                if self.default_audio_pid.is_none() {
                    self.default_audio_pid = Some(pid);
                }
                let track = TrackSummary {
                    pid,
                    codec: audio_codec_str(audio).to_string(),
                    lang: lang_str(meta),
                };
                let ghost view = track.view();
                self.audio.push(track);
                assert(track_summaries(self.audio@) =~= track_summaries(old(self).audio@).push(view));
            },
            TrackKind::Subtitle(_) => {
                let track = TrackSummary { pid, codec: "DVBSUB".to_string(), lang: lang_str(meta) };
                let ghost view = track.view();
                self.subtitle.push(track);
                assert(track_summaries(self.subtitle@) =~= track_summaries(
                    old(self).subtitle@,
                ).push(view));
            },
            TrackKind::Other => {},
        }
    }
}

/// Summarise the tracks of a capture.
pub fn probe_full(data: &[u8]) -> (summary: ProbeSummary)
    ensures
        summary.view() == summary_after(empty_summary(), events_in(data@)),
{
    let mut demux: TsDemux = demux_all(data);
    let mut summary: ProbeSummary = ProbeSummary::new();
    let ghost end = summary_after(empty_summary(), events_in(data@));
    loop
        invariant_except_break
            summary_after(summary.view(), demux.pending()) == end,
        ensures
            summary.view() == end,
        decreases demux.pending().len(),
    {
        match demux.poll_event() {
            Some(DemuxEvent::TrackAdded(track)) => {
                let meta: TrackMeta = track_meta(&track);
                summary.add(&meta, track.codec);
            },
            Some(_) => {},
            None => {
                break ;
            },
        }
    }
    summary
}

/// The default audio track is the first one listed.
pub proof fn default_audio_is_the_first(summary: SummaryView, events: Seq<EventView>)
    requires
        summary.default_audio_pid == (if summary.audio.len() == 0 {
            None
        } else {
            Some(summary.audio[0].pid)
        }),
    ensures
        ({
            let after = summary_after(summary, events);
            after.default_audio_pid == (if after.audio.len() == 0 {
                None
            } else {
                Some(after.audio[0].pid)
            })
        }),
    decreases events.len(),
{
    if events.len() > 0 {
        let next = match events[0] {
            EventView::TrackAdded(track) => summary_with(summary, meta_of(track), track.codec),
            _ => summary,
        };
        default_audio_is_the_first(next, events.drop_first());
    }
}

// ---------------------------------------------------------------------------
// Subtitle activity
// ---------------------------------------------------------------------------

/// Whether a page composition with a region stands in the segments from `at`
/// on. Each segment begins with a sync byte, its type, a page and a length;
/// the walk ends at anything else.
pub open spec fn page_from(data: Seq<u8>, at: int) -> bool
    decreases data.len() - at,
{
    if at < 0 || at + 6 > data.len() || data[at] != 0x0f {
        false
    } else {
        let len = data[at + 4] * 256 + data[at + 5];
        (data[at + 1] == 0x10 && len > 2) || (at + 6 + len <= data.len() && page_from(
            data,
            at + 6 + len,
        ))
    }
}

/// Whether a DVB subtitle PES payload holds a page composition with a region.
pub open spec fn shows_page(data: Seq<u8>) -> bool {
    data.len() >= 2 && data[0] == 0x20 && data[1] == 0x00 && page_from(data, 2)
}

/// True if a DVB-subtitle PES payload contains a page-composition segment
/// (0x10) with a non-empty region list (ETSI EN 300 743 §7.2.2).
pub fn payload_has_page_composition(data: &[u8]) -> (has: bool)
    ensures
        has == shows_page(data@),
{
    let len: usize = data.len();
    if len < 2 || data[0] != 0x20 || data[1] != 0x00 {
        return false;
    }
    let mut i: usize = 2;
    while len - i >= 6 && data[i] == 0x0f
        invariant
            len == data@.len(),
            2 <= i <= len,
            data@[0] == 0x20,
            data@[1] == 0x00,
            page_from(data@, 2) == page_from(data@, i as int),
        decreases len - i,
    {
        let segment_type: u8 = data[i + 1];
        let segment_len: usize = data[i + 4] as usize * 256 + data[i + 5] as usize;
        if segment_type == 0x10 && segment_len > 2 {
            return true;
        }
        if segment_len > len - i - 6 {
            return false;
        }
        i = i + 6 + segment_len;
    }
    false
}

/// A time at which subtitles are shown.
#[derive(Debug, Clone, Copy, PartialEq, Eq)]
pub struct SubActivity {
    pub pid: u16,
    pub pts_ticks: u64,
}

/// What subtitle activity is known, and the PIDs of the subtitle tracks.
pub struct ActivityView {
    pub subtitle_pids: Map<u32, u16>,
    pub activity: Seq<SubActivity>,
}

/// The activity after an event.
pub open spec fn activity_step(state: ActivityView, event: EventView) -> ActivityView {
    match event {
        EventView::TrackAdded(track) => if meta_of(track).kind is Subtitle {
            ActivityView {
                subtitle_pids: state.subtitle_pids.insert(track.track_id, meta_pid(meta_of(track))),
                ..state
            }
        } else {
            state
        },
        EventView::Sample { track_id, sample } => if state.subtitle_pids.contains_key(track_id)
            && shows_page(sample.data) && ticks_of(sample.pts) is Some {
            ActivityView {
                activity: state.activity.push(
                    SubActivity {
                        pid: state.subtitle_pids[track_id],
                        pts_ticks: ticks_of(sample.pts)->0,
                    },
                ),
                ..state
            }
        } else {
            state
        },
        _ => state,
    }
}

/// The activity after several events.
pub open spec fn activity_after(state: ActivityView, events: Seq<EventView>) -> ActivityView
    decreases events.len(),
{
    if events.len() == 0 {
        state
    } else {
        activity_after(activity_step(state, events[0]), events.drop_first())
    }
}

/// Collects subtitle activity from events.
pub struct ActivityLog {
    pub subtitle_pids: HashMap<u32, u16>,
    pub activity: Vec<SubActivity>,
}

impl ActivityLog {
    pub open spec fn view(&self) -> ActivityView {
        ActivityView { subtitle_pids: self.subtitle_pids@, activity: self.activity@ }
    }

    /// A log that has seen nothing.
    pub fn new() -> (log: Self)
        ensures
            log.view() == (ActivityView { subtitle_pids: Map::empty(), activity: Seq::empty() }),
    {
        ActivityLog { subtitle_pids: HashMap::new(), activity: Vec::new() }
    }

    /// Take an event into the log.
    pub fn on_event(&mut self, event: DemuxEvent)
        ensures
            final(self).view() == activity_step(old(self).view(), event.view()),
    {
        match event {
            DemuxEvent::TrackAdded(track) => {
                let meta: TrackMeta = track_meta(&track);
                if let TrackKind::Subtitle(_) = meta.kind {
                    self.subtitle_pids.insert(track.track_id, pid_of(&meta));
                }
            },
            DemuxEvent::Sample { track_id, sample } => {
                let pid: u16 = match self.subtitle_pids.get(&track_id) {
                    Some(pid) => *pid,
                    None => {
                        return;
                    },
                };
                if payload_has_page_composition(sample.data.as_slice()) {
                    if let Some(pts_ticks) = checked_ticks(sample.pts) {
                        self.activity.push(SubActivity { pid, pts_ticks });
                    }
                }
            },
            _ => {},
        }
    }
}

/// The times at which subtitles are shown in a capture.
pub fn sub_activity(data: &[u8]) -> (activity: Vec<SubActivity>)
    ensures
        activity@ == activity_after(
            ActivityView { subtitle_pids: Map::empty(), activity: Seq::empty() },
            events_in(data@),
        ).activity,
{
    let mut demux: TsDemux = demux_all(data);
    let mut log: ActivityLog = ActivityLog::new();
    let ghost end = activity_after(log.view(), demux.pending());
    loop
        invariant_except_break
            activity_after(log.view(), demux.pending()) == end,
        ensures
            log.view() == end,
        decreases demux.pending().len(),
    {
        match demux.poll_event() {
            Some(event) => {
                log.on_event(event);
            },
            None => {
                break ;
            },
        }
    }
    log.activity
}

// ---------------------------------------------------------------------------
// The report
// ---------------------------------------------------------------------------

/// The entries of a histogram below `n`, by PID.
pub open spec fn entries_below(hist: Map<u16, u64>, n: nat) -> Seq<(u16, u64)>
    decreases n,
{
    if n == 0 {
        Seq::empty()
    } else {
        let pid = (n - 1) as u16;
        let before = entries_below(hist, (n - 1) as nat);
        if hist.contains_key(pid) {
            before.push((pid, hist[pid]))
        } else {
            before
        }
    }
}

/// The entries of a histogram, by PID.
pub fn histogram_entries(hist: &BTreeMap<u16, u64>) -> (entries: Vec<(u16, u64)>)
    ensures
        entries@ == entries_below(hist@, 65536),
{
    let mut entries: Vec<(u16, u64)> = Vec::new();
    let mut n: u32 = 0;
    while n < 65536
        invariant
            n <= 65536,
            entries@ == entries_below(hist@, n as nat),
        decreases 65536 - n,
    {
        let pid: u16 = n as u16;
        if let Some(count) = hist.get(&pid) {
            entries.push((pid, *count));
        }
        n = n + 1;
    }
    entries
}

/// The lines of histogram entries.
pub open spec fn entry_lines(entries: Seq<(u16, u64)>) -> Seq<char>
    decreases entries.len(),
{
    if entries.len() == 0 {
        Seq::empty()
    } else {
        entry_lines(entries.drop_last()) + "  PID "@ + hex_text(entries.last().0) + ": "@
            + decimal_text(entries.last().1 as nat) + "\n"@
    }
}

/// The report on a histogram.
pub open spec fn histogram_text(path: Seq<char>, packets: u64, entries: Seq<(u16, u64)>) -> Seq<
    char,
> {
    path + ": "@ + decimal_text(packets as nat) + " packets, "@ + decimal_text(entries.len())
        + " distinct PIDs\n"@ + entry_lines(entries)
}

/// Write the report on a histogram: a head line and a line for each PID.
pub fn histogram_report(path: &str, packets: u64, entries: &Vec<(u16, u64)>) -> (text: String)
    ensures
        text@ == histogram_text(path@, packets, entries@),
{
    let packets_text: String = decimal(packets);
    let pids_text: String = decimal(entries.len() as u64);
    let mut out: String = path.to_string();
    out.append(": ");
    out.append(packets_text.as_str());
    out.append(" packets, ");
    out.append(pids_text.as_str());
    out.append(" distinct PIDs\n");
    let ghost head = out@;
    let mut i: usize = 0;
    assert(entries@.take(0) =~= Seq::<(u16, u64)>::empty());
    assert(out@ =~= head + entry_lines(entries@.take(0)));
    while i < entries.len()
        invariant
            i <= entries@.len(),
            out@ == head + entry_lines(entries@.take(i as int)),
        decreases entries@.len() - i,
    {
        let (pid, count): (u16, u64) = entries[i];
        let pid_text: String = hex(pid);
        let count_text: String = decimal(count);
        out.append("  PID ");
        out.append(pid_text.as_str());
        out.append(": ");
        out.append(count_text.as_str());
        out.append("\n");
        proof {
            assert(entries@.take(i + 1).drop_last() =~= entries@.take(i as int));
            assert(entries@.take(i + 1).last() == (pid, count));
            assert(out@ =~= head + entry_lines(entries@.take(i + 1)));
        }
        i = i + 1;
    }
    assert(entries@.take(i as int) =~= entries@);
    out
}

/// The name of a video codec in the report.
pub open spec fn video_label(codec: VideoCodec) -> Seq<char> {
    match codec {
        VideoCodec::H264 => "H264"@,
        VideoCodec::H265 => "H265"@,
    }
}

/// The name of an audio codec in the report.
pub open spec fn audio_label(codec: AudioCodec) -> Seq<char> {
    match codec {
        AudioCodec::Ac3 => "Ac3"@,
        AudioCodec::EAc3 => "EAc3"@,
        AudioCodec::Mp2 => "Mp2"@,
    }
}

/// Name a video codec in the report.
pub fn video_label_str(codec: VideoCodec) -> (label: &'static str)
    ensures
        label@ == video_label(codec),
{
    match codec {
        VideoCodec::H264 => "H264",
        VideoCodec::H265 => "H265",
    }
}

/// Name an audio codec in the report.
pub fn audio_label_str(codec: AudioCodec) -> (label: &'static str)
    ensures
        label@ == audio_label(codec),
{
    match codec {
        AudioCodec::Ac3 => "Ac3",
        AudioCodec::EAc3 => "EAc3",
        AudioCodec::Mp2 => "Mp2",
    }
}

/// The lines of audio streams.
pub open spec fn stream_lines(streams: Seq<(u16, AudioCodec)>) -> Seq<char>
    decreases streams.len(),
{
    if streams.len() == 0 {
        Seq::empty()
    } else {
        stream_lines(streams.drop_last()) + "  audio PID "@ + hex_text(streams.last().0) + " ("@
            + audio_label(streams.last().1) + ")\n"@
    }
}

/// The report on a channel map with this video stream.
pub open spec fn map_text(pid: u16, codec: VideoCodec, streams: Seq<(u16, AudioCodec)>) -> Seq<
    char,
> {
    "Channel map: video PID "@ + hex_text(pid) + " ("@ + video_label(codec) + ")\n"@
        + stream_lines(streams)
}

/// Write the report on a channel map; `None` where it has no video stream.
pub fn map_report(map: &ChannelMap) -> (text: Option<String>)
    ensures
        match (text, map.video) {
            (Some(t), Some((pid, codec))) => t@ == map_text(pid, codec, map.audio_streams@),
            (None, None) => true,
            _ => false,
        },
{
    let (video_pid, video_codec): (u16, VideoCodec) = match map.video {
        Some(video) => video,
        None => {
            return None;
        },
    };
    let pid_text: String = hex(video_pid);
    let mut out: String = String::from_str("Channel map: video PID ");
    out.append(pid_text.as_str());
    out.append(" (");
    out.append(video_label_str(video_codec));
    out.append(")\n");
    let ghost head = out@;
    let mut i: usize = 0;
    assert(map.audio_streams@.take(0) =~= Seq::<(u16, AudioCodec)>::empty());
    assert(out@ =~= head + stream_lines(map.audio_streams@.take(0)));
    while i < map.audio_streams.len()
        invariant
            i <= map.audio_streams@.len(),
            out@ == head + stream_lines(map.audio_streams@.take(i as int)),
        decreases map.audio_streams@.len() - i,
    {
        let (pid, codec): (u16, AudioCodec) = map.audio_streams[i];
        let stream_pid: String = hex(pid);
        out.append("  audio PID ");
        out.append(stream_pid.as_str());
        out.append(" (");
        out.append(audio_label_str(codec));
        out.append(")\n");
        proof {
            assert(map.audio_streams@.take(i + 1).drop_last() =~= map.audio_streams@.take(i as int));
            assert(map.audio_streams@.take(i + 1).last() == (pid, codec));
            assert(out@ =~= head + stream_lines(map.audio_streams@.take(i + 1)));
        }
        i = i + 1;
    }
    assert(map.audio_streams@.take(i as int) =~= map.audio_streams@);
    Some(out)
}

} // verus!
