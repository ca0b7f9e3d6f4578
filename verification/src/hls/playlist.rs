//! Committed segments and the playlist over them.

use std::collections::VecDeque;
use std::sync::Arc;
use vstd::prelude::*;
use vstd::string::StringExecFns;
use crate::hls::segmenter::{CutSegment, CutView};
use crate::text::{decimal, decimal_is_injective, decimal_text};

verus! {

/// How a session segments and windows.
#[derive(Debug, Clone)]
pub struct HlsConfig {
    /// Target segment duration in seconds (segments cut on the first video
    /// random access point at or after this).
    pub target_secs: u32,
    /// `None` = VOD (retain every segment; append `#EXT-X-ENDLIST` on
    /// `finish`). `Some(n)` = rolling media playlist of at most `n` segments.
    pub window: Option<usize>,
    /// Segment filename prefix; segment `k` is `"{uri_prefix}{k}.ts"`.
    pub uri_prefix: String,
}

/// [`HlsConfig`] as a mathematical value.
pub struct ConfigView {
    pub target_secs: u32,
    pub window: Option<usize>,
    pub uri_prefix: Seq<char>,
}

impl HlsConfig {
    pub open spec fn view(&self) -> ConfigView {
        ConfigView {
            target_secs: self.target_secs,
            window: self.window,
            uri_prefix: self.uri_prefix@,
        }
    }

    /// Keep every segment.
    #[must_use]
    pub fn vod() -> (cfg: Self)
        ensures
            cfg.view() == (ConfigView { target_secs: 4, window: None, uri_prefix: "seg"@ }),
    {
        HlsConfig { target_secs: 4, window: None, uri_prefix: String::from_str("seg") }
    }

    /// Keep the last `window` segments, at least one.
    #[must_use]
    pub fn rolling(window: usize) -> (cfg: Self)
        ensures
            cfg.view() == (ConfigView {
                target_secs: 4,
                window: Some(
                    if window == 0 {
                        1
                    } else {
                        window
                    },
                ),
                uri_prefix: "seg"@,
            }),
    {
        let window: usize = if window == 0 {
            1
        } else {
            window
        };
        HlsConfig { target_secs: 4, window: Some(window), uri_prefix: String::from_str("seg") }
    }
}

/// A committed segment retained for serving and playlist generation.
#[derive(Clone)]
pub struct StoredSegment {
    pub name: String,
    pub bytes: Arc<Vec<u8>>,
    /// The duration in seconds, to six decimals.
    pub duration: String,
    /// The duration in seconds, rounded up.
    pub ceil_secs: u64,
    pub discontinuous: bool,
}

/// [`StoredSegment`] as a mathematical value.
pub struct StoredView {
    pub name: Seq<char>,
    pub bytes: Seq<u8>,
    pub duration: Seq<char>,
    pub ceil_secs: u64,
    pub discontinuous: bool,
}

impl StoredSegment {
    pub open spec fn view(&self) -> StoredView {
        StoredView {
            name: self.name@,
            bytes: self.bytes@,
            duration: self.duration@,
            ceil_secs: self.ceil_secs,
            discontinuous: self.discontinuous,
        }
    }
}

/// `Arc::clone`: another pointer to the same bytes.
#[verifier::external_body]
fn share(bytes: &Arc<Vec<u8>>) -> (shared: Arc<Vec<u8>>)
    ensures
        shared@ == bytes@,
{
    Arc::clone(bytes)
}

// ---------------------------------------------------------------------------
// The store
// ---------------------------------------------------------------------------

/// The committed segments of a session and their numbering.
pub struct SegmentStore {
    /// The retained segments, oldest first.
    pub segments: VecDeque<StoredSegment>,
    /// The number of the next segment.
    pub next_seq: u64,
    /// The number of the first retained segment.
    pub media_sequence: u64,
    /// The longest duration of any segment so far, in whole seconds rounded
    /// up; never shrinks when a long segment rolls off the window.
    pub target_duration: u64,
    /// How many discontinuous segments have rolled off the front of a rolling
    /// playlist (RFC 8216 §4.3.3.3).
    pub discontinuity_sequence: u64,
}

/// [`SegmentStore`] as a mathematical value.
pub struct StoreView {
    pub segments: Seq<StoredView>,
    pub next_seq: u64,
    pub media_sequence: u64,
    pub target_duration: u64,
    pub discontinuity_sequence: u64,
}

/// A counter one higher; it stays at the top of its range.
pub open spec fn bumped(n: u64) -> u64 {
    if n == u64::MAX {
        n
    } else {
        (n + 1) as u64
    }
}

/// The name of a segment.
pub open spec fn segment_name(cfg: ConfigView, number: nat) -> Seq<char> {
    cfg.uri_prefix + decimal_text(number) + ".ts"@
}

/// A store in which nothing was committed.
pub open spec fn empty_store(cfg: ConfigView) -> StoreView {
    StoreView {
        segments: Seq::empty(),
        next_seq: 0,
        media_sequence: 0,
        target_duration: cfg.target_secs as u64,
        discontinuity_sequence: 0,
    }
}

/// A store without its oldest segment.
pub open spec fn rolled_off(store: StoreView) -> StoreView {
    StoreView {
        segments: store.segments.drop_first(),
        media_sequence: bumped(store.media_sequence),
        discontinuity_sequence: if store.segments[0].discontinuous {
            bumped(store.discontinuity_sequence)
        } else {
            store.discontinuity_sequence
        },
        ..store
    }
}

/// A store in which the oldest segments have rolled off until `window` are
/// left.
pub open spec fn windowed(store: StoreView, window: nat) -> StoreView
    decreases store.segments.len(),
{
    if store.segments.len() <= window {
        store
    } else {
        windowed(rolled_off(store), window)
    }
}

/// A store with one more segment, not yet windowed.
pub open spec fn appended(store: StoreView, cfg: ConfigView, cut: CutView) -> StoreView {
    StoreView {
        segments: store.segments.push(
            StoredView {
                name: segment_name(cfg, store.next_seq as nat),
                bytes: cut.bytes,
                duration: cut.duration,
                ceil_secs: cut.ceil_secs,
                discontinuous: cut.discontinuous,
            },
        ),
        next_seq: bumped(store.next_seq),
        target_duration: if cut.ceil_secs > store.target_duration {
            cut.ceil_secs
        } else {
            store.target_duration
        },
        ..store
    }
}

/// A store after one more segment was committed.
pub open spec fn stored(store: StoreView, cfg: ConfigView, cut: CutView) -> StoreView {
    match cfg.window {
        Some(window) => windowed(appended(store, cfg, cut), window as nat),
        None => appended(store, cfg, cut),
    }
}

/// A store after several segments were committed.
pub open spec fn stored_all(store: StoreView, cfg: ConfigView, cuts: Seq<CutView>) -> StoreView
    decreases cuts.len(),
{
    if cuts.len() == 0 {
        store
    } else {
        stored(stored_all(store, cfg, cuts.drop_last()), cfg, cuts.last())
    }
}

/// The first retained segment of this name.
pub open spec fn find_segment(segments: Seq<StoredView>, name: Seq<char>) -> Option<StoredView>
    decreases segments.len(),
{
    if segments.len() == 0 {
        None
    } else if segments[0].name == name {
        Some(segments[0])
    } else {
        find_segment(segments.drop_first(), name)
    }
}

impl SegmentStore {
    pub open spec fn view(&self) -> StoreView {
        StoreView {
            segments: self.segments@.map_values(|s: StoredSegment| s.view()),
            next_seq: self.next_seq,
            media_sequence: self.media_sequence,
            target_duration: self.target_duration,
            discontinuity_sequence: self.discontinuity_sequence,
        }
    }

    /// Create a store for a session of this configuration.
    pub fn new(cfg: &HlsConfig) -> (store: Self)
        ensures
            store.view() == empty_store(cfg.view()),
    {
        let store = SegmentStore {
            segments: VecDeque::new(),
            next_seq: 0,
            media_sequence: 0,
            target_duration: cfg.target_secs as u64,
            discontinuity_sequence: 0,
        };
        assert(store.view().segments =~= Seq::empty());
        store
    }

    /// Commit a segment: name it, count it, and let older ones roll off a
    /// rolling playlist.
    pub fn store(&mut self, cfg: &HlsConfig, ts: CutSegment)
        ensures
            final(self).view() == stored(old(self).view(), cfg.view(), ts.view()),
    {
        let mut name: String = cfg.uri_prefix.clone();
        let number: String = decimal(self.next_seq);
        name.append(number.as_str());
        name.append(".ts");
        self.next_seq = self.next_seq.saturating_add(1);
        if ts.ceil_secs > self.target_duration {
            self.target_duration = ts.ceil_secs;
        }
        let segment = StoredSegment {
            name,
            bytes: Arc::new(ts.bytes),
            duration: ts.duration,
            ceil_secs: ts.ceil_secs,
            discontinuous: ts.discontinuous,
        };
        self.segments.push_back(segment);
        proof {
            let after = appended(old(self).view(), cfg.view(), ts.view());
            assert(self.view().segments =~= after.segments);
        }
        if let Some(window) = cfg.window {
            while self.segments.len() > window
                invariant
                    cfg.window == Some(window),
                    windowed(self.view(), window as nat) == stored(
                        old(self).view(),
                        cfg.view(),
                        ts.view(),
                    ),
                decreases self.segments@.len(),
            {
                let ghost before = self.view();
                if let Some(evicted) = self.segments.pop_front() {
                    self.media_sequence = self.media_sequence.saturating_add(1);
                    if evicted.discontinuous {
                        self.discontinuity_sequence = self.discontinuity_sequence.saturating_add(1);
                    }
                    assert(self.view().segments =~= before.segments.drop_first());
                    assert(self.view() == rolled_off(before));
                }
            }
        }
    }

    /// Commit several segments, in order.
    pub fn store_all(&mut self, cfg: &HlsConfig, cuts: Vec<CutSegment>)
        ensures
            final(self).view() == stored_all(
                old(self).view(),
                cfg.view(),
                cuts@.map_values(|s: CutSegment| s.view()),
            ),
    {
        let ghost all = cuts@.map_values(|s: CutSegment| s.view());
        let mut rest: Vec<CutSegment> = cuts;
        let ghost mut done: int = 0;
        assert(all.take(0) =~= Seq::<CutView>::empty());
        assert(rest@.map_values(|s: CutSegment| s.view()) =~= all.skip(0));
        while rest.len() > 0
            invariant
                0 <= done <= all.len(),
                rest@.map_values(|s: CutSegment| s.view()) == all.skip(done),
                self.view() == stored_all(old(self).view(), cfg.view(), all.take(done)),
            decreases rest@.len(),
        {
            let ghost before = rest@.map_values(|s: CutSegment| s.view());
            let cut: CutSegment = rest.remove(0);
            proof {
                assert(before.len() == all.len() - done);
                assert(cut.view() == before[0]);
                assert(before[0] == all[done]);
                assert(all.take(done + 1).drop_last() =~= all.take(done));
                assert(all.take(done + 1).last() == cut.view());
                assert(rest@.map_values(|s: CutSegment| s.view()) =~= before.drop_first());
                assert(before.drop_first() =~= all.skip(done + 1));
                done = done + 1;
            }
            self.store(cfg, cut);
        }
        proof {
            assert(rest@.map_values(|s: CutSegment| s.view()).len() == 0);
            assert(all.take(done) =~= all);
        }
    }

    /// The bytes of the retained segment of this name.
    pub fn segment(&self, name: &str) -> (bytes: Option<Arc<Vec<u8>>>)
        ensures
            match bytes {
                Some(b) => find_segment(self.view().segments, name@) matches Some(s) && b@
                    == s.bytes,
                None => find_segment(self.view().segments, name@) is None,
            },
    {
        let wanted: String = name.to_string();
        let ghost all = self.view().segments;
        let mut i: usize = 0;
        assert(all.skip(0) =~= all);
        while i < self.segments.len()
            invariant
                i <= self.segments@.len(),
                all == self.view().segments,
                wanted@ == name@,
                find_segment(all.skip(i as int), name@) == find_segment(all, name@),
            decreases self.segments@.len() - i,
        {
            assert(all.skip(i as int)[0] == self.segments@[i as int].view());
            if self.segments[i].name == wanted {
                return Some(share(&self.segments[i].bytes));
            }
            assert(all.skip(i as int).drop_first() =~= all.skip(i + 1));
            i = i + 1;
        }
        assert(all.skip(i as int).len() == 0);
        None
    }
}

// ---------------------------------------------------------------------------
// The playlist
// ---------------------------------------------------------------------------

/// The lines of one segment.
pub open spec fn segment_lines(segment: StoredView) -> Seq<char> {
    (if segment.discontinuous {
        "#EXT-X-DISCONTINUITY\n"@
    } else {
        Seq::empty()
    }) + "#EXTINF:"@ + segment.duration + ",\n"@ + segment.name + "\n"@
}

/// The lines of several segments.
pub open spec fn all_segment_lines(segments: Seq<StoredView>) -> Seq<char>
    decreases segments.len(),
{
    if segments.len() == 0 {
        Seq::empty()
    } else {
        all_segment_lines(segments.drop_last()) + segment_lines(segments.last())
    }
}

/// A tag with a number.
pub open spec fn number_line(tag: Seq<char>, number: u64) -> Seq<char> {
    tag + decimal_text(number as nat) + "\n"@
}

/// The lines before the segments.
pub open spec fn playlist_head(cfg: ConfigView, store: StoreView) -> Seq<char> {
    "#EXTM3U\n#EXT-X-VERSION:3\n"@ + number_line(
        "#EXT-X-TARGETDURATION:"@,
        if store.target_duration == 0 {
            1
        } else {
            store.target_duration
        },
    ) + number_line("#EXT-X-MEDIA-SEQUENCE:"@, store.media_sequence) + (if cfg.window is Some
        && store.discontinuity_sequence > 0 {
        number_line("#EXT-X-DISCONTINUITY-SEQUENCE:"@, store.discontinuity_sequence)
    } else {
        Seq::empty()
    }) + (if cfg.window is None {
        "#EXT-X-PLAYLIST-TYPE:VOD\n"@
    } else {
        Seq::empty()
    }) + "#EXT-X-INDEPENDENT-SEGMENTS\n"@
}

/// The lines after the segments.
pub open spec fn playlist_tail(cfg: ConfigView, finished: bool) -> Seq<char> {
    if cfg.window is None && finished {
        "#EXT-X-ENDLIST\n"@
    } else {
        Seq::empty()
    }
}

/// The playlist.
pub open spec fn playlist_text(cfg: ConfigView, store: StoreView, finished: bool) -> Seq<char> {
    playlist_head(cfg, store) + all_segment_lines(store.segments) + playlist_tail(cfg, finished)
}

fn append_number_line(out: &mut String, tag: &str, number: u64)
    ensures
        final(out)@ == old(out)@ + number_line(tag@, number),
{
    let text: String = decimal(number);
    out.append(tag);
    out.append(text.as_str());
    out.append("\n");
    assert(out@ =~= old(out)@ + number_line(tag@, number));
}

fn append_segment_lines(out: &mut String, segment: &StoredSegment)
    ensures
        final(out)@ == old(out)@ + segment_lines(segment.view()),
{
    if segment.discontinuous {
        out.append("#EXT-X-DISCONTINUITY\n");
    }
    out.append("#EXTINF:");
    out.append(segment.duration.as_str());
    out.append(",\n");
    out.append(segment.name.as_str());
    out.append("\n");
    assert(out@ =~= old(out)@ + segment_lines(segment.view()));
}

/// Write the playlist over the retained segments.
pub fn write_playlist(cfg: &HlsConfig, store: &SegmentStore, finished: bool) -> (text: String)
    ensures
        text@ == playlist_text(cfg.view(), store.view(), finished),
{
    let target: u64 = if store.target_duration == 0 {
        1
    } else {
        store.target_duration
    };
    let mut out: String = String::from_str("#EXTM3U\n#EXT-X-VERSION:3\n");
    append_number_line(&mut out, "#EXT-X-TARGETDURATION:", target);
    append_number_line(&mut out, "#EXT-X-MEDIA-SEQUENCE:", store.media_sequence);
    if cfg.window.is_some() && store.discontinuity_sequence > 0 {
        append_number_line(
            &mut out,
            "#EXT-X-DISCONTINUITY-SEQUENCE:",
            store.discontinuity_sequence,
        );
    }
    if cfg.window.is_none() {
        out.append("#EXT-X-PLAYLIST-TYPE:VOD\n");
    }
    out.append("#EXT-X-INDEPENDENT-SEGMENTS\n");
    let ghost head = playlist_head(cfg.view(), store.view());
    let ghost all = store.view().segments;
    assert(out@ =~= head);
    let mut i: usize = 0;
    assert(all.take(0) =~= Seq::<StoredView>::empty());
    assert(out@ =~= head + all_segment_lines(all.take(0)));
    while i < store.segments.len()
        invariant
            i <= store.segments@.len(),
            all == store.view().segments,
            out@ == head + all_segment_lines(all.take(i as int)),
        decreases store.segments@.len() - i,
    {
        append_segment_lines(&mut out, &store.segments[i]);
        proof {
            assert(all.take(i + 1).drop_last() =~= all.take(i as int));
            assert(all.take(i + 1).last() == store.segments@[i as int].view());
            assert(out@ =~= head + all_segment_lines(all.take(i + 1)));
        }
        i = i + 1;
    }
    assert(all.take(i as int) =~= all);
    if cfg.window.is_none() && finished {
        out.append("#EXT-X-ENDLIST\n");
    }
    assert(out@ =~= playlist_text(cfg.view(), store.view(), finished));
    out
}

// ---------------------------------------------------------------------------
// What holds of every store
// ---------------------------------------------------------------------------

/// What holds of a store whatever its length: the numbering is consecutive,
/// the names follow it, and the target duration covers every segment. The
/// numbering is claimed as long as the counter has not reached the top of its
/// range.
pub open spec fn numbered(cfg: ConfigView, store: StoreView) -> bool {
    &&& store.target_duration >= cfg.target_secs
    &&& forall|i: int|
        0 <= i < store.segments.len() ==> (#[trigger] store.segments[i]).ceil_secs
            <= store.target_duration
    &&& store.next_seq < u64::MAX ==> {
        &&& store.next_seq == store.media_sequence + store.segments.len()
        &&& forall|i: int|
            0 <= i < store.segments.len() ==> (#[trigger] store.segments[i]).name == segment_name(
                cfg,
                (store.media_sequence + i) as nat,
            )
    }
}

/// What holds of every store of a session.
pub open spec fn store_valid(cfg: ConfigView, store: StoreView) -> bool {
    &&& numbered(cfg, store)
    &&& match cfg.window {
        Some(window) => store.segments.len() <= window,
        None => store.media_sequence == 0 && store.discontinuity_sequence == 0,
    }
}

proof fn lemma_windowed(cfg: ConfigView, store: StoreView, window: nat)
    requires
        numbered(cfg, store),
    ensures
        numbered(cfg, windowed(store, window)),
        windowed(store, window).segments.len() <= window,
        windowed(store, window).target_duration == store.target_duration,
        windowed(store, window).next_seq == store.next_seq,
        windowed(store, window).media_sequence >= store.media_sequence,
        windowed(store, window).discontinuity_sequence >= store.discontinuity_sequence,
    decreases store.segments.len(),
{
    if store.segments.len() > window {
        let next = rolled_off(store);
        assert forall|i: int| 0 <= i < next.segments.len() implies (
        #[trigger] next.segments[i]).ceil_secs <= next.target_duration by {
            assert(next.segments[i] == store.segments[i + 1]);
        }
        if store.next_seq < u64::MAX {
            assert forall|i: int| 0 <= i < next.segments.len() implies (
            #[trigger] next.segments[i]).name == segment_name(
                cfg,
                (next.media_sequence + i) as nat,
            ) by {
                assert(next.segments[i] == store.segments[i + 1]);
            }
        }
        lemma_windowed(cfg, next, window);
    }
}

proof fn lemma_appended(cfg: ConfigView, store: StoreView, cut: CutView)
    requires
        numbered(cfg, store),
    ensures
        numbered(cfg, appended(store, cfg, cut)),
{
    let next = appended(store, cfg, cut);
    assert forall|i: int| 0 <= i < next.segments.len() implies (
    #[trigger] next.segments[i]).ceil_secs <= next.target_duration by {
        if i < store.segments.len() {
            assert(next.segments[i] == store.segments[i]);
        }
    }
    if next.next_seq < u64::MAX {
        assert forall|i: int| 0 <= i < next.segments.len() implies (
        #[trigger] next.segments[i]).name == segment_name(
            cfg,
            (next.media_sequence + i) as nat,
        ) by {
            if i < store.segments.len() {
                assert(next.segments[i] == store.segments[i]);
            }
        }
    }
}

/// A store without segments is valid.
pub proof fn empty_store_is_valid(cfg: ConfigView)
    ensures
        store_valid(cfg, empty_store(cfg)),
{
}

/// Committing segments keeps a store valid. In particular a rolling playlist
/// never exceeds its window, segments are numbered consecutively, and the
/// target duration covers every segment in the playlist. Neither the target
/// duration nor the numbers in the playlist head ever go down.
pub proof fn committing_keeps_the_store_valid(cfg: ConfigView, store: StoreView, cuts: Seq<CutView>)
    requires
        store_valid(cfg, store),
    ensures
        store_valid(cfg, stored_all(store, cfg, cuts)),
        stored_all(store, cfg, cuts).target_duration >= store.target_duration,
        stored_all(store, cfg, cuts).media_sequence >= store.media_sequence,
        stored_all(store, cfg, cuts).discontinuity_sequence >= store.discontinuity_sequence,
        stored_all(store, cfg, cuts).next_seq >= store.next_seq,
    decreases cuts.len(),
{
    if cuts.len() > 0 {
        let before = stored_all(store, cfg, cuts.drop_last());
        committing_keeps_the_store_valid(cfg, store, cuts.drop_last());
        lemma_appended(cfg, before, cuts.last());
        if let Some(window) = cfg.window {
            lemma_windowed(cfg, appended(before, cfg, cuts.last()), window as nat);
        }
    }
}

/// A VOD session drops nothing: what was committed stays in front of what is
/// committed later, and every new segment is listed.
pub proof fn vod_keeps_every_segment(cfg: ConfigView, store: StoreView, cuts: Seq<CutView>)
    requires
        cfg.window is None,
    ensures
        ({
            let after = stored_all(store, cfg, cuts);
            &&& after.segments.len() == store.segments.len() + cuts.len()
            &&& after.segments.take(store.segments.len() as int) == store.segments
            &&& forall|i: int|
                0 <= i < cuts.len() ==> (#[trigger] after.segments[store.segments.len() + i]).bytes
                    == cuts[i].bytes
        }),
    decreases cuts.len(),
{
    if cuts.len() == 0 {
        assert(store.segments.take(store.segments.len() as int) =~= store.segments);
    } else {
        let before = stored_all(store, cfg, cuts.drop_last());
        let after = stored_all(store, cfg, cuts);
        vod_keeps_every_segment(cfg, store, cuts.drop_last());
        let n = store.segments.len();
        assert(after.segments.take(n as int) =~= before.segments.take(n as int));
        assert forall|i: int| 0 <= i < cuts.len() implies (#[trigger] after.segments[n + i]).bytes
            == cuts[i].bytes by {
            if i < cuts.len() - 1 {
                assert(after.segments[n + i] == before.segments[n + i]);
                assert(before.segments[n + i].bytes == cuts.drop_last()[i].bytes);
            }
        }
    }
}

/// How many segments are discontinuous.
pub open spec fn discontinuities(segments: Seq<StoredView>) -> nat
    decreases segments.len(),
{
    if segments.len() == 0 {
        0
    } else {
        discontinuities(segments.drop_first()) + (if segments[0].discontinuous {
            1nat
        } else {
            0
        })
    }
}

proof fn lemma_discontinuities_push(segments: Seq<StoredView>, segment: StoredView)
    ensures
        discontinuities(segments.push(segment)) == discontinuities(segments) + (
        if segment.discontinuous {
            1nat
        } else {
            0
        }),
    decreases segments.len(),
{
    if segments.len() == 0 {
        assert(segments.push(segment).drop_first() =~= segments);
    } else {
        assert(segments.push(segment).drop_first() =~= segments.drop_first().push(segment));
        lemma_discontinuities_push(segments.drop_first(), segment);
    }
}

proof fn lemma_windowed_discontinuities(store: StoreView, window: nat)
    requires
        store.discontinuity_sequence + discontinuities(store.segments) < u64::MAX,
    ensures
        windowed(store, window).discontinuity_sequence + discontinuities(
            windowed(store, window).segments,
        ) == store.discontinuity_sequence + discontinuities(store.segments),
    decreases store.segments.len(),
{
    if store.segments.len() > window {
        lemma_windowed_discontinuities(rolled_off(store), window);
    }
}

/// A discontinuity is counted once, in the playlist or in its head: a segment
/// that rolls off moves its discontinuity from its own tag to the
/// discontinuity sequence (RFC 8216 §6.2.1). Claimed while the counter is
/// below the top of its range.
pub proof fn discontinuities_are_kept_count_of(cfg: ConfigView, store: StoreView, cut: CutView)
    requires
        store.discontinuity_sequence + discontinuities(store.segments) + 1 < u64::MAX,
    ensures
        ({
            let after = stored(store, cfg, cut);
            after.discontinuity_sequence + discontinuities(after.segments)
                == store.discontinuity_sequence + discontinuities(store.segments) + (
            if cut.discontinuous {
                1nat
            } else {
                0
            })
        }),
{
    let grown = appended(store, cfg, cut);
    lemma_discontinuities_push(store.segments, grown.segments.last());
    assert(grown.segments =~= store.segments.push(grown.segments.last()));
    if let Some(window) = cfg.window {
        lemma_windowed_discontinuities(grown, window as nat);
    }
}

proof fn lemma_windowed_is_suffix(store: StoreView, window: nat)
    ensures
        windowed(store, window).segments == store.segments.skip(
            if store.segments.len() > window {
                store.segments.len() - window
            } else {
                0
            },
        ),
    decreases store.segments.len(),
{
    if store.segments.len() > window {
        let next = rolled_off(store);
        lemma_windowed_is_suffix(next, window);
        let dropped = store.segments.len() - window;
        assert(next.segments.skip(dropped - 1) =~= store.segments.skip(dropped));
    } else {
        assert(store.segments.skip(0) =~= store.segments);
    }
}

/// A rolling session keeps the newest segments, as many as its window holds.
pub proof fn rolling_keeps_the_newest(cfg: ConfigView, store: StoreView, cut: CutView)
    requires
        cfg.window is Some,
    ensures
        ({
            let all = appended(store, cfg, cut).segments;
            let window = cfg.window->0;
            stored(store, cfg, cut).segments == all.skip(
                if all.len() > window {
                    all.len() - window
                } else {
                    0
                },
            )
        }),
{
    lemma_windowed_is_suffix(appended(store, cfg, cut), cfg.window->0 as nat);
}

proof fn lemma_find(segments: Seq<StoredView>, at: int)
    requires
        0 <= at < segments.len(),
        forall|i: int|
            0 <= i < at ==> (#[trigger] segments[i]).name != segments[at].name,
    ensures
        find_segment(segments, segments[at].name) == Some(segments[at]),
    decreases at,
{
    if at > 0 {
        let rest = segments.drop_first();
        assert forall|i: int| 0 <= i < at - 1 implies (#[trigger] rest[i]).name != rest[at
            - 1].name by {
            assert(rest[i] == segments[i + 1]);
        }
        lemma_find(rest, at - 1);
    }
}

proof fn lemma_names_differ(cfg: ConfigView, a: nat, b: nat)
    requires
        a != b,
    ensures
        segment_name(cfg, a) != segment_name(cfg, b),
{
    if segment_name(cfg, a) == segment_name(cfg, b) {
        let x = segment_name(cfg, a);
        let y = segment_name(cfg, b);
        let from = cfg.uri_prefix.len() as int;
        let to = x.len() - ".ts"@.len();
        assert(x.subrange(from, to) =~= decimal_text(a));
        assert(y.subrange(from, to) =~= decimal_text(b));
        decimal_is_injective(a, b);
    }
}

/// Every segment that the playlist lists can be fetched under the name that it
/// is listed by.
pub proof fn listed_segments_are_served(cfg: ConfigView, store: StoreView, at: int)
    requires
        store_valid(cfg, store),
        store.next_seq < u64::MAX,
        0 <= at < store.segments.len(),
    ensures
        find_segment(store.segments, store.segments[at].name) == Some(store.segments[at]),
{
    let wanted = store.segments[at].name;
    assert forall|i: int| 0 <= i < at implies (#[trigger] store.segments[i]).name != wanted by {
        lemma_names_differ(
            cfg,
            (store.media_sequence + i) as nat,
            (store.media_sequence + at) as nat,
        );
    }
    lemma_find(store.segments, at);
}

} // verus!
