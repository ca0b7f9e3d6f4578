//! What a whole capture gives, event by event.

use vstd::prelude::*;
use crate::ac3::decoder::{audio_of, decode_from, AuOutcome, CollectedView};
use crate::engine::{
    decoded_audio, engine_run, engine_step, is_track, with_decoded_audio, EngineView, TrackInfo,
    UnitView, VideoUnit,
};
use crate::ts::demux::{EventView, SampleView};
use crate::ts::track::{meta_of, TrackView};

verus! {

/// Whether `ticks` is a time of `at` at this timescale, brought to 90 kHz and
/// rounded down.
pub open spec fn at_90k(ticks: int, at: int, timescale: int) -> bool {
    ticks * timescale <= at * 90_000 < (ticks + 1) * timescale
}

/// Whether a track of this timescale can tell when a sample of it is due.
pub open spec fn tells_time(time: Option<i64>, timescale: u32) -> bool {
    time matches Some(t) && t >= 0 && timescale > 0 && t * 90_000 < 0x1_0000_0000_0000_0000
        * timescale
}

proof fn lemma_ticks(t: int, timescale: int)
    requires
        0 <= t,
        timescale > 0,
    ensures
        at_90k(t * 90_000 / timescale, t, timescale),
        t * 90_000 / timescale >= 0,
        t * 90_000 / timescale > u64::MAX <==> t * 90_000 >= 0x1_0000_0000_0000_0000 * timescale,
{
    let q = t * 90_000 / timescale;
    vstd::arithmetic::div_mod::lemma_fundamental_div_mod(t * 90_000, timescale);
    vstd::arithmetic::div_mod::lemma_mod_bound(t * 90_000, timescale);
    vstd::arithmetic::div_mod::lemma_div_pos_is_pos(t * 90_000, timescale);
    assert(timescale * q == q * timescale) by (nonlinear_arith);
    assert((q + 1) * timescale == q * timescale + timescale) by (nonlinear_arith);
    let top = 0x1_0000_0000_0000_0000int;
    if q >= top {
        assert(q * timescale >= top * timescale) by (nonlinear_arith)
            requires
                q >= top,
                timescale > 0,
        ;
    } else {
        assert((q + 1) * timescale <= top * timescale) by (nonlinear_arith)
            requires
                q + 1 <= top,
                timescale > 0,
        ;
    }
}

/// A video unit shows its fields.
pub proof fn units_show_their_fields(unit: VideoUnit)
    ensures
        unit.view().pts == unit.pts,
        unit.view().timed == unit.timed,
        unit.view().is_sync == unit.is_sync,
        unit.view().data == unit.data@,
{
}

/// A sample of the video track becomes one unit behind those before it. The
/// unit has the presentation time of the sample, whatever its decode time, and
/// is untimed, at zero, where that is not known; it has the sample's bytes and
/// its flag. A sample of any other track becomes none.
pub proof fn units_are_timed_by_presentation(
    engine: EngineView,
    track_id: u32,
    sample: SampleView,
    timescale: u32,
)
    ensures
        ({
            let after = engine_step(engine, EventView::Sample { track_id, sample });
            &&& engine.video_track == Some((track_id, timescale)) ==> {
                let unit = after.video_units.last();
                &&& after.video_units.len() == engine.video_units.len() + 1
                &&& after.video_units.drop_last() == engine.video_units
                &&& unit.timed == tells_time(sample.pts, timescale)
                &&& unit.timed ==> at_90k(unit.pts as int, sample.pts->0 as int, timescale as int)
                &&& !unit.timed ==> unit.pts == 0
                &&& unit.timed && timescale == 90_000 ==> unit.pts == sample.pts->0
                &&& unit.is_sync == sample.is_sync
                &&& unit.data == sample.data
                &&& after.audio_es == engine.audio_es
            }
            &&& !is_track(engine.video_track, track_id) ==> after.video_units == engine.video_units
        }),
{
    let after = engine_step(engine, EventView::Sample { track_id, sample });
    if engine.video_track == Some((track_id, timescale)) {
        assert(after.video_units.drop_last() =~= engine.video_units);
        if let Some(t) = sample.pts {
            if t >= 0 && timescale > 0 {
                lemma_ticks(t as int, timescale as int);
            }
        }
    }
}

/// Two samples that differ in the decode time alone give equal units.
pub proof fn decode_times_do_not_matter(
    engine: EngineView,
    track_id: u32,
    sample: SampleView,
    dts: Option<i64>,
)
    ensures
        engine_step(engine, EventView::Sample { track_id, sample }) == engine_step(
            engine,
            EventView::Sample { track_id, sample: SampleView { dts, ..sample } },
        ),
{
}

/// The samples of a track among the events, in order.
pub open spec fn samples_of_track(events: Seq<EventView>, id: u32) -> Seq<SampleView>
    decreases events.len(),
{
    if events.len() == 0 {
        Seq::empty()
    } else {
        let rest = samples_of_track(events.drop_first(), id);
        match events[0] {
            EventView::Sample { track_id, sample } => if track_id == id {
                seq![sample] + rest
            } else {
                rest
            },
            _ => rest,
        }
    }
}

/// The bytes of samples, one after another.
pub open spec fn joined(samples: Seq<SampleView>) -> Seq<u8>
    decreases samples.len(),
{
    if samples.len() == 0 {
        Seq::empty()
    } else {
        samples[0].data + joined(samples.drop_first())
    }
}

/// Whether units hold the bytes and flags of samples, in order.
pub open spec fn units_of(units: Seq<UnitView>, samples: Seq<SampleView>) -> bool {
    &&& units.len() == samples.len()
    &&& forall|i: int|
        0 <= i < units.len() ==> (#[trigger] units[i]).data == samples[i].data && units[i].is_sync
            == samples[i].is_sync
}

/// Over any events, the units that are added are the samples of the video
/// track, and the coded audio that is added is that of the samples of the audio
/// track: all of them, in order, and nothing else.
pub proof fn every_sample_is_collected(
    engine: EngineView,
    events: Seq<EventView>,
    video: u32,
    audio: u32,
)
    requires
        is_track(engine.video_track, video),
        is_track(engine.audio_track, audio),
        video != audio,
    ensures
        ({
            let after = engine_run(engine, events);
            let n = engine.video_units.len() as int;
            &&& after.video_units.len() >= n
            &&& after.video_units.take(n) == engine.video_units
            &&& units_of(after.video_units.skip(n), samples_of_track(events, video))
            &&& after.audio_es == engine.audio_es + joined(samples_of_track(events, audio))
        }),
    decreases events.len(),
{
    let n = engine.video_units.len() as int;
    let after = engine_run(engine, events);
    if events.len() == 0 {
        assert(after.video_units.take(n) =~= engine.video_units);
        assert(after.audio_es =~= engine.audio_es + joined(samples_of_track(events, audio)));
    } else {
        let next = engine_step(engine, events[0]);
        let m = next.video_units.len() as int;
        every_sample_is_collected(next, events.drop_first(), video, audio);
        let rest = samples_of_track(events.drop_first(), video);
        match events[0] {
            EventView::Sample { track_id, sample } => {
                if track_id == video {
                    let all = samples_of_track(events, video);
                    let units = after.video_units.skip(n);
                    assert(after.video_units.take(n) =~= after.video_units.take(m).take(n));
                    assert(next.video_units.take(n) =~= engine.video_units);
                    assert(after.video_units.take(m)[n] == after.video_units[n]);
                    assert forall|i: int| 0 <= i < units.len() implies (#[trigger] units[i]).data
                        == all[i].data && units[i].is_sync == all[i].is_sync by {
                        if i > 0 {
                            assert(units[i] == after.video_units.skip(m)[i - 1]);
                            assert(all[i] == rest[i - 1]);
                        }
                    }
                } else if track_id == audio {
                    let all = samples_of_track(events, audio);
                    assert(all.drop_first() =~= samples_of_track(events.drop_first(), audio));
                    assert(after.audio_es =~= engine.audio_es + joined(all));
                }
            },
            _ => {},
        }
    }
}

/// The clock is set by the first audio sample of which the time is known: its
/// presentation time at 90 kHz.
pub proof fn audio_starts_at_its_first_known_time(
    engine: EngineView,
    track_id: u32,
    sample: SampleView,
    timescale: u32,
)
    requires
        engine.audio_track == Some((track_id, timescale)),
        !is_track(engine.video_track, track_id),
    ensures
        ({
            let after = engine_step(engine, EventView::Sample { track_id, sample });
            &&& engine.first_audio_pts is Some ==> after.first_audio_pts == engine.first_audio_pts
            &&& engine.first_audio_pts is None ==> (after.first_audio_pts is Some) == tells_time(
                sample.pts,
                timescale,
            )
            &&& engine.first_audio_pts is None && after.first_audio_pts is Some ==> at_90k(
                after.first_audio_pts->0 as int,
                sample.pts->0 as int,
                timescale as int,
            )
            &&& after.audio_es == engine.audio_es + sample.data
        }),
{
    if let Some(t) = sample.pts {
        if t >= 0 && timescale > 0 {
            lemma_ticks(t as int, timescale as int);
        }
    }
}

/// An announced track is listed behind those before it, with its number, PID,
/// kind and language. The first video track and the first audio track are the
/// ones that are played.
pub proof fn first_tracks_are_played(engine: EngineView, track: TrackView)
    ensures
        ({
            let after = engine_step(engine, EventView::TrackAdded(track));
            let meta = meta_of(track);
            let listed: TrackInfo = after.tracks.last();
            &&& after.tracks.len() == engine.tracks.len() + 1
            &&& after.tracks.drop_last() == engine.tracks
            &&& listed.track_id == track.track_id
            &&& listed.pid == meta.pid
            &&& listed.kind == meta.kind
            &&& listed.language == meta.language
            &&& engine.video_track is Some ==> after.video_track == engine.video_track
                && after.video_record == engine.video_record
            &&& engine.video_track is None && meta.kind is Video ==> after.video_track == Some(
                (track.track_id, track.timescale),
            ) && after.video_record == track.avc_record
            &&& engine.video_track is None && !(meta.kind is Video) ==> after.video_track is None
            &&& engine.audio_track is Some ==> after.audio_track == engine.audio_track
            &&& engine.audio_track is None && meta.kind is Audio ==> after.audio_track == Some(
                (track.track_id, track.timescale),
            )
            &&& engine.audio_track is None && !(meta.kind is Audio) ==> after.audio_track is None
            &&& after.video_units == engine.video_units
            &&& after.audio_es == engine.audio_es
        }),
{
    assert(engine_step(engine, EventView::TrackAdded(track)).tracks.drop_last() =~= engine.tracks);
}

/// A change of a track is listed in its first place and keeps every other
/// entry. A track that is played goes on with its new timescale, and the video
/// with its new configuration.
pub proof fn updates_reach_the_played_tracks(engine: EngineView, track: TrackView, i: int)
    requires
        0 <= i < engine.tracks.len(),
    ensures
        ({
            let after = engine_step(engine, EventView::TrackUpdated(track));
            let first = engine.tracks[i].track_id == track.track_id && forall|j: int|
                0 <= j < i ==> (#[trigger] engine.tracks[j]).track_id != track.track_id;
            &&& after.tracks.len() == engine.tracks.len()
            &&& first ==> after.tracks[i].track_id == track.track_id && after.tracks[i].kind
                == meta_of(track).kind && after.tracks[i].pid == meta_of(track).pid
                && after.tracks[i].language == meta_of(track).language
            &&& !first ==> after.tracks[i] == engine.tracks[i]
            &&& is_track(engine.video_track, track.track_id) ==> after.video_track == Some(
                (track.track_id, track.timescale),
            ) && after.video_record == track.avc_record
            &&& !is_track(engine.video_track, track.track_id) ==> after.video_track
                == engine.video_track && after.video_record == engine.video_record
            &&& is_track(engine.audio_track, track.track_id) ==> after.audio_track == Some(
                (track.track_id, track.timescale),
            )
            &&& !is_track(engine.audio_track, track.track_id) ==> after.audio_track
                == engine.audio_track
        }),
{
    lemma_first_entry(engine.tracks, track.track_id, 0);
}

proof fn lemma_first_entry(tracks: Seq<TrackInfo>, id: u32, from: int)
    requires
        0 <= from <= tracks.len(),
    ensures
        match crate::engine::entry_of(tracks, id, from) {
            Some(at) => from <= at < tracks.len() && tracks[at].track_id == id && forall|j: int|
                from <= j < at ==> (#[trigger] tracks[j]).track_id != id,
            None => forall|j: int| from <= j < tracks.len() ==> (#[trigger] tracks[j]).track_id != id,
        },
    decreases tracks.len() - from,
{
    if from < tracks.len() && tracks[from].track_id != id {
        lemma_first_entry(tracks, id, from + 1);
    }
}

/// The audio of a capture is what a fresh decoder makes of all its coded bytes;
/// there is none where that fails.
pub proof fn captures_are_decoded_by_a_fresh_decoder(es: Seq<u8>)
    ensures
        match decode_from(
            es,
            0,
            Seq::empty(),
            CollectedView { pcm: Seq::empty(), sample_rate: None, channels: None },
        ) {
            AuOutcome::Done(collected, _) => decoded_audio(es) == audio_of(collected),
            AuOutcome::Failed(..) => decoded_audio(es) is None,
        },
{
}

/// Finalizing decodes all of the coded audio at once and keeps what comes of
/// it; nothing else of what was collected changes.
pub proof fn finalizing_decodes_all_audio(engine: EngineView)
    requires
        !engine.audio_decoded,
        engine.audio_es.len() > 0,
    ensures
        ({
            let after = with_decoded_audio(engine);
            &&& after.video_units == engine.video_units
            &&& after.tracks == engine.tracks
            &&& after.audio_es == engine.audio_es
            &&& match decoded_audio(engine.audio_es) {
                Some(audio) => if audio.sample_rate > 0 && audio.channels > 0 {
                    &&& after.pcm == audio.pcm_s16le
                    &&& after.sample_rate == audio.sample_rate
                    &&& after.channels == audio.channels
                    &&& after.audio_decoded
                    &&& engine.first_audio_pts is None ==> after.clock == engine.clock
                    &&& engine.first_audio_pts matches Some(pts) ==> {
                        &&& after.clock.anchor_pts_raw == pts
                        &&& after.clock.sample_rate == audio.sample_rate
                        &&& after.clock.offset_us == 0
                        &&& 2 * audio.channels * after.clock.samples_played
                            <= audio.pcm_s16le.len() || audio.pcm_s16le.len() > u64::MAX
                        &&& audio.pcm_s16le.len() < 2 * audio.channels
                            * (after.clock.samples_played + 1) || audio.pcm_s16le.len() > u64::MAX
                    }
                } else {
                    after == engine
                },
                None => after.pcm == engine.pcm && after.audio_decoded,
            }
        }),
{
    if let Some(audio) = decoded_audio(engine.audio_es) {
        if audio.sample_rate > 0 && audio.channels > 0 && audio.pcm_s16le.len() <= u64::MAX {
            let n = audio.pcm_s16le.len() as int;
            let d = audio.channels as int * 2;
            vstd::arithmetic::div_mod::lemma_fundamental_div_mod(n, d);
            vstd::arithmetic::div_mod::lemma_mod_bound(n, d);
            vstd::arithmetic::div_mod::lemma_div_pos_is_pos(n, d);
            vstd::arithmetic::div_mod::lemma_div_nonincreasing(n, d);
            let q = n / d;
            assert(d * q == 2 * audio.channels * q) by (nonlinear_arith)
                requires
                    d == audio.channels * 2,
            ;
            assert(d * (q + 1) == d * q + d) by (nonlinear_arith);
            assert(d * (q + 1) == 2 * audio.channels * (q + 1)) by (nonlinear_arith)
                requires
                    d == audio.channels * 2,
            ;
        }
    }
}

} // verus!
