//! What holds of tracks and of the configuration of their decoders.

use vstd::prelude::*;
use crate::ts::avc::{
    avcc_bytes, be16, description_of, has_wire_form, parameter_sets, RecordView,
};
use crate::ts::codec::{AudioCodec, SubtitleKind, TrackKind, VideoCodec};
use crate::ts::demux::{
    codec_held, event_of, events_on_feed, events_on_finish, identity_held, raised_by_feed,
    raised_by_finish, record_held, sample_held, track_of, EventView, RawEvent,
};
use crate::ts::h264_config::{
    config_in, first_nal, next_start, prefixed_from, record_of, sps_in, without_trailing_zeros,
    SpsInfo,
};
use crate::ts::ticks::{ticks_90k, ticks_of};
use crate::ts::track::{
    audio_codec_in, descriptors_in, language_in, meta_of, meta_with, subtitle_kind_in, Descriptor,
    TrackView,
};

verus! {

// ---------------------------------------------------------------------------
// Descriptors
// ---------------------------------------------------------------------------

/// A track keeps its own PID and timescale, and its language is that of the
/// first descriptor that gives one.
pub proof fn tracks_keep_their_identity(track: TrackView, descriptors: Seq<Descriptor>, at: int)
    ensures
        meta_with(track, descriptors).pid == track.source_pid,
        meta_with(track, descriptors).timescale == track.timescale,
        0 <= at < descriptors.len() && (forall|j: int|
            0 <= j < at ==> !(#[trigger] descriptors[j] matches Descriptor::Iso639Language(Some(_))))
            ==> (descriptors[at] matches Descriptor::Iso639Language(Some(code)) ==> meta_with(
            track,
            descriptors,
        ).language == Some(code)),
        (forall|j: int|
            0 <= j < descriptors.len() ==> !(#[trigger] descriptors[j] matches
                Descriptor::Iso639Language(Some(_)))) ==> meta_with(track, descriptors).language
            is None,
{
    lemma_language(descriptors, at);
}

proof fn lemma_language(descriptors: Seq<Descriptor>, at: int)
    ensures
        0 <= at < descriptors.len() && (forall|j: int|
            0 <= j < at ==> !(#[trigger] descriptors[j] matches Descriptor::Iso639Language(Some(_))))
            ==> (descriptors[at] matches Descriptor::Iso639Language(Some(code)) ==> language_in(
            descriptors,
        ) == Some(code)),
        (forall|j: int|
            0 <= j < descriptors.len() ==> !(#[trigger] descriptors[j] matches
                Descriptor::Iso639Language(Some(_)))) ==> language_in(descriptors) is None,
    decreases descriptors.len(),
{
    if descriptors.len() > 0 {
        let rest = descriptors.drop_first();
        lemma_language(rest, at - 1);
        assert forall|j: int| 0 <= j < rest.len() implies rest[j] == descriptors[j + 1] by {}
        if at > 0 && at < descriptors.len() && (forall|j: int|
            0 <= j < at ==> !(#[trigger] descriptors[j] matches Descriptor::Iso639Language(Some(
                _,
            )))) {
            assert forall|j: int| 0 <= j < at - 1 implies !(#[trigger] rest[j] matches
                Descriptor::Iso639Language(Some(_))) by {
                assert(rest[j] == descriptors[j + 1]);
            }
            assert(rest[at - 1] == descriptors[at]);
            assert(!(descriptors[0] matches Descriptor::Iso639Language(Some(_))));
        }
        if forall|j: int|
            0 <= j < descriptors.len() ==> !(#[trigger] descriptors[j] matches
                Descriptor::Iso639Language(Some(_))) {
            assert forall|j: int| 0 <= j < rest.len() implies !(#[trigger] rest[j] matches
                Descriptor::Iso639Language(Some(_))) by {
                assert(rest[j] == descriptors[j + 1]);
            }
            assert(!(descriptors[0] matches Descriptor::Iso639Language(Some(_))));
        }
    }
}

/// The kind of a track is that of its codec: H.264 and H.265 are video; AC-3,
/// E-AC-3 and MPEG audio are audio of that codec.
pub proof fn kinds_follow_the_codec(track: TrackView, descriptors: Seq<Descriptor>)
    ensures
        ({
            let kind = meta_with(track, descriptors).kind;
            &&& track.codec is Avc ==> kind == TrackKind::Video(VideoCodec::H264)
            &&& track.codec is Hevc ==> kind == TrackKind::Video(VideoCodec::H265)
            &&& track.codec is Ac3 ==> kind == TrackKind::Audio(AudioCodec::Ac3)
            &&& track.codec is Eac3 ==> kind == TrackKind::Audio(AudioCodec::EAc3)
            &&& track.codec is MpegAudio ==> kind == TrackKind::Audio(AudioCodec::Mp2)
            &&& track.codec is Other ==> kind == TrackKind::Other
        }),
{
}

/// The metadata of a track is read with its own descriptors.
pub proof fn tracks_are_read_with_their_descriptors(track: TrackView)
    ensures
        meta_of(track) == meta_with(track, descriptors_in(track.es_info_descriptors)),
{
}

/// Private data is what its descriptors announce: AC-3 by its descriptor or by
/// the registration "AC-3", E-AC-3 by its own; else DVB subtitles or teletext;
/// else nothing that is known. Each holds of a list with one such descriptor
/// wherever it stands among others that announce nothing.
pub proof fn private_data_is_what_is_announced(
    track: TrackView,
    before: Seq<Descriptor>,
    one: Descriptor,
    after: Seq<Descriptor>,
)
    requires
        track.codec is Data,
        forall|i: int| 0 <= i < before.len() ==> announces_nothing(#[trigger] before[i]),
        forall|i: int| 0 <= i < after.len() ==> announces_nothing(#[trigger] after[i]),
    ensures
        ({
            let kind = meta_with(track, before + seq![one] + after).kind;
            &&& one is Ac3 ==> kind == TrackKind::Audio(AudioCodec::Ac3)
            &&& one is EnhancedAc3 ==> kind == TrackKind::Audio(AudioCodec::EAc3)
            &&& one is Subtitling ==> kind == TrackKind::Subtitle(SubtitleKind::DvbSubtitles)
            &&& one is Teletext ==> kind == TrackKind::Subtitle(SubtitleKind::Teletext)
            &&& one is Other ==> kind == TrackKind::Other
            &&& one matches Descriptor::Registration(id) ==> (id@ == seq![0x41u8, 0x43u8, 0x2du8,
                0x33u8] ==> kind == TrackKind::Audio(AudioCodec::Ac3))
        }),
{
    lemma_skip(before, seq![one] + after);
    assert(before + (seq![one] + after) =~= before + seq![one] + after);
    let rest = seq![one] + after;
    assert(rest.drop_first() =~= after);
    lemma_skip(after, Seq::empty());
    assert(after + Seq::<Descriptor>::empty() =~= after);
}

/// Whether a descriptor tells nothing of what a track holds.
pub open spec fn announces_nothing(descriptor: Descriptor) -> bool {
    descriptor is Other || descriptor is Iso639Language
}

proof fn lemma_skip(before: Seq<Descriptor>, rest: Seq<Descriptor>)
    requires
        forall|i: int| 0 <= i < before.len() ==> announces_nothing(#[trigger] before[i]),
    ensures
        audio_codec_in(before + rest) == audio_codec_in(rest),
        subtitle_kind_in(before + rest) == subtitle_kind_in(rest),
    decreases before.len(),
{
    if before.len() == 0 {
        assert(before + rest =~= rest);
    } else {
        let tail = before.drop_first();
        assert(announces_nothing(before[0]));
        assert forall|i: int| 0 <= i < tail.len() implies announces_nothing(#[trigger] tail[i]) by {
            assert(tail[i] == before[i + 1]);
        }
        lemma_skip(tail, rest);
        assert((before + rest).drop_first() =~= tail + rest);
        assert((before + rest)[0] == before[0]);
    }
}

/// Events keep what the demuxer tells: the number, the sample and the times of
/// a sample, and of a track its number, PID, timescale, descriptors, codec and
/// configuration.
pub proof fn events_keep_what_is_told(
    track_id: u32,
    sample: transmux::ir::Sample,
    track: transmux::ir::TrackSpec,
)
    ensures
        event_of(RawEvent::Sample(track_id, sample)) == (EventView::Sample {
            track_id,
            sample: sample_held(sample),
        }),
        event_of(RawEvent::TrackAdded(track)) == EventView::TrackAdded(track_of(track)),
        event_of(RawEvent::TrackUpdated(track)) == EventView::TrackUpdated(track_of(track)),
        event_of(RawEvent::TrackRemoved(track_id)) == (EventView::TrackRemoved { track_id }),
        ({
            let told = track_of(track);
            &&& told.track_id == identity_held(track).track_id
            &&& told.timescale == identity_held(track).timescale
            &&& told.source_pid == identity_held(track).source_pid
            &&& told.es_info_descriptors == identity_held(track).es_info_descriptors
            &&& told.codec == codec_held(track)
            &&& told.avc_record == record_held(track)
            &&& told.source == track
        }),
{
}

/// Each event that the demuxer raises is handed out, in the order in which it
/// was raised, for a chunk of bytes as for the end of input. A clock reference
/// keeps its ticks and its rate.
pub proof fn events_come_in_order(
    input: Seq<Option<Seq<u8>>>,
    data: Seq<u8>,
    i: int,
    ticks: u64,
    clock_hz: u32,
    discontinuous: bool,
)
    ensures
        events_on_feed(input, data).len() == raised_by_feed(input, data).len(),
        0 <= i < raised_by_feed(input, data).len() ==> events_on_feed(input, data)[i] == event_of(
            raised_by_feed(input, data)[i],
        ),
        events_on_finish(input).len() == raised_by_finish(input).len(),
        0 <= i < raised_by_finish(input).len() ==> events_on_finish(input)[i] == event_of(
            raised_by_finish(input)[i],
        ),
        event_of(RawEvent::ClockReference(ticks, clock_hz, discontinuous)) == (
        EventView::ClockReference { ticks, clock_hz, discontinuous }),
        event_of(RawEvent::TrackAbandoned) is TrackAbandoned,
        event_of(RawEvent::Unknown) is Unknown,
{
}

// ---------------------------------------------------------------------------
// Times
// ---------------------------------------------------------------------------

/// A time that is not negative is kept, and no other is a time at all.
pub proof fn only_negative_times_are_refused(time: i64)
    ensures
        time >= 0 ==> ticks_of(Some(time)) == Some(time as u64),
        time < 0 ==> ticks_of(Some(time)) is None,
        ticks_of(None) is None,
        ticks_90k(None, 90_000) is None,
        time >= 0 ==> ticks_90k(Some(time), 90_000) == Some(time as u64),
        ticks_90k(Some(time), 0) is None,
{
}

// ---------------------------------------------------------------------------
// H.264
// ---------------------------------------------------------------------------

/// The configuration of a stream comes from its first sequence and its first
/// picture parameter set: those bytes stand in the record, with the profile,
/// the compatibility and the level that the first of them tells, and lengths of
/// four bytes; the picture size and the interlacing are told by it too.
pub proof fn first_parameter_sets_configure(
    nals: Seq<(u8, Seq<u8>)>,
    s: int,
    p: int,
    sps: SpsInfo,
)
    requires
        0 <= s < nals.len(),
        0 <= p < nals.len(),
        nals[s].0 == 7,
        nals[p].0 == 8,
        forall|j: int| 0 <= j < s ==> (#[trigger] nals[j]).0 != 7,
        forall|j: int| 0 <= j < p ==> (#[trigger] nals[j]).0 != 8,
        sps_in(nals[s].1) == Some(sps),
        nals[s].1.len() <= 0xffff,
        nals[p].1.len() <= 0xffff,
    ensures
        config_in(nals) matches Some(config) && {
            &&& config.record.sps == seq![nals[s].1]
            &&& config.record.pps == seq![nals[p].1]
            &&& config.record.profile_indication == sps.profile_idc
            &&& config.record.profile_compatibility == sps.constraint_flags
            &&& config.record.level_indication == sps.level_idc
            &&& config.record.length_size_minus_one == 3
            &&& config.record.configuration_version == 1
            &&& config.interlaced == sps.fields
            &&& sps.dimensions matches Some(size) ==> (size.0 <= 0xffff && size.1 <= 0xffff ==> {
                &&& config.width == size.0
                &&& config.height == size.1
            })
            &&& config.description == avcc_bytes(config.record)
            &&& config.record.chroma_format is Some <==> (sps.profile_idc == 100 || sps.profile_idc
                == 110 || sps.profile_idc == 122 || sps.profile_idc == 144)
            &&& config.record.chroma_format matches Some(c) ==> c == sps.chroma_format_idc % 256
            &&& config.record.chroma_format is Some ==> config.record.bit_depth_luma_minus8 == Some(
                sps.bit_depth_luma_minus8,
            ) && config.record.bit_depth_chroma_minus8 == Some(sps.bit_depth_chroma_minus8)
        },
{
    lemma_first_nal(nals, 7, 0, s);
    lemma_first_nal(nals, 8, 0, p);
    let record = record_of(sps, nals[s].1, nals[p].1);
    assert(record.sps[0] == nals[s].1 && record.pps[0] == nals[p].1);
    assert(has_wire_form(record));
}

proof fn lemma_first_nal(nals: Seq<(u8, Seq<u8>)>, kind: u8, from: int, at: int)
    requires
        0 <= from <= at < nals.len(),
        nals[at].0 == kind,
        forall|j: int| 0 <= j < at ==> (#[trigger] nals[j]).0 != kind,
    ensures
        first_nal(nals, kind, from) == Some(nals[at].1),
    decreases at - from,
{
    if from < at {
        assert(nals[from].0 != kind);
        lemma_first_nal(nals, kind, from + 1, at);
    }
}

/// A record is described by its wire form. One with more than 31 sequence
/// parameter sets, or more than 255 picture parameter sets, has none, and
/// neither has one with a parameter set that is longer than two bytes can say.
pub proof fn records_without_a_wire_form_are_not_described(record: RecordView, i: int)
    ensures
        record.sps.len() > 31 || record.pps.len() > 255 ==> description_of(record).len() == 0,
        0 <= i < record.sps.len() && record.sps[i].len() > 0xffff ==> description_of(record).len()
            == 0,
        0 <= i < record.pps.len() && record.pps[i].len() > 0xffff ==> description_of(record).len()
            == 0,
        has_wire_form(record) ==> description_of(record) == avcc_bytes(record),
{
}

/// The record of one sequence and one picture parameter set, in bytes: version,
/// profile, compatibility and level; the size of a length; the number of sets
/// and each set behind its length, first the sequence and then the picture
/// parameter set; and nothing more without a chroma format.
pub proof fn records_are_written_in_order(record: RecordView, sps: Seq<u8>, pps: Seq<u8>)
    requires
        record.sps == seq![sps],
        record.pps == seq![pps],
        record.chroma_format is None,
        record.length_size_minus_one == 3,
        sps.len() <= 0xffff,
        pps.len() <= 0xffff,
    ensures
        ({
            let bytes = avcc_bytes(record);
            let n = sps.len() as int;
            &&& bytes.len() == 6 + 2 + n + 1 + 2 + pps.len()
            &&& bytes[0] == record.configuration_version
            &&& bytes[1] == record.profile_indication
            &&& bytes[2] == record.profile_compatibility
            &&& bytes[3] == record.level_indication
            &&& bytes[4] == 0xff
            &&& bytes[5] == 0xe1
            &&& 256 * bytes[6] + bytes[7] == n
            &&& bytes.subrange(8, 8 + n) == sps
            &&& bytes[8 + n] == 1
            &&& 256 * bytes[9 + n] + bytes[10 + n] == pps.len()
            &&& bytes.subrange(11 + n, bytes.len() as int) == pps
        }),
{
    let bytes = avcc_bytes(record);
    let n = sps.len() as int;
    reveal_with_fuel(parameter_sets, 2);
    assert(seq![sps].drop_last() =~= Seq::empty());
    assert(seq![pps].drop_last() =~= Seq::empty());
    assert(parameter_sets(seq![sps]) =~= be16(n) + sps);
    assert(parameter_sets(seq![pps]) =~= be16(pps.len() as int) + pps);
    assert(bytes.subrange(8, 8 + n) =~= sps);
    assert(bytes.subrange(11 + n, bytes.len() as int) =~= pps);
}

/// Whether bytes hold no start code and do not end in a zero, also where a
/// start code follows them.
pub open spec fn is_nal(nal: Seq<u8>) -> bool {
    &&& nal.len() > 0
    &&& nal.last() != 0
    &&& forall|i: int|
        0 <= i && i + 3 <= nal.len() ==> !(#[trigger] nal[i] == 0 && nal[i + 1] == 0 && nal[i + 2]
            == 1)
}

proof fn lemma_nal_end(front: Seq<u8>, nal: Seq<u8>, rest: Seq<u8>, from: int)
    requires
        is_nal(nal),
        rest.len() == 0 || (rest.len() >= 3 && rest[0] == 0 && rest[1] == 0 && rest[2] == 1),
        front.len() <= from <= front.len() + nal.len(),
    ensures
        next_start(front + nal + rest, from) == front.len() + nal.len(),
    decreases front.len() + nal.len() - from,
{
    let data = front + nal + rest;
    let end = front.len() + nal.len();
    if from < end {
        if from + 3 <= data.len() {
            let i = from - front.len();
            if i + 3 <= nal.len() {
                assert(data[from] == nal[i] && data[from + 1] == nal[i + 1] && data[from + 2]
                    == nal[i + 2]);
            } else if i + 2 == nal.len() {
                assert(data[from + 1] == nal.last());
            } else {
                assert(data[from] == nal.last());
            }
            lemma_nal_end(front, nal, rest, from + 1);
        } else {
            assert(rest.len() == 0);
        }
    }
}

/// A NAL unit behind a start code becomes the same bytes behind their length in
/// four bytes, most significant first, and what follows it is converted in the
/// same way.
pub proof fn start_codes_become_lengths(nal: Seq<u8>, rest: Seq<u8>)
    requires
        is_nal(nal),
        nal.len() <= u32::MAX,
        rest.len() == 0 || (rest.len() >= 3 && rest[0] == 0 && rest[1] == 0 && rest[2] == 1),
    ensures
        ({
            let data = seq![0u8, 0u8, 1u8] + nal + rest;
            let out = prefixed_from(data, next_start(data, 0));
            &&& out.len() >= 4 + nal.len()
            &&& out[0] * 0x100_0000 + out[1] * 0x1_0000 + out[2] * 0x100 + out[3] == nal.len()
            &&& out.subrange(4, 4 + nal.len() as int) == nal
            &&& out.skip(4 + nal.len() as int) == prefixed_from(rest, 0)
        }),
{
    let code = seq![0u8, 0u8, 1u8];
    let data = code + nal + rest;
    let out = prefixed_from(data, next_start(data, 0));
    let end = 3 + nal.len() as int;
    assert(data[0] == 0 && data[1] == 0 && data[2] == 1);
    assert(next_start(data, 0) == 0);
    lemma_nal_end(code, nal, rest, 3);
    assert(data.subrange(3, end) =~= nal);
    assert(without_trailing_zeros(nal) == nal);
    lemma_prefixed_shift(code + nal, rest, 0);
    let n = nal.len() as int;
    assert(n == (n / 0x100_0000 % 256) * 0x100_0000 + (n / 0x1_0000 % 256) * 0x1_0000 + (n / 0x100
        % 256) * 0x100 + n % 256) by (nonlinear_arith)
        requires
            0 <= n <= u32::MAX,
    {
        assert(n / 0x100 == (n / 0x1_0000) * 256 + n / 0x100 % 256);
        assert(n / 0x1_0000 == (n / 0x100_0000) * 256 + n / 0x1_0000 % 256);
        assert(n / 0x100_0000 % 256 == n / 0x100_0000);
    }
    assert(out.subrange(4, 4 + n) =~= nal);
    assert(out.skip(4 + n) =~= prefixed_from(rest, 0));
}

proof fn lemma_next_shift(front: Seq<u8>, rest: Seq<u8>, from: int)
    requires
        0 <= from,
    ensures
        from <= rest.len() ==> next_start(front + rest, front.len() + from) == front.len()
            + next_start(rest, from),
        from <= rest.len() ==> from <= next_start(rest, from) <= rest.len(),
    decreases rest.len() - from,
{
    if from + 3 <= rest.len() {
        let data = front + rest;
        let n = front.len();
        assert(data[n + from] == rest[from] && data[n + from + 1] == rest[from + 1] && data[n + from
            + 2] == rest[from + 2]);
        lemma_next_shift(front, rest, from + 1);
    }
}

proof fn lemma_prefixed_shift(front: Seq<u8>, rest: Seq<u8>, at: int)
    requires
        0 <= at,
    ensures
        prefixed_from(front + rest, front.len() + at) == prefixed_from(rest, at),
    decreases rest.len() - at,
{
    if at + 3 <= rest.len() {
        let data = front + rest;
        let n = front.len() as int;
        lemma_next_shift(front, rest, at + 3);
        let end = next_start(rest, at + 3);
        assert(data.subrange(n + at + 3, n + end) =~= rest.subrange(at + 3, end));
        lemma_prefixed_shift(front, rest, end);
    }
}

} // verus!
