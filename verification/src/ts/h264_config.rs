//! Decoder configuration from the parameter sets in an H.264 stream.

use h264_reader::annexb::AnnexBReader;
use h264_reader::nal::sps::{FrameMbsFlags, SeqParameterSet};
use h264_reader::nal::{Nal, RefNal};
use h264_reader::push::NalInterest;
use vstd::prelude::*;
use crate::ts::avc::{
    avc1_string, avcc_bytes, has_wire_form, serialize_record, AVCDecoderConfigurationRecord,
    RecordView,
};

verus! {

/// Decoder configuration ready for WebCodecs `VideoDecoder.configure`.
pub struct VideoConfig {
    /// RFC 6381 codec string (e.g. `avc1.640028`).
    pub codec: String,
    /// The bare `avcC` record bytes, for WebCodecs `description`.
    pub description: Vec<u8>,
    /// True when the stream is interlaced or field-coded.
    pub interlaced: bool,
    /// Coded luma width in pixels, after cropping.
    pub width: u16,
    /// Coded luma height in pixels, after cropping.
    pub height: u16,
    /// The decoder configuration record, for an MSE init segment.
    pub record: AVCDecoderConfigurationRecord,
}

/// [`VideoConfig`] as a mathematical value.
pub struct ConfigView {
    pub codec: Seq<char>,
    pub description: Seq<u8>,
    pub interlaced: bool,
    pub width: u16,
    pub height: u16,
    pub record: RecordView,
}

impl VideoConfig {
    pub open spec fn view(&self) -> ConfigView {
        ConfigView {
            codec: self.codec@,
            description: self.description@,
            interlaced: self.interlaced,
            width: self.width,
            height: self.height,
            record: self.record.view(),
        }
    }
}

/// A coded access unit in Annex B form.
pub struct AccessUnit {
    pub pid: u16,
    pub pts_ticks: Option<u64>,
    pub dts_ticks: Option<u64>,
    pub es_bytes: Vec<u8>,
}

/// The bytes of access units.
pub open spec fn unit_bytes(units: Seq<AccessUnit>) -> Seq<Seq<u8>> {
    units.map_values(|u: AccessUnit| u.es_bytes@)
}

// ---------------------------------------------------------------------------
// NAL units
// ---------------------------------------------------------------------------

/// A complete NAL unit: its type, and its bytes with the header.
pub struct NalUnit {
    pub kind: u8,
    pub bytes: Vec<u8>,
}

/// NAL units as mathematical values.
pub open spec fn nal_views(nals: Seq<NalUnit>) -> Seq<(u8, Seq<u8>)> {
    nals.map_values(|n: NalUnit| (n.kind, n.bytes@))
}

/// The complete NAL units that `h264_reader` finds in a stream that is pushed
/// in these pieces, each with its type.
pub uninterp spec fn nals_in(pieces: Seq<Seq<u8>>) -> Seq<(u8, Seq<u8>)>;

/// Pushes access units through `h264_reader::annexb::AnnexBReader` and keeps
/// each complete NAL unit with a valid header. A unit that no start code
/// follows is not complete. The result is what [`nals_in`] names; it depends
/// on the bytes alone. No unit is empty.
#[verifier::external_body]
fn split_nals(units: &[AccessUnit]) -> (nals: Vec<NalUnit>)
    ensures
        nal_views(nals@) == nals_in(unit_bytes(units@)),
        forall|i: int| 0 <= i < nals@.len() ==> (#[trigger] nals@[i]).bytes@.len() > 0,
{
    let mut nals = Vec::new();
    let mut reader = AnnexBReader::accumulate(|nal: RefNal<'_>| {
        let mut bytes = Vec::new();
        let read = std::io::Read::read_to_end(&mut nal.reader(), &mut bytes);
        if let (Ok(header), Ok(_)) = (nal.header(), read) {
            nals.push(NalUnit { kind: header.nal_unit_type().id(), bytes });
        }
        NalInterest::Buffer
    });
    for unit in units {
        reader.push(&unit.es_bytes);
    }
    drop(reader);
    nals
}

/// The first NAL unit of this type from `from` on.
pub open spec fn first_nal(nals: Seq<(u8, Seq<u8>)>, kind: u8, from: int) -> Option<Seq<u8>>
    decreases nals.len() - from,
{
    if from < 0 || from >= nals.len() {
        None
    } else if nals[from].0 == kind {
        Some(nals[from].1)
    } else {
        first_nal(nals, kind, from + 1)
    }
}

/// NAL unit type of a sequence parameter set.
pub const NAL_SPS: u8 = 7;

/// NAL unit type of a picture parameter set.
pub const NAL_PPS: u8 = 8;

/// Find the first NAL unit of a type.
pub fn find_nal(nals: &Vec<NalUnit>, kind: u8) -> (at: Option<usize>)
    ensures
        match at {
            Some(i) => i < nals@.len() && first_nal(nal_views(nals@), kind, 0) == Some(
                nals@[i as int].bytes@,
            ),
            None => first_nal(nal_views(nals@), kind, 0) is None,
        },
{
    let ghost all = nal_views(nals@);
    let mut i: usize = 0;
    while i < nals.len()
        invariant
            i <= nals@.len(),
            all == nal_views(nals@),
            first_nal(all, kind, 0) == first_nal(all, kind, i as int),
        decreases nals@.len() - i,
    {
        assert(all[i as int] == (nals@[i as int].kind, nals@[i as int].bytes@));
        if nals[i].kind == kind {
            return Some(i);
        }
        i = i + 1;
    }
    None
}

// ---------------------------------------------------------------------------
// Sequence parameter sets
// ---------------------------------------------------------------------------

/// What a sequence parameter set tells.
#[derive(Debug, Clone, Copy, PartialEq, Eq)]
pub struct SpsInfo {
    pub profile_idc: u8,
    pub constraint_flags: u8,
    pub level_idc: u8,
    pub chroma_format_idc: u32,
    pub bit_depth_luma_minus8: u8,
    pub bit_depth_chroma_minus8: u8,
    /// Whether fields may be coded.
    pub fields: bool,
    /// Picture size in pixels after cropping, if it can be computed.
    pub dimensions: Option<(u32, u32)>,
}

/// What `h264_reader` reads in a sequence parameter set NAL unit.
pub uninterp spec fn sps_in(bytes: Seq<u8>) -> Option<SpsInfo>;

/// `SeqParameterSet::from_bits` on the payload of a NAL unit, and
/// `pixel_dimensions` of what it reads. The result is what [`sps_in`] names; it
/// depends on `bytes` alone.
#[verifier::external_body]
fn parse_sps(bytes: &[u8]) -> (sps: Option<SpsInfo>)
    requires
        bytes@.len() > 0,
    ensures
        sps == sps_in(bytes@),
{
    let sps = SeqParameterSet::from_bits(RefNal::new(bytes, &[], true).rbsp_bits()).ok()?;
    Some(SpsInfo {
        profile_idc: sps.profile_idc.into(),
        constraint_flags: sps.constraint_flags.into(),
        level_idc: sps.level_idc,
        chroma_format_idc: sps.chroma_info.chroma_format.to_u32(),
        bit_depth_luma_minus8: sps.chroma_info.bit_depth_luma_minus8,
        bit_depth_chroma_minus8: sps.chroma_info.bit_depth_chroma_minus8,
        fields: matches!(sps.frame_mbs_flags, FrameMbsFlags::Fields { .. }),
        dimensions: sps.pixel_dimensions().ok(),
    })
}

/// The profiles for which the chroma format and the bit depths are described
/// (ISO/IEC 14496-15 §5.3.3.1.2).
pub open spec fn has_extension(profile: u8) -> bool {
    profile == 100 || profile == 110 || profile == 122 || profile == 144
}

/// The low byte of a chroma format.
pub open spec fn chroma_byte(chroma_format_idc: u32) -> u8 {
    (chroma_format_idc % 256) as u8
}

/// The decoder configuration record for a pair of parameter sets.
pub open spec fn record_of(sps: SpsInfo, sps_bytes: Seq<u8>, pps_bytes: Seq<u8>) -> RecordView {
    let high = has_extension(sps.profile_idc);
    RecordView {
        configuration_version: 1,
        profile_indication: sps.profile_idc,
        profile_compatibility: sps.constraint_flags,
        level_indication: sps.level_idc,
        length_size_minus_one: 3,
        sps: seq![sps_bytes],
        pps: seq![pps_bytes],
        chroma_format: if high {
            Some(chroma_byte(sps.chroma_format_idc))
        } else {
            None
        },
        bit_depth_luma_minus8: if high {
            Some(sps.bit_depth_luma_minus8)
        } else {
            None
        },
        bit_depth_chroma_minus8: if high {
            Some(sps.bit_depth_chroma_minus8)
        } else {
            None
        },
        sps_ext: Seq::empty(),
    }
}

/// The configuration for a pair of parameter sets, of which the first tells
/// `sps`.
pub open spec fn config_with(sps: SpsInfo, sps_bytes: Seq<u8>, pps_bytes: Seq<u8>) -> ConfigView {
    let (width, height) = match sps.dimensions {
        Some(size) => size,
        None => (0u32, 0u32),
    };
    let record = record_of(sps, sps_bytes, pps_bytes);
    ConfigView {
        codec: avc1_string(sps.profile_idc, sps.constraint_flags, sps.level_idc),
        description: avcc_bytes(record),
        interlaced: sps.fields,
        width: (width % 65536) as u16,
        height: (height % 65536) as u16,
        record,
    }
}

/// The configuration that the first parameter sets in a stream give.
pub open spec fn config_in(nals: Seq<(u8, Seq<u8>)>) -> Option<ConfigView> {
    match (first_nal(nals, NAL_SPS, 0), first_nal(nals, NAL_PPS, 0)) {
        (Some(sps_bytes), Some(pps_bytes)) => match sps_in(sps_bytes) {
            Some(sps) => if has_wire_form(record_of(sps, sps_bytes, pps_bytes)) {
                Some(config_with(sps, sps_bytes, pps_bytes))
            } else {
                None
            },
            None => None,
        },
        _ => None,
    }
}

fn is_extended(profile: u8) -> (is: bool)
    ensures
        is == has_extension(profile),
{
    profile == 100 || profile == 110 || profile == 122 || profile == 144
}

/// Build the decoder configuration record from the parameter sets and what the
/// first of them tells.
pub fn avc_record(sps: &SpsInfo, sps_bytes: &[u8], pps_bytes: &[u8]) -> (record:
    AVCDecoderConfigurationRecord)
    ensures
        record.view() == record_of(*sps, sps_bytes@, pps_bytes@),
{
    let high: bool = is_extended(sps.profile_idc);
    let mut sps_list: Vec<Vec<u8>> = Vec::new();
    sps_list.push(vstd::slice::slice_to_vec(sps_bytes));
    let mut pps_list: Vec<Vec<u8>> = Vec::new();
    pps_list.push(vstd::slice::slice_to_vec(pps_bytes));
    let record = AVCDecoderConfigurationRecord {
        configuration_version: 1,
        profile_indication: sps.profile_idc,
        profile_compatibility: sps.constraint_flags,
        level_indication: sps.level_idc,
        length_size_minus_one: 3,
        sps: sps_list,
        pps: pps_list,
        chroma_format: if high {
            Some((sps.chroma_format_idc % 256) as u8)
        } else {
            None
        },
        bit_depth_luma_minus8: if high {
            Some(sps.bit_depth_luma_minus8)
        } else {
            None
        },
        bit_depth_chroma_minus8: if high {
            Some(sps.bit_depth_chroma_minus8)
        } else {
            None
        },
        sps_ext: Vec::new(),
    };
    proof {
        assert(record.view().sps =~= seq![sps_bytes@]);
        assert(record.view().pps =~= seq![pps_bytes@]);
        assert(record.view().sps_ext =~= Seq::empty());
    }
    record
}

/// Build the configuration for a pair of parameter sets, of which the first
/// tells `sps`.
pub fn config_from(sps: &SpsInfo, sps_bytes: &[u8], pps_bytes: &[u8]) -> (config: Option<VideoConfig>)
    ensures
        match config {
            Some(c) => has_wire_form(record_of(*sps, sps_bytes@, pps_bytes@)) && c.view()
                == config_with(*sps, sps_bytes@, pps_bytes@),
            None => !has_wire_form(record_of(*sps, sps_bytes@, pps_bytes@)),
        },
{
    let record: AVCDecoderConfigurationRecord = avc_record(sps, sps_bytes, pps_bytes);
    let description: Vec<u8> = match serialize_record(&record) {
        Some(description) => description,
        None => {
            return None;
        },
    };
    let (width, height) = sps_dimensions(sps);
    Some(
        VideoConfig {
            codec: crate::ts::avc::rfc6381_avc1(
                sps.profile_idc,
                sps.constraint_flags,
                sps.level_idc,
            ),
            description,
            interlaced: sps.fields,
            width,
            height,
            record,
        },
    )
}

/// Coded luma dimensions in pixels, modulo 2^16; zero where they cannot be
/// computed.
pub fn sps_dimensions(sps: &SpsInfo) -> (size: (u16, u16))
    ensures
        ({
            let (width, height) = match sps.dimensions {
                Some(d) => d,
                None => (0u32, 0u32),
            };
            size == ((width % 65536) as u16, (height % 65536) as u16)
        }),
{
    match sps.dimensions {
        Some((width, height)) => ((width % 65536) as u16, (height % 65536) as u16),
        None => (0, 0),
    }
}

/// Given the raw SPS and PPS NAL unit bytes (with the header byte), produce a
/// configuration; `None` where the SPS cannot be read or a parameter set is
/// too long for the record.
pub fn build_video_config(sps_bytes: &[u8], pps_bytes: &[u8]) -> (config: Option<VideoConfig>)
    requires
        sps_bytes@.len() > 0,
    ensures
        match (sps_in(sps_bytes@), config) {
            (Some(sps), Some(c)) => has_wire_form(record_of(sps, sps_bytes@, pps_bytes@))
                && c.view() == config_with(sps, sps_bytes@, pps_bytes@),
            (Some(sps), None) => !has_wire_form(record_of(sps, sps_bytes@, pps_bytes@)),
            (None, None) => true,
            (None, Some(_)) => false,
        },
{
    match parse_sps(sps_bytes) {
        Some(sps) => config_from(&sps, sps_bytes, pps_bytes),
        None => None,
    }
}

/// Build a WebCodecs `VideoDecoder` configuration from the first SPS and the
/// first PPS in H.264 video access units; `None` where either is missing or
/// the SPS cannot be read, and where one is too long for the record.
pub fn h264_decoder_config(access_units: &[AccessUnit]) -> (config: Option<VideoConfig>)
    ensures
        match (config_in(nals_in(unit_bytes(access_units@))), config) {
            (Some(expected), Some(c)) => c.view() == expected,
            (None, None) => true,
            _ => false,
        },
{
    let nals: Vec<NalUnit> = split_nals(access_units);
    match (find_nal(&nals, NAL_SPS), find_nal(&nals, NAL_PPS)) {
        (Some(s), Some(p)) => build_video_config(
            nals[s].bytes.as_slice(),
            nals[p].bytes.as_slice(),
        ),
        _ => None,
    }
}

// ---------------------------------------------------------------------------
// Length prefixes
// ---------------------------------------------------------------------------

/// The next start code `00 00 01` at or after `from`, or the end.
pub open spec fn next_start(data: Seq<u8>, from: int) -> int
    decreases data.len() - from,
{
    if from + 3 > data.len() {
        data.len() as int
    } else if data[from] == 0 && data[from + 1] == 0 && data[from + 2] == 1 {
        from
    } else {
        next_start(data, from + 1)
    }
}

/// Bytes without the zeros at their end.
pub open spec fn without_trailing_zeros(bytes: Seq<u8>) -> Seq<u8>
    decreases bytes.len(),
{
    if bytes.len() > 0 && bytes.last() == 0 {
        without_trailing_zeros(bytes.drop_last())
    } else {
        bytes
    }
}

/// A NAL unit behind its length in four big-endian bytes; nothing for an empty
/// one.
pub open spec fn with_length(nal: Seq<u8>) -> Seq<u8> {
    let n = nal.len() as int;
    if n == 0 {
        Seq::empty()
    } else {
        seq![
            (n / 0x100_0000 % 256) as u8,
            (n / 0x1_0000 % 256) as u8,
            (n / 0x100 % 256) as u8,
            (n % 256) as u8,
        ] + nal
    }
}

proof fn lemma_next_start(data: Seq<u8>, from: int)
    requires
        0 <= from <= data.len(),
    ensures
        from <= next_start(data, from) <= data.len(),
    decreases data.len() - from,
{
    if from + 3 <= data.len() {
        lemma_next_start(data, from + 1);
    }
}

/// The NAL units from the start code at `at` on, each behind its length.
pub open spec fn prefixed_from(data: Seq<u8>, at: int) -> Seq<u8>
    decreases data.len() - at,
    via prefixed_from_decreases
{
    if at < 0 || at + 3 > data.len() {
        Seq::empty()
    } else {
        let end = next_start(data, at + 3);
        with_length(without_trailing_zeros(data.subrange(at + 3, end))) + prefixed_from(data, end)
    }
}

#[via_fn]
proof fn prefixed_from_decreases(data: Seq<u8>, at: int) {
    if 0 <= at && at + 3 <= data.len() {
        lemma_next_start(data, at + 3);
    }
}

/// `transmux::annexb_to_length_prefixed`: NAL units stand between start codes,
/// without the zeros before the next one, and each gets its length in four
/// bytes in front. What comes before the first start code is dropped.
#[verifier::external_body]
fn length_prefixed(annexb: &[u8]) -> (out: Vec<u8>)
    ensures
        out@ == prefixed_from(annexb@, next_start(annexb@, 0)),
{
    transmux::annexb_to_length_prefixed(annexb)
}

/// Convert an Annex B NAL stream to length-prefixed form (4-byte big-endian
/// length before each NAL), suitable for `EncodedVideoChunk` when the
/// `VideoDecoder` has an avcC `description`.
pub fn annexb_to_avcc(annexb: &[u8]) -> (out: Vec<u8>)
    ensures
        out@ == prefixed_from(annexb@, next_start(annexb@, 0)),
{
    length_prefixed(annexb)
}

/// Input without a start code gives nothing.
pub proof fn no_start_code_no_output(data: Seq<u8>)
    requires
        next_start(data, 0) == data.len(),
    ensures
        prefixed_from(data, next_start(data, 0)).len() == 0,
{
}

} // verus!
