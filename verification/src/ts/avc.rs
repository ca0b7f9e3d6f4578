//! H.264 decoder configuration records.

use broadcast_common::traits::Serialize;
use transmux::nalu_types::{AvcPps, AvcSps, AvcSpsExt};
use vstd::prelude::*;

verus! {

/// `AVCDecoderConfigurationRecord` (ISO/IEC 14496-15 §5.3.3).
pub struct AVCDecoderConfigurationRecord {
    pub configuration_version: u8,
    pub profile_indication: u8,
    pub profile_compatibility: u8,
    pub level_indication: u8,
    pub length_size_minus_one: u8,
    /// Sequence parameter sets.
    pub sps: Vec<Vec<u8>>,
    /// Picture parameter sets.
    pub pps: Vec<Vec<u8>>,
    pub chroma_format: Option<u8>,
    pub bit_depth_luma_minus8: Option<u8>,
    pub bit_depth_chroma_minus8: Option<u8>,
    /// Sequence parameter set extensions.
    pub sps_ext: Vec<Vec<u8>>,
}

/// [`AVCDecoderConfigurationRecord`] as a mathematical value.
pub struct RecordView {
    pub configuration_version: u8,
    pub profile_indication: u8,
    pub profile_compatibility: u8,
    pub level_indication: u8,
    pub length_size_minus_one: u8,
    pub sps: Seq<Seq<u8>>,
    pub pps: Seq<Seq<u8>>,
    pub chroma_format: Option<u8>,
    pub bit_depth_luma_minus8: Option<u8>,
    pub bit_depth_chroma_minus8: Option<u8>,
    pub sps_ext: Seq<Seq<u8>>,
}

/// A list of byte strings as mathematical values.
pub open spec fn byte_strings(list: Seq<Vec<u8>>) -> Seq<Seq<u8>> {
    Seq::new(list.len(), |i: int| list[i]@)
}

impl AVCDecoderConfigurationRecord {
    pub open spec fn view(&self) -> RecordView {
        RecordView {
            configuration_version: self.configuration_version,
            profile_indication: self.profile_indication,
            profile_compatibility: self.profile_compatibility,
            level_indication: self.level_indication,
            length_size_minus_one: self.length_size_minus_one,
            sps: byte_strings(self.sps@),
            pps: byte_strings(self.pps@),
            chroma_format: self.chroma_format,
            bit_depth_luma_minus8: self.bit_depth_luma_minus8,
            bit_depth_chroma_minus8: self.bit_depth_chroma_minus8,
            sps_ext: byte_strings(self.sps_ext@),
        }
    }
}

/// The digit of a number below sixteen, in upper case.
pub open spec fn hex_digit(n: int) -> char {
    if n < 10 {
        (48 + n) as char
    } else {
        (55 + n) as char
    }
}

/// A byte as two hexadecimal digits.
pub open spec fn hex_byte(b: u8) -> Seq<char> {
    seq![hex_digit(b as int / 16), hex_digit(b as int % 16)]
}

/// The RFC 6381 codec string of an H.264 stream.
pub open spec fn avc1_string(profile: u8, compatibility: u8, level: u8) -> Seq<char> {
    "avc1."@ + hex_byte(profile) + hex_byte(compatibility) + hex_byte(level)
}

/// `transmux::rfc6381_avc1`: the string `avc1.` followed by the three bytes,
/// each as two upper-case hexadecimal digits.
#[verifier::external_body]
pub(crate) fn rfc6381_avc1(profile: u8, compatibility: u8, level: u8) -> (codec: String)
    ensures
        codec@ == avc1_string(profile, compatibility, level),
{
    transmux::rfc6381_avc1(profile, compatibility, level)
}

/// A length as two big-endian bytes.
pub open spec fn be16(n: int) -> Seq<u8> {
    seq![((n / 256) % 256) as u8, (n % 256) as u8]
}

/// Parameter sets one after another, each behind its two-byte length.
pub open spec fn parameter_sets(sets: Seq<Seq<u8>>) -> Seq<u8>
    decreases sets.len(),
{
    if sets.len() == 0 {
        Seq::empty()
    } else {
        parameter_sets(sets.drop_last()) + be16(sets.last().len() as int) + sets.last()
    }
}

/// Whether there are at most `count` parameter sets, none longer than its
/// two-byte length can say.
pub open spec fn sets_fit(sets: Seq<Seq<u8>>, count: int) -> bool {
    &&& sets.len() <= count
    &&& forall|i: int| 0 <= i < sets.len() ==> (#[trigger] sets[i]).len() <= 0xffff
}

/// Whether every count and length of a record fits its field.
pub open spec fn has_wire_form(record: RecordView) -> bool {
    &&& sets_fit(record.sps, 31)
    &&& sets_fit(record.pps, 255)
    &&& record.chroma_format is Some ==> sets_fit(record.sps_ext, 255)
}

/// The value of an optional byte, zero without one.
pub open spec fn or_zero(v: Option<u8>) -> int {
    match v {
        Some(b) => b as int,
        None => 0,
    }
}

/// The wire form of a record up to the picture parameter sets (ISO/IEC
/// 14496-15 §5.3.3.1): reserved bits are ones.
pub open spec fn record_head(record: RecordView) -> Seq<u8> {
    seq![
        record.configuration_version,
        record.profile_indication,
        record.profile_compatibility,
        record.level_indication,
        (0xfc + record.length_size_minus_one as int % 4) as u8,
        (0xe0 + record.sps.len() as int) as u8,
    ] + parameter_sets(record.sps) + seq![record.pps.len() as u8] + parameter_sets(
        record.pps,
    )
}

/// The chroma format, the bit depths and the parameter set extensions of a
/// record (ISO/IEC 14496-15 §5.3.3.1.2).
pub open spec fn record_extension(record: RecordView) -> Seq<u8> {
    seq![
        (0xfc + or_zero(record.chroma_format) % 4) as u8,
        (0xf8 + or_zero(record.bit_depth_luma_minus8) % 8) as u8,
        (0xf8 + or_zero(record.bit_depth_chroma_minus8) % 8) as u8,
        record.sps_ext.len() as u8,
    ] + parameter_sets(record.sps_ext)
}

/// The wire form of a record that has one: the extension is there where the
/// record has a chroma format.
pub open spec fn avcc_bytes(record: RecordView) -> Seq<u8> {
    if record.chroma_format is Some {
        record_head(record) + record_extension(record)
    } else {
        record_head(record)
    }
}

/// Serialises a record with `transmux::AVCDecoderConfigurationRecord`'s
/// `serialized_len` and `serialize_into`: into a buffer of the length that it
/// asks for, which it fills with the wire form. Fails where a count or a length
/// does not fit its field.
#[verifier::external_body]
pub(crate) fn serialize_record(record: &AVCDecoderConfigurationRecord) -> (bytes: Option<Vec<u8>>)
    ensures
        match bytes {
            Some(b) => has_wire_form(record.view()) && b@ == avcc_bytes(record.view()),
            None => !has_wire_form(record.view()),
        },
{
    let wire = transmux::AVCDecoderConfigurationRecord {
        configuration_version: record.configuration_version, profile_indication: record.profile_indication,
        profile_compatibility: record.profile_compatibility, level_indication: record.level_indication,
        length_size_minus_one: record.length_size_minus_one,
        sps: record.sps.iter().map(|s| AvcSps(s.clone())).collect(),
        pps: record.pps.iter().map(|s| AvcPps(s.clone())).collect(),
        chroma_format: record.chroma_format, bit_depth_luma_minus8: record.bit_depth_luma_minus8,
        bit_depth_chroma_minus8: record.bit_depth_chroma_minus8,
        sps_ext: record.sps_ext.iter().map(|s| AvcSpsExt(s.clone())).collect(),
    };
    let mut buf = vec![0u8; wire.serialized_len()];
    wire.serialize_into(&mut buf).ok()?;
    Some(buf)
}

/// The bytes that describe a record to a decoder: its wire form, or nothing
/// where it has none.
pub open spec fn description_of(record: RecordView) -> Seq<u8> {
    if has_wire_form(record) {
        avcc_bytes(record)
    } else {
        Seq::empty()
    }
}

/// Build the `WebCodecs` `VideoDecoder` configuration of a record: the
/// RFC 6381 codec string (e.g. `"avc1.640028"`) and the avcC bytes, which are
/// empty for a record without a wire form.
pub fn build_avcc_config(record: &AVCDecoderConfigurationRecord) -> (config: (String, Vec<u8>))
    ensures
        config.0@ == avc1_string(
            record.profile_indication,
            record.profile_compatibility,
            record.level_indication,
        ),
        config.1@ == description_of(record.view()),
{
    let codec: String = rfc6381_avc1(
        record.profile_indication,
        record.profile_compatibility,
        record.level_indication,
    );
    match serialize_record(record) {
        Some(buf) => (codec, buf),
        None => (codec, Vec::new()),
    }
}

} // verus!
