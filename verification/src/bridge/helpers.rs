//! Small readers for language codes and media segments.

use vstd::prelude::*;

verus! {

/// The text of bytes that are read as UTF-8, with replacement characters for
/// what is not.
pub uninterp spec fn lossy_text(bytes: Seq<u8>) -> Seq<char>;

/// `String::from_utf8_lossy`. The result is what [`lossy_text`] names; ASCII
/// bytes are kept as they are.
#[verifier::external_body]
fn from_utf8_lossy(bytes: &[u8]) -> (text: String)
    ensures
        text@ == lossy_text(bytes@),
        (forall|i: int| 0 <= i < bytes@.len() ==> #[trigger] bytes@[i] < 128) ==> text@
            == bytes@.map_values(|b: u8| b as char),
{
    String::from_utf8_lossy(bytes).into_owned()
}

/// Convert a 3-byte ISO 639-2 language code to a `String`.
pub fn lang_bytes_to_string(lang: &[u8; 3]) -> (text: String)
    ensures
        text@ == lossy_text(lang@),
        (forall|i: int| 0 <= i < 3 ==> #[trigger] lang@[i] < 128) ==> text@ == lang@.map_values(
            |b: u8| b as char,
        ),
{
    from_utf8_lossy(lang.as_slice())
}

/// Whether the four-byte type of a box stands at `at`.
pub open spec fn box_type_at(bytes: Seq<u8>, at: int, kind: Seq<u8>) -> bool {
    0 <= at && at + 4 <= bytes.len() && bytes.subrange(at, at + 4) == kind
}

/// The type of a track run box.
pub open spec fn trun() -> Seq<u8> {
    seq![0x74u8, 0x72, 0x75, 0x6e]
}

/// The type of a track fragment decode time box.
pub open spec fn tfdt() -> Seq<u8> {
    seq![0x74u8, 0x66, 0x64, 0x74]
}

/// Four big-endian bytes.
pub open spec fn be32(bytes: Seq<u8>, at: int) -> int {
    bytes[at] * 0x100_0000 + bytes[at + 1] * 0x1_0000 + bytes[at + 2] * 0x100 + bytes[at + 3]
}

/// Eight big-endian bytes.
pub open spec fn be64(bytes: Seq<u8>, at: int) -> int {
    be32(bytes, at) * 0x1_0000_0000 + be32(bytes, at + 4)
}

/// The sample count of the track run whose type stands at `at`: eight bytes
/// behind it. Zero where no track run stands there, or one without room for a
/// size before it or a count behind it.
pub open spec fn run_samples(bytes: Seq<u8>, at: int) -> int {
    if box_type_at(bytes, at, trun()) && at >= 4 && at + 12 <= bytes.len() {
        be32(bytes, at + 8)
    } else {
        0
    }
}

/// The sample counts of the track runs at the first `n` offsets, added up.
pub open spec fn samples_before(bytes: Seq<u8>, n: nat) -> int
    decreases n,
{
    if n == 0 {
        0
    } else {
        samples_before(bytes, (n - 1) as nat) + run_samples(bytes, n - 1)
    }
}

/// The decode time in the first track fragment decode time box at or after
/// `at` that is long enough to hold one; zero without one. Version 1 has eight
/// bytes, every other version four.
pub open spec fn decode_time_from(bytes: Seq<u8>, at: int) -> int
    decreases bytes.len() - at,
{
    if at < 0 || at + 4 > bytes.len() {
        0
    } else if box_type_at(bytes, at, tfdt()) && at + 16 <= bytes.len() && bytes[at + 4] == 1 {
        be64(bytes, at + 8)
    } else if box_type_at(bytes, at, tfdt()) && at + 12 <= bytes.len() {
        be32(bytes, at + 8)
    } else {
        decode_time_from(bytes, at + 1)
    }
}

fn is_type_at(bytes: &[u8], at: usize, a: u8, b: u8, c: u8, d: u8) -> (is: bool)
    requires
        at + 4 <= bytes@.len(),
    ensures
        is == box_type_at(bytes@, at as int, seq![a, b, c, d]),
{
    let ghost here = bytes@.subrange(at as int, at + 4);
    let is: bool = bytes[at] == a && bytes[at + 1] == b && bytes[at + 2] == c && bytes[at + 3] == d;
    proof {
        assert(here[0] == bytes@[at as int] && here[1] == bytes@[at + 1] && here[2] == bytes@[at + 2]
            && here[3] == bytes@[at + 3]);
        if is {
            assert(here =~= seq![a, b, c, d]);
        } else {
            let kind = seq![a, b, c, d];
            assert(kind[0] == a && kind[1] == b && kind[2] == c && kind[3] == d);
        }
    }
    is
}

fn read_be32(bytes: &[u8], at: usize) -> (v: u32)
    requires
        at + 4 <= bytes@.len(),
    ensures
        v == be32(bytes@, at as int),
{
    bytes[at] as u32 * 0x100_0000 + bytes[at + 1] as u32 * 0x1_0000 + bytes[at + 2] as u32 * 0x100
        + bytes[at + 3] as u32
}

/// Parse the sample count from the track run boxes in a media segment.
///
/// A track run is nested inside other boxes, so every byte offset is scanned.
/// The sum is taken modulo 2^32.
pub fn parse_sample_count_from_segment(bytes: &[u8]) -> (total: u32)
    ensures
        total == samples_before(bytes@, bytes@.len()) % 0x1_0000_0000,
{
    let len: usize = bytes.len();
    let mut total: u32 = 0;
    let mut i: usize = 0;
    while i < len
        invariant
            len == bytes@.len(),
            i <= len,
            total == samples_before(bytes@, i as nat) % 0x1_0000_0000,
        decreases len - i,
    {
        if len - i >= 4 {
            if is_type_at(bytes, i, 0x74, 0x72, 0x75, 0x6e) {
                if i >= 4 && len - i >= 12 {
                    let sc: u32 = read_be32(bytes, i + 8);
                    total = total.wrapping_add(sc);
                }
            }
        }
        i = i + 1;
    }
    total
}

/// Parse the base media decode time from the track fragment decode time box in
/// a media segment, or zero without one.
///
/// The box is nested inside other boxes, so every byte offset is scanned.
pub fn parse_base_media_decode_time(bytes: &[u8]) -> (time: u64)
    ensures
        time == decode_time_from(bytes@, 0),
{
    let len: usize = bytes.len();
    let mut i: usize = 0;
    while len - i >= 4
        invariant
            len == bytes@.len(),
            i <= len,
            decode_time_from(bytes@, 0) == decode_time_from(bytes@, i as int),
        decreases len - i,
    {
        if is_type_at(bytes, i, 0x74, 0x66, 0x64, 0x74) && len - i >= 12 {
            if len - i >= 16 && bytes[i + 4] == 1 {
                let high: u32 = read_be32(bytes, i + 8);
                let low: u32 = read_be32(bytes, i + 12);
                return high as u64 * 0x1_0000_0000 + low as u64;
            }
            return read_be32(bytes, i + 8) as u64;
        }
        i = i + 1;
    }
    0
}

/// Every sample is counted once, in whichever run: the count of a segment that
/// holds one run is the count of that run.
pub proof fn single_run_is_counted(bytes: Seq<u8>, at: int, n: nat)
    requires
        0 <= at < n,
        forall|i: int| 0 <= i < n && i != at ==> !#[trigger] box_type_at(bytes, i, trun()),
    ensures
        samples_before(bytes, n) == run_samples(bytes, at),
    decreases n,
{
    if n - 1 == at {
        lemma_no_run_no_samples(bytes, (n - 1) as nat);
    } else {
        assert(!box_type_at(bytes, n - 1, trun()));
        single_run_is_counted(bytes, at, (n - 1) as nat);
    }
}

proof fn lemma_no_run_no_samples(bytes: Seq<u8>, n: nat)
    requires
        forall|i: int| 0 <= i < n ==> !#[trigger] box_type_at(bytes, i, trun()),
    ensures
        samples_before(bytes, n) == 0,
    decreases n,
{
    if n > 0 {
        assert(!box_type_at(bytes, n - 1, trun()));
        lemma_no_run_no_samples(bytes, (n - 1) as nat);
    }
}

} // verus!
