//! Header-only channel-count probe for AC-3 / E-AC-3 sync frames.

use vstd::arithmetic::power2::{lemma2_to64, lemma_pow2_strictly_increases};
use vstd::prelude::*;
use crate::bits::{append_bit, field, has_bits, lemma_field_range};

verus! {

/// AC-3 / E-AC-3 sync word (`0x0B77`).
pub const AC3_SYNCWORD: u16 = 0x0B77;

/// Whether `buf` begins with the sync word.
pub open spec fn starts_syncframe(buf: Seq<u8>) -> bool {
    buf.len() >= 2 && buf[0] * 256 + buf[1] == AC3_SYNCWORD
}

/// True if the buffer begins with an AC-3 / E-AC-3 sync frame.
pub fn is_ac3_syncframe(buf: &[u8]) -> (is: bool)
    ensures
        is == starts_syncframe(buf@),
{
    buf.len() >= 2 && buf[0] as u16 * 256 + buf[1] as u16 == AC3_SYNCWORD
}

/// Minimal big-endian bit reader.
pub struct BitReader<'a> {
    pub buf: &'a [u8],
    pub pos: usize,
}

impl<'a> BitReader<'a> {
    /// A reader at the first bit of `buf`.
    pub fn new(buf: &'a [u8]) -> (reader: Self)
        ensures
            reader.buf@ == buf@,
            reader.pos == 0,
    {
        BitReader { buf, pos: 0 }
    }

    /// Moves on by `n` bits.
    pub fn skip(&mut self, n: usize)
        requires
            old(self).pos + n <= usize::MAX,
        ensures
            final(self).buf@ == old(self).buf@,
            final(self).pos == old(self).pos + n,
    {
        self.pos = self.pos + n;
    }

    /// Reads `n` bits (n <= 16), or `None` past the end of the buffer.
    pub fn bits(&mut self, n: usize) -> (value: Option<u16>)
        requires
            n <= 16,
            old(self).pos + n + 7 <= usize::MAX,
        ensures
            final(self).buf@ == old(self).buf@,
            match value {
                Some(v) => {
                    &&& has_bits(old(self).buf@, old(self).pos as int, n as int)
                    &&& v == field(old(self).buf@, old(self).pos as int, n as nat)
                    &&& final(self).pos == old(self).pos + n
                },
                None => {
                    &&& !has_bits(old(self).buf@, old(self).pos as int, n as int)
                    &&& final(self).pos == old(self).pos
                },
            },
    {
        if (self.pos + n + 7) / 8 > self.buf.len() {
            return None;
        }
        let ghost start = self.pos as int;
        let ghost data = self.buf@;
        let mut out: u16 = 0;
        let mut i: usize = 0;
        while i < n
            invariant
                i <= n <= 16,
                data == self.buf@,
                data == old(self).buf@,
                start == old(self).pos,
                has_bits(data, start, n as int),
                self.pos == start + i,
                start + n + 7 <= usize::MAX,
                out == field(data, start, i as nat),
            decreases n - i,
        {
            proof {
                lemma_field_range(data, start, i as nat);
                lemma2_to64();
                if i < 15 {
                    lemma_pow2_strictly_increases(i as nat, 15);
                }
            }
            out = append_bit(out, self.buf[self.pos / 8], (7 - self.pos % 8) as u8);
            self.pos = self.pos + 1;
            i = i + 1;
        }
        Some(out)
    }
}

/// Channels contributed by each `acmod` value, before LFE.
/// ETSI TS 102 366 Table 5.8.
pub open spec fn acmod_channels(acmod: int) -> int {
    seq![2int, 1, 2, 3, 3, 4, 4, 5][acmod]
}

/// Width of the mix-level fields between `acmod` and `lfeon` in base AC-3:
/// `cmixlev` with three front channels, `surmixlev` with surround channels,
/// `dsurmod` in two-channel mode.
pub open spec fn mix_level_bits(acmod: int) -> int {
    (if acmod % 2 == 1 && acmod != 1 {
        2int
    } else {
        0
    }) + (if acmod >= 4 {
        2int
    } else {
        0
    }) + (if acmod == 2 {
        2int
    } else {
        0
    })
}

/// The channel count that the header of the sync frame at the start of `buf`
/// declares. `bsid`, at bit 40, tells base AC-3 (at most 8), with `acmod` at
/// bit 48, from E-AC-3 (11 to 16), with `acmod` at bit 36; `lfeon` adds one.
pub open spec fn syncframe_channels(buf: Seq<u8>) -> Option<u8> {
    if !starts_syncframe(buf) || !has_bits(buf, 40, 5) {
        None
    } else if field(buf, 40, 5) <= 8 {
        let acmod = field(buf, 48, 3);
        let lfe_at = 51 + mix_level_bits(acmod);
        if has_bits(buf, 48, 3) && has_bits(buf, lfe_at, 1) {
            Some((acmod_channels(acmod) + field(buf, lfe_at, 1)) as u8)
        } else {
            None
        }
    } else if 11 <= field(buf, 40, 5) <= 16 {
        Some((acmod_channels(field(buf, 36, 3)) + field(buf, 39, 1)) as u8)
    } else {
        None
    }
}

fn channels_of(acmod: u16, lfeon: u16) -> (channels: u8)
    requires
        acmod < 8,
        lfeon <= 1,
    ensures
        channels == acmod_channels(acmod as int) + lfeon,
{
    let base: u8 = match acmod {
        0 => 2,
        1 => 1,
        2 => 2,
        3 => 3,
        4 => 3,
        5 => 4,
        6 => 4,
        _ => 5,
    };
    base + lfeon as u8
}

/// Channel count for the sync frame at the start of `buf`, read from the
/// header alone.
///
/// Returns `None` when the buffer does not start with a sync frame, is too
/// short, or carries an unrecognised `bsid`.
pub fn channels_from_syncframe(buf: &[u8]) -> (channels: Option<u8>)
    ensures
        channels == syncframe_channels(buf@),
{
    if !is_ac3_syncframe(buf) {
        return None;
    }
    proof {
        lemma2_to64();
        lemma_field_range(buf@, 48, 3);
        lemma_field_range(buf@, 36, 3);
        lemma_field_range(buf@, 39, 1);
        lemma_field_range(buf@, 51 + mix_level_bits(field(buf@, 48, 3)), 1);
    }
    let mut at_bsid = BitReader { buf, pos: 40 };
    let bsid: u16 = at_bsid.bits(5)?;
    if bsid <= 8 {
        let mut r: BitReader = BitReader::new(buf);
        r.skip(40 + 5 + 3);
        let acmod: u16 = r.bits(3)?;
        if acmod % 2 == 1 && acmod != 1 {
            r.skip(2);
        }
        if acmod >= 4 {
            r.skip(2);
        }
        if acmod == 2 {
            r.skip(2);
        }
        let lfeon: u16 = r.bits(1)?;
        Some(channels_of(acmod, lfeon))
    } else if 11 <= bsid && bsid <= 16 {
        let mut r: BitReader = BitReader::new(buf);
        r.skip(16 + 2 + 3 + 11);
        let _fscod: u16 = r.bits(2)?;
        r.skip(2);
        let acmod: u16 = r.bits(3)?;
        let lfeon: u16 = r.bits(1)?;
        Some(channels_of(acmod, lfeon))
    } else {
        None
    }
}

/// A sync frame header never declares fewer than one or more than six
/// channels.
pub proof fn syncframe_channels_are_one_to_six(buf: Seq<u8>)
    ensures
        syncframe_channels(buf) matches Some(n) ==> 1 <= n <= 6,
{
    lemma2_to64();
    lemma_field_range(buf, 48, 3);
    lemma_field_range(buf, 36, 3);
    lemma_field_range(buf, 39, 1);
    lemma_field_range(buf, 51 + mix_level_bits(field(buf, 48, 3)), 1);
}

} // verus!
