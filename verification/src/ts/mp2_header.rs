//! Header-only channel-count probe for MPEG-1/2 Layer II frames.

use vstd::prelude::*;
use crate::bits::{field, BitCursor};

verus! {

/// The channel count that the MPEG audio frame header at the start of `buf`
/// declares (ISO/IEC 11172-3 §2.4.1.3), if it is the header of a Layer II
/// frame: the sync is eleven ones, the version is not the reserved one, the
/// layer is II and the bit-rate index is not the reserved one. Only the mode
/// single_channel has one channel.
pub open spec fn layer2_channels(buf: Seq<u8>) -> Option<u8> {
    if buf.len() >= 4 && field(buf, 0, 8) == 0xff && field(buf, 8, 3) == 7 && field(buf, 11, 2) != 1
        && field(buf, 13, 2) == 2 && field(buf, 16, 4) != 15 {
        if field(buf, 24, 2) == 3 {
            Some(1)
        } else {
            Some(2)
        }
    } else {
        None
    }
}

/// Channel count from an MPEG audio frame header.
///
/// Returns `None` unless the buffer starts with a Layer II frame header;
/// never a guessed default.
pub fn channels_from_header(buf: &[u8]) -> (channels: Option<u8>)
    ensures
        channels == layer2_channels(buf@),
{
    if buf.len() < 4 {
        return None;
    }
    let mut at: BitCursor = BitCursor::start();
    let sync_high: u8 = at.read(buf, 8)?;
    let sync_low: u8 = at.read(buf, 3)?;
    let version: u8 = at.read(buf, 2)?;
    let layer: u8 = at.read(buf, 2)?;
    let _protection: u8 = at.read(buf, 1)?;
    let bitrate_index: u8 = at.read(buf, 4)?;
    let _sampling_padding: u8 = at.read(buf, 4)?;
    let mode: u8 = at.read(buf, 2)?;
    if sync_high != 0xff || sync_low != 7 || version == 1 || layer != 2 || bitrate_index == 15 {
        return None;
    }
    if mode == 3 {
        Some(1)
    } else {
        Some(2)
    }
}

/// A frame header never yields anything but one or two channels.
pub proof fn layer2_is_mono_or_stereo(buf: Seq<u8>)
    ensures
        layer2_channels(buf) matches Some(n) ==> n == 1 || n == 2,
{
}

} // verus!
