//! Audio decoding.

use oxideav_core::{AudioFrame, CodecId, CodecParameters, Frame, SampleFormat};
use skyfire::ac3::decoder::{decode_all_eac3, IncrementalDecoder};
use skyfire::ac3::header::{is_ac3_syncframe, BitReader};
use skyfire::mpa::{append_samples, IncrementalMpaDecoder};

#[test]
fn detects_syncword() {
    assert!(is_ac3_syncframe(&[0x0B, 0x77, 0x00]));
    assert!(!is_ac3_syncframe(&[0x47, 0x00]));
}

#[test]
fn truncated_frame_no_panic() {
    // A valid syncword followed by garbage that's too short to form
    // a complete frame — the decoder must not panic.
    let truncated = [0x0B, 0x77, 0x00, 0xFF, 0x3F, 0xC1, 0x02];
    let result = decode_all_eac3(&truncated);
    // Must return some Result (Ok or Err) but never panic.
    assert!(
        result.is_ok() || result.is_err(),
        "truncated frame must not panic"
    );
}

#[test]
fn incremental_decoder_no_panic_on_garbage_ac3() {
    let mut dec = IncrementalDecoder::new().expect("build decoder");
    // Garbage that looks like a base AC-3 frame (bsid ≤ 10).
    let garbage: Vec<u8> = vec![0x0B, 0x77, 0x00, 0x00, 0x00, 0x00];
    let result = dec.decode_au(&garbage);
    assert!(result.is_ok(), "garbage AC-3 must not panic: {result:?}");
}

#[test]
fn incremental_decoder_no_panic_on_truncated_eac3() {
    let mut dec = IncrementalDecoder::new().expect("build decoder");
    // Valid syncword + E-AC-3 bsid (≥11): byte5 top 5 bits = bsid 16 = 0x80
    // but frame length would be bogus.
    let truncated: Vec<u8> = vec![0x0B, 0x77, 0x00, 0x10, 0x00, 0x80];
    let result = dec.decode_au(&truncated);
    assert!(
        result.is_ok(),
        "truncated E-AC-3 must not panic: {result:?}"
    );
}

#[test]
fn incremental_decoder_no_panic_empty_input() {
    let mut dec = IncrementalDecoder::new().expect("build decoder");
    let result = dec.decode_au(&[]);
    assert!(result.is_ok(), "empty input must not panic: {result:?}");
    assert!(result.unwrap().is_none(), "empty input must return None");
}

/// Real MPEG-1 Layer II first frame header extracted from a ffmpeg-generated
/// 48 kHz, 192 kbps, mono sine tone.  The header is 0xFF FDA4 C4 (MPEG-1 Layer II,
/// 48 kHz, 192 kbps, mono, no CRC, no padding).
fn make_mp2_frame() -> Vec<u8> {
    let mut frame = vec![0xFF, 0xFD, 0xA4, 0xC4];
    // Frame size = 576 (4 header + 572 body).
    frame.resize(576, 0u8);
    frame
}

#[test]
fn decode_single_mp2_frame() {
    let mut dec = IncrementalMpaDecoder::new();
    let frame = make_mp2_frame();
    let result = dec.decode_au(&frame).expect("must decode ok");
    assert!(result.is_some(), "must produce PCM");
    let decoded = result.unwrap();
    assert_eq!(decoded.sample_rate, 48000, "sample_rate must be 48000");
    assert_eq!(decoded.channels, 1, "must be mono for this test frame");
    assert!(!decoded.pcm_s16le.is_empty(), "PCM must be non-empty");
    assert_eq!(
        decoded.pcm_s16le.len() % 2,
        0,
        "PCM len must be multiple of 2 (mono S16LE)"
    );
}

#[test]
fn reset_clears_state() {
    let mut dec = IncrementalMpaDecoder::new();
    let frame = make_mp2_frame();
    let _ = dec.decode_au(&frame);
    dec.reset();
    let frame2 = make_mp2_frame();
    let result = dec.decode_au(&frame2).expect("decode after reset");
    assert!(result.is_some(), "must decode after reset");
}

#[test]
fn mpeg_frames_of_one_unit_are_concatenated() {
    let mut one = IncrementalMpaDecoder::new();
    let single = one.decode_au(&make_mp2_frame()).unwrap().unwrap();
    // A Layer II frame holds 1152 samples per channel.
    assert_eq!(single.pcm_s16le.len(), 1152 * 2);

    let mut unit = make_mp2_frame();
    unit.extend_from_slice(&make_mp2_frame());
    let mut two = IncrementalMpaDecoder::new();
    let double = two.decode_au(&unit).unwrap().unwrap();
    assert_eq!(double.pcm_s16le.len(), 2 * 1152 * 2);
    assert_eq!(&double.pcm_s16le[..1152 * 2], &single.pcm_s16le[..]);
}

#[test]
fn mpeg_garbage_is_no_audio() {
    let mut dec = IncrementalMpaDecoder::new();
    assert!(dec.decode_au(&[]).unwrap().is_none());
    assert!(dec.decode_au(&[0x12, 0x34, 0x56, 0x78, 0x9a]).unwrap().is_none());
    // The decoder still works afterwards.
    assert!(dec.decode_au(&make_mp2_frame()).unwrap().is_some());
}

#[test]
fn mpeg_stereo_has_two_channels() {
    let mut frame = vec![0xFF, 0xFD, 0xA4, 0x04];
    frame.resize(576, 0u8);
    let mut dec = IncrementalMpaDecoder::new();
    let audio = dec.decode_au(&frame).unwrap().unwrap();
    assert_eq!(audio.channels, 2);
    assert_eq!(audio.pcm_s16le.len(), 1152 * 2 * 2);
}

#[test]
fn samples_become_little_endian_bytes() {
    let mut pcm = vec![9u8];
    append_samples(&mut pcm, &vec![0, 1, -1, 256, i16::MIN, i16::MAX]);
    assert_eq!(
        pcm,
        vec![9, 0, 0, 1, 0, 0xff, 0xff, 0, 1, 0, 0x80, 0xff, 0x7f]
    );
}

/// A whole E-AC-3 frame length is twice one more than `frmsiz`.
#[test]
fn eac3_stream_stops_at_a_cut_frame() {
    // frmsiz = 0x3f: a frame of 128 bytes, of which 7 are there.
    let cut = [0x0B, 0x77, 0x00, 0x3F, 0x30, 0x80, 0x00];
    let audio = decode_all_eac3(&cut).unwrap();
    assert!(audio.pcm_s16le.is_empty());
    assert_eq!(audio.sample_rate, 0);
    assert_eq!(audio.channels, 0);
}

#[test]
fn eac3_stream_reports_a_broken_frame() {
    // A complete frame of four bytes with nothing in it.
    let broken = [0x0B, 0x77, 0x00, 0x01, 0x00, 0x80, 0x00];
    assert!(decode_all_eac3(&broken).is_err());
}

#[test]
fn no_sync_word_is_no_audio() {
    let noise: Vec<u8> = (0u8..200).map(|b| b.wrapping_mul(3)).collect();
    let mut dec = IncrementalDecoder::new().unwrap();
    assert!(dec.decode_au(&noise).unwrap().is_none());
    assert!(decode_all_eac3(&noise).unwrap().pcm_s16le.is_empty());
}

#[test]
fn decoder_works_after_a_reset() {
    let mut dec = IncrementalDecoder::new().unwrap();
    let _ = dec.decode_au(&[0x0B, 0x77, 0x00, 0x01, 0x00, 0x80, 0x00, 0x00]);
    dec.reset();
    assert!(dec.decode_au(&[0u8; 32]).unwrap().is_none());
}

#[test]
fn header_bits_are_read_from_the_top() {
    let data = [0b1010_0101, 0b1100_0011];
    let mut reader = BitReader::new(&data);
    assert_eq!(reader.bits(3), Some(0b101));
    reader.skip(5);
    assert_eq!(reader.bits(4), Some(0b1100));
    assert_eq!(reader.bits(8), None);
}

/// A tone, coded as AC-3 or E-AC-3 by the outside encoder.
fn encode(enhanced: bool, channels: u16, frames: usize) -> Vec<u8> {
    let mut params = CodecParameters::audio(CodecId::new(if enhanced { "eac3" } else { "ac3" }));
    params.sample_rate = Some(48_000);
    params.channels = Some(channels);
    params.sample_format = Some(SampleFormat::S16);
    params.bit_rate = Some(if channels > 2 { 448_000 } else { 192_000 });
    let mut enc = if enhanced {
        oxideav_ac3::eac3::make_encoder(&params).unwrap()
    } else {
        oxideav_ac3::encoder::make_encoder(&params).unwrap()
    };
    let count = frames * 1536;
    let mut s16 = Vec::new();
    for i in 0..count {
        let t = i as f32 / 48_000.0;
        let s = ((2.0 * std::f32::consts::PI * 440.0 * t).sin() * 12_000.0) as i16;
        for _ in 0..channels {
            s16.extend_from_slice(&s.to_le_bytes());
        }
    }
    enc.send_frame(&Frame::Audio(AudioFrame {
        samples: count as u32,
        pts: Some(0),
        data: vec![s16],
    }))
    .unwrap();
    enc.flush().unwrap();
    let mut out = Vec::new();
    while let Ok(p) = enc.receive_packet() {
        out.extend_from_slice(&p.data);
    }
    out
}

fn is_silent(pcm: &[u8]) -> bool {
    pcm.chunks_exact(2).all(|b| i16::from_le_bytes([b[0], b[1]]).unsigned_abs() < 100)
}

#[test]
fn ac3_is_decoded() {
    for channels in [1u16, 2, 6] {
        let coded = encode(false, channels, 4);
        assert!(is_ac3_syncframe(&coded));
        let mut dec = IncrementalDecoder::new().unwrap();
        let audio = dec.decode_au(&coded).unwrap().unwrap();
        assert_eq!(audio.sample_rate, 48_000);
        assert_eq!(audio.channels, channels);
        assert_eq!(audio.pcm_s16le.len() % (1536 * 2 * channels as usize), 0);
        assert!(audio.pcm_s16le.len() >= 4 * 1536 * 2 * channels as usize);
        assert!(!is_silent(&audio.pcm_s16le));
        assert_eq!(
            skyfire::ac3::header::channels_from_syncframe(&coded),
            Some(channels as u8)
        );
    }
}

#[test]
fn eac3_is_decoded_both_ways() {
    let coded = encode(true, 2, 4);
    let mut dec = IncrementalDecoder::new().unwrap();
    let audio = dec.decode_au(&coded).unwrap().unwrap();
    assert_eq!(audio.sample_rate, 48_000);
    assert_eq!(audio.channels, 2);
    assert!(!is_silent(&audio.pcm_s16le));
    let whole = decode_all_eac3(&coded).unwrap();
    assert_eq!(whole.sample_rate, 48_000);
    assert_eq!(whole.channels, 2);
    assert_eq!(whole.pcm_s16le.len(), audio.pcm_s16le.len());
    assert!(!is_silent(&whole.pcm_s16le));
}

#[test]
fn units_decode_like_one_stream() {
    let coded = encode(false, 2, 6);
    let mut whole = IncrementalDecoder::new().unwrap();
    let all = whole.decode_au(&coded).unwrap().unwrap();
    // 192 kbit/s at 48 kHz: frames of 768 bytes.
    assert_eq!(coded.len() % 768, 0);
    let mut parts = IncrementalDecoder::new().unwrap();
    let mut pcm = Vec::new();
    for frame in coded.chunks(768) {
        pcm.extend_from_slice(&parts.decode_au(frame).unwrap().unwrap().pcm_s16le);
    }
    assert_eq!(pcm, all.pcm_s16le);
    // A reset decoder starts as a new one does.
    parts.reset();
    assert_eq!(parts.decode_au(&coded).unwrap().unwrap().pcm_s16le, all.pcm_s16le);
}

#[test]
fn junk_before_a_frame_is_skipped() {
    let coded = encode(false, 2, 2);
    let mut clean = IncrementalDecoder::new().unwrap();
    let want = clean.decode_au(&coded).unwrap().unwrap();
    let mut data = vec![1, 2, 3];
    data.extend_from_slice(&coded);
    let mut dec = IncrementalDecoder::new().unwrap();
    let got = dec.decode_au(&data).unwrap().unwrap();
    assert_eq!(got.pcm_s16le, want.pcm_s16le);
}

#[test]
fn failing_frame_is_an_error_and_the_decoder_goes_on() {
    // A complete E-AC-3 frame of four bytes is too short for its header.
    let short = [0x0b, 0x77, 0, 0x01, 0x00, 0x80, 0, 0];
    let mut dec = IncrementalDecoder::new().unwrap();
    let message = dec.decode_au(&short).unwrap_err();
    assert!(message.contains("too short"), "{message}");
    assert!(dec.decode_au(&encode(false, 2, 1)).unwrap().is_some());
}
