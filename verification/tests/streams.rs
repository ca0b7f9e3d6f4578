//! Whole streams: a small transport stream is built and fed through the
//! demuxer, the engine, the bridge, the HLS session and the server.

use oxideav_core::{AudioFrame, CodecId, CodecParameters, Frame, SampleFormat};
use skyfire::bridge::{SkyfireBridge, WasmEngine};
use skyfire::engine::Engine;
use skyfire::hls::{HlsConfig, HlsSession};
use skyfire::inspect::{
    build_histogram, histogram_entries, histogram_report, map_report, probe, probe_full,
    sub_activity,
};
use skyfire::server::{Manager, Reply};
use skyfire::ts::demux::{Degradation, Discontinuity, MediaSample};
use skyfire::ts::track::StreamTrack;
use skyfire::ts::{AudioCodec, DemuxEvent, TsDemux, VideoCodec};

const VIDEO_PID: u16 = 0x100;
const PMT_PID: u16 = 0x1000;

const SPS: [u8; 28] = [
    0x67, 0x64, 0x00, 0x28, 0xac, 0x34, 0xa5, 0x01, 0xe0, 0x11, 0x1f, 0x78, 0x0a, 0x10, 0x10, 0x10,
    0x14, 0x00, 0x00, 0x03, 0x00, 0x04, 0x00, 0x00, 0x03, 0x00, 0xca, 0x50,
];
const PPS: [u8; 5] = [0x68, 0xea, 0x57, 0x52, 0x50];

fn crc32(data: &[u8]) -> u32 {
    let mut crc = 0xffff_ffffu32;
    for b in data {
        crc ^= u32::from(*b) << 24;
        for _ in 0..8 {
            crc = if crc & 0x8000_0000 != 0 {
                (crc << 1) ^ 0x04c1_1db7
            } else {
                crc << 1
            };
        }
    }
    crc
}

fn section(table_id: u8, id: u16, body: &[u8]) -> Vec<u8> {
    let len = body.len() + 9;
    let mut s = vec![
        table_id,
        0xb0 | (len >> 8) as u8,
        len as u8,
        (id >> 8) as u8,
        id as u8,
        0xc1,
        0,
        0,
    ];
    s.extend_from_slice(body);
    let crc = crc32(&s);
    s.extend_from_slice(&crc.to_be_bytes());
    s
}

struct Muxer {
    out: Vec<u8>,
    counters: Vec<(u16, u8)>,
}

impl Muxer {
    fn new() -> Muxer {
        Muxer {
            out: Vec::new(),
            counters: Vec::new(),
        }
    }

    fn counter(&mut self, pid: u16) -> u8 {
        for c in self.counters.iter_mut() {
            if c.0 == pid {
                c.1 = (c.1 + 1) % 16;
                return c.1;
            }
        }
        self.counters.push((pid, 0));
        0
    }

    /// Send a payload, with a PCR in its first packet if there is one.
    fn send(&mut self, pid: u16, payload: &[u8], pcr: Option<u64>) {
        let mut rest = payload;
        let mut first = true;
        while first || !rest.is_empty() {
            let cc = self.counter(pid);
            let mut adaptation: Vec<u8> = Vec::new();
            if first {
                if let Some(base) = pcr {
                    adaptation = vec![
                        0x10,
                        (base >> 25) as u8,
                        (base >> 17) as u8,
                        (base >> 9) as u8,
                        (base >> 1) as u8,
                        ((base & 1) << 7) as u8 | 0x7e,
                        0,
                    ];
                }
            }
            let mut overhead = if adaptation.is_empty() { 0 } else { adaptation.len() + 1 };
            let take = rest.len().min(184 - overhead);
            let stuffing = 184 - overhead - take;
            if stuffing > 0 && overhead == 0 {
                overhead = 1;
                if stuffing > 1 {
                    adaptation.push(0);
                    adaptation.resize(stuffing - 1, 0xff);
                }
            } else if stuffing > 0 {
                adaptation.resize(adaptation.len() + stuffing, 0xff);
            }
            self.out.push(0x47);
            self.out
                .push((pid >> 8) as u8 & 0x1f | if first { 0x40 } else { 0 });
            self.out.push(pid as u8);
            self.out.push(if overhead > 0 { 0x30 } else { 0x10 } | cc);
            if overhead > 0 {
                self.out.push(adaptation.len() as u8);
                self.out.extend_from_slice(&adaptation);
            }
            self.out.extend_from_slice(&rest[..take]);
            rest = &rest[take..];
            first = false;
        }
        assert_eq!(self.out.len() % 188, 0);
    }

    fn tables(&mut self, streams: &[(u8, u16, Vec<u8>)]) {
        let mut pat = vec![0];
        pat.extend_from_slice(&section(
            0,
            1,
            &[0, 1, 0xe0 | (PMT_PID >> 8) as u8, PMT_PID as u8],
        ));
        self.send(0, &pat, None);
        let mut body = vec![0xe0 | (VIDEO_PID >> 8) as u8, VIDEO_PID as u8, 0xf0, 0];
        for (kind, pid, descriptors) in streams {
            body.push(*kind);
            body.push(0xe0 | (pid >> 8) as u8);
            body.push(*pid as u8);
            body.push(0xf0);
            body.push(descriptors.len() as u8);
            body.extend_from_slice(descriptors);
        }
        let mut pmt = vec![0];
        pmt.extend_from_slice(&section(2, 1, &body));
        self.send(PMT_PID, &pmt, None);
    }

    fn pes(&mut self, pid: u16, stream_id: u8, pts: u64, data: &[u8], pcr: Option<u64>) {
        let mut pes = vec![0, 0, 1, stream_id];
        let len = if stream_id == 0xe0 { 0 } else { data.len() + 8 };
        pes.extend_from_slice(&(len as u16).to_be_bytes());
        pes.extend_from_slice(&[0x84, 0x80, 5]);
        pes.push(0x21 | ((pts >> 29) as u8 & 0x0e));
        pes.push((pts >> 22) as u8);
        pes.push((pts >> 14) as u8 | 1);
        pes.push((pts >> 7) as u8);
        pes.push((pts << 1) as u8 | 1);
        pes.extend_from_slice(data);
        self.send(pid, &pes, pcr);
    }
}

fn video_unit(key: bool, n: usize) -> Vec<u8> {
    let mut au = vec![0, 0, 0, 1, 0x09, 0xf0];
    if key {
        au.extend_from_slice(&[0, 0, 0, 1]);
        au.extend_from_slice(&SPS);
        au.extend_from_slice(&[0, 0, 0, 1]);
        au.extend_from_slice(&PPS);
        au.extend_from_slice(&[0, 0, 1, 0x65, 0x88, 0x84]);
    } else {
        au.extend_from_slice(&[0, 0, 1, 0x41, 0x9a, 0x24]);
    }
    au.extend_from_slice(&[0x5a, 1 + (n % 200) as u8, 0x77]);
    au
}

fn language(code: &str) -> Vec<u8> {
    let mut d = vec![0x0a, 4];
    d.extend_from_slice(code.as_bytes());
    d.push(0);
    d
}

/// A 48 kHz Layer II frame of 576 bytes, stereo or mono.
fn mp2_frame(mono: bool) -> Vec<u8> {
    let mut frame = vec![0xff, 0xfd, 0xa4, if mono { 0xc4 } else { 0x04 }];
    frame.resize(576, 0);
    frame
}

/// The header of a 5.1 AC-3 frame of 128 bytes, with an empty body.
fn ac3_frame() -> Vec<u8> {
    // bsid 8, acmod 7 with its mix levels, LFE on.
    let mut frame = vec![0x0b, 0x77, 0, 0, 0x00, 0x40, 0xe1, 0x00];
    frame.resize(128, 0);
    frame
}

/// A tone, coded as AC-3 or E-AC-3 by the outside encoder.
fn encode(enhanced: bool, channels: u16, frames: usize) -> Vec<u8> {
    let mut params = CodecParameters::audio(CodecId::new(if enhanced { "eac3" } else { "ac3" }));
    params.sample_rate = Some(48_000);
    params.channels = Some(channels);
    params.sample_format = Some(SampleFormat::S16);
    params.bit_rate = Some(if channels > 2 { 448_000 } else { 192_000 });
    let mut enc = if enhanced {
        oxideav_ac3::eac3::make_encoder(&params).unwrap()
    } else {
        oxideav_ac3::encoder::make_encoder(&params).unwrap()
    };
    let count = frames * 1536;
    let mut s16 = Vec::new();
    for i in 0..count {
        let t = i as f32 / 48_000.0;
        let s = ((2.0 * std::f32::consts::PI * 440.0 * t).sin() * 12_000.0) as i16;
        for _ in 0..channels {
            s16.extend_from_slice(&s.to_le_bytes());
        }
    }
    enc.send_frame(&Frame::Audio(AudioFrame {
        samples: count as u32,
        pts: Some(0),
        data: vec![s16],
    }))
    .unwrap();
    enc.flush().unwrap();
    let mut out = Vec::new();
    while let Ok(p) = enc.receive_packet() {
        out.extend_from_slice(&p.data);
    }
    out
}

enum Audio {
    Ac3,
    /// Coded frames, over and over.
    Coded(Vec<Vec<u8>>),
    Stereo,
    Mono,
}

/// `secs` seconds at 25 frames per second, a key frame each second, and the
/// given audio tracks.
fn program(secs: usize, audio: &[(u16, &str, Audio)]) -> Vec<u8> {
    program_with(secs, audio, false, &mut |_, _| {})
}

fn program_with(
    secs: usize,
    audio: &[(u16, &str, Audio)],
    subtitles: bool,
    extra: &mut dyn FnMut(&mut Muxer, usize),
) -> Vec<u8> {
    let mut m = Muxer::new();
    let mut streams = vec![(0x1b, VIDEO_PID, Vec::new())];
    for (pid, lang, kind) in audio {
        let stream_type = match kind {
            Audio::Ac3 | Audio::Coded(_) => 0x81,
            _ => 0x03,
        };
        streams.push((stream_type, *pid, language(lang)));
    }
    if subtitles {
        let mut descriptors = vec![0x59, 8];
        descriptors.extend_from_slice(b"fra");
        descriptors.extend_from_slice(&[0x10, 0, 1, 0, 1]);
        streams.push((0x06, 0x300, descriptors));
    }
    for n in 0..secs * 25 {
        if n % 12 == 0 {
            m.tables(&streams);
        }
        let pts = 900_000 + 3600 * n as u64;
        m.pes(VIDEO_PID, 0xe0, pts, &video_unit(n % 25 == 0, n), Some(pts - 9000));
        for (pid, _, kind) in audio {
            let (stream_id, frames, span) = match kind {
                Audio::Ac3 => (0xbd, vec![ac3_frame()], 2880),
                Audio::Coded(frames) => (0xbd, frames.clone(), 2880),
                Audio::Stereo => (0xc0, vec![mp2_frame(false)], 2160),
                Audio::Mono => (0xc0, vec![mp2_frame(true)], 2160),
            };
            // As many audio frames as end within this picture.
            let from = n as u64 * 3600 / span;
            let to = (n as u64 + 1) * 3600 / span;
            for k in from..to {
                let frame = &frames[k as usize % frames.len()];
                m.pes(*pid, stream_id, 900_000 + k * span, frame, None);
            }
        }
        extra(&mut m, n);
    }
    m.out
}

fn channels_of(data: &[u8]) -> Vec<(u16, Option<u8>)> {
    let mut b = SkyfireBridge::new();
    b.feed(data);
    let tl = b.track_list().expect("a video track");
    tl.audio.iter().map(|t| (t.pid, t.channels)).collect()
}

#[test]
fn mixed_codec_stream_reports_channels_for_both_pids() {
    // AC3 5.1 (deu, pid 257) + MP2 stereo (mis, pid 258). Two codecs, two
    // probe paths, and only ONE of them is the selected/decoded PID — so this
    // fails if the probe only runs on the selected track.
    let data = program(2, &[(257, "deu", Audio::Ac3), (258, "mis", Audio::Stereo)]);
    assert_eq!(channels_of(&data), vec![(257, Some(6)), (258, Some(2))]);
}

#[test]
fn real_broadcast_mono_mp2_is_detected_as_one_channel() {
    // pid 259 is mono MP2 (mode == 0b11) beside three stereo tracks. This is
    // the case a hardcoded "MP2 is always stereo" shortcut would get wrong.
    let data = program(
        2,
        &[
            (257, "ita", Audio::Stereo),
            (258, "eng", Audio::Stereo),
            (259, "aud", Audio::Mono),
            (260, "mul", Audio::Stereo),
        ],
    );
    assert_eq!(
        channels_of(&data),
        vec![(257, Some(2)), (258, Some(2)), (259, Some(1)), (260, Some(2))]
    );
}

#[test]
fn demuxer_announces_tracks_and_samples() {
    let data = program(2, &[(257, "deu", Audio::Stereo)]);
    let mut demux = TsDemux::new();
    let mut tracks = Vec::new();
    let mut samples = 0;
    let mut keys = 0;
    let mut clocks = 0;
    demux.feed(&data);
    demux.finish();
    let mut video = None;
    while let Some(event) = demux.poll_event() {
        match event {
            DemuxEvent::TrackAdded(t) => {
                if t.source_pid == Some(VIDEO_PID) {
                    video = Some(t.track_id);
                }
                tracks.push(t.source_pid);
            }
            DemuxEvent::Sample { track_id, sample } => {
                if Some(track_id) == video {
                    samples += 1;
                    keys += usize::from(sample.is_sync);
                    assert!(sample.pts.is_some());
                }
            }
            DemuxEvent::ClockReference { clock_hz, .. } => {
                assert_eq!(clock_hz, 27_000_000);
                clocks += 1;
            }
            _ => {}
        }
    }
    assert!(tracks.contains(&Some(VIDEO_PID)));
    assert!(tracks.contains(&Some(257)));
    assert_eq!(samples, 50);
    assert_eq!(keys, 2);
    assert!(clocks > 0);
    assert!(demux.poll_event().is_none());
}

#[test]
fn chunking_does_not_change_what_is_demuxed() {
    let data = program(2, &[(257, "deu", Audio::Stereo)]);
    let mut whole = Engine::new();
    whole.feed(&data);
    whole.finish();
    let mut pieces = Engine::new();
    for chunk in data.chunks(1001) {
        pieces.feed(chunk);
    }
    pieces.finish();
    assert_eq!(whole.video_units().len(), pieces.video_units().len());
    for (a, b) in whole.video_units().iter().zip(pieces.video_units()) {
        assert_eq!(a.pts, b.pts);
        assert_eq!(a.data, b.data);
    }
}

#[test]
fn engine_collects_video_and_builds_its_configuration() {
    let data = program(2, &[(257, "deu", Audio::Stereo)]);
    let mut engine = Engine::new();
    assert!(engine.video_config().is_none());
    engine.feed(&data);
    engine.finish();
    engine.finalize();

    assert!(engine.has_video());
    let units = engine.video_units();
    assert_eq!(units.len(), 50);
    for (n, unit) in units.iter().enumerate() {
        assert!(unit.timed);
        assert_eq!(unit.pts, 900_000 + 3600 * n as u64);
        assert_eq!(unit.is_sync, n % 25 == 0);
    }
    let config = engine.video_config().expect("an H.264 track");
    assert_eq!(config.codec, "avc1.640028");
    let mut avcc = vec![0x01, 0x64, 0x00, 0x28, 0xff, 0xe1, 0x00, 0x1c];
    avcc.extend_from_slice(&SPS);
    avcc.extend_from_slice(&[0x01, 0x00, 0x05]);
    avcc.extend_from_slice(&PPS);
    avcc.extend_from_slice(&[0xfd, 0xf8, 0xf8, 0x00]);
    assert_eq!(config.description, avcc);
    assert_eq!(engine.tracks().len(), 2);
    // Layer II is no AC-3, so nothing is decoded.
    assert!(!engine.has_audio());
    assert_eq!(engine.clock().samples_played, 0);
}

#[test]
fn engine_video_queue_accessible() {
    let mut engine = Engine::new();
    engine.feed(&program(1, &[]));
    engine.finish();
    engine.finalize();

    let queue = engine.queue();
    assert!(queue.is_empty(), "queue starts empty");
    assert_eq!(queue.len(), 0);
    engine.clock_mut().set_offset_us(5);
    assert_eq!(engine.clock().offset_us, 5);
    engine.queue_mut().set_tol_us(7);
    assert_eq!(engine.queue().tol_us(), 7);
}

#[test]
fn engine_truncated_input_no_panic() {
    let data = program(1, &[(257, "deu", Audio::Ac3)]);
    let mut engine = Engine::new();
    engine.feed(&data[..1024]);
    engine.finish();
    engine.finalize();
    // Must not panic.
    engine.finalize();
}

#[test]
fn engine_takes_single_events() {
    let data = program(1, &[(257, "deu", Audio::Stereo)]);
    let mut demux = TsDemux::new();
    demux.feed(&data);
    demux.finish();
    let mut stepped = Engine::new();
    while let Some(event) = demux.poll_event() {
        stepped.on_event(event);
    }
    let mut fed = Engine::default();
    fed.feed(&data);
    fed.finish();
    assert_eq!(stepped.video_units().len(), fed.video_units().len());
    assert_eq!(stepped.tracks().len(), fed.tracks().len());
}

#[test]
fn batch_engine_is_empty_until_initialized() {
    let mut engine = WasmEngine::new();
    let data = program(1, &[(257, "deu", Audio::Stereo)]);
    engine.feed(&data);
    engine.flush();
    engine.finalize();
    assert_eq!(engine.video_unit_count(), 0);
    assert!(engine.video_unit(0).is_none());
    assert!(engine.video_config_codec().is_none());
    assert!(engine.video_config_description().is_empty());
    assert!(engine.audio_pcm().is_empty());
    assert_eq!(engine.audio_sample_rate(), 0);
    assert_eq!(engine.audio_channels(), 0);
    assert!(!engine.has_audio());
    assert!(!engine.has_video());
}

#[test]
fn batch_engine_probes_and_runs() {
    let data = program(1, &[(257, "deu", Audio::Ac3), (258, "mis", Audio::Stereo)]);
    let mut engine = WasmEngine::default();
    let map = engine.probe(&data).expect("video and audio");
    assert_eq!(map.video_pid, VIDEO_PID);
    assert_eq!(map.video_codec, "H264");
    assert_eq!(map.audio_pids(), vec![257, 258]);
    assert_eq!(map.audio_codecs(), vec!["AC3".to_string(), "MP2".to_string()]);

    engine.init_with_channel(map.video_pid, &map.video_codec, map.audio_pids(), map.audio_codecs());
    engine.feed(&data);
    engine.flush();
    engine.finalize();
    assert!(engine.has_video());
    assert_eq!(engine.video_unit_count(), 25);
    let unit = engine.video_unit(1).unwrap();
    assert_eq!(unit.pts_ticks(), Some(903_600));
    assert!(!unit.bytes.is_empty());
    assert!(engine.video_unit(25).is_none());
    assert_eq!(engine.video_config_codec().as_deref(), Some("avc1.640028"));
    assert_eq!(engine.video_config_description()[1], 0x64);
}

#[test]
fn probing_needs_video_and_audio() {
    let engine = WasmEngine::new();
    assert!(engine.probe(&program(1, &[])).is_none());
    assert!(engine.probe(&[0u8; 4096]).is_none());
}

#[test]
fn bridge_streams_video_audio_and_tracks() {
    let data = program(5, &[(257, "deu", Audio::Stereo), (258, "mis", Audio::Mono)]);
    let mut b = SkyfireBridge::new();
    assert!(b.track_list().is_none());
    assert!(b.video_init_segment().is_empty());
    assert!(b.video_codec().is_none());
    assert!(b.video_config_description().is_empty());
    assert_eq!(b.pcr_pts(), None);
    for chunk in data.chunks(4096) {
        b.feed(chunk);
    }
    b.flush();

    let list = b.track_list().unwrap();
    assert_eq!(list.video_pid, VIDEO_PID);
    assert_eq!(list.video_codec, "H264");
    assert_eq!(list.audio.len(), 2);
    assert_eq!(list.audio[0].codec, "MP2");
    assert_eq!(list.audio[0].language.as_deref(), Some("deu"));
    assert_eq!(list.audio[1].language.as_deref(), Some("mis"));
    assert_eq!(b.video_codec().as_deref(), Some("avc1.640028"));
    assert_eq!(b.video_config_description()[3], 0x28);

    let aus = b.take_video_aus();
    assert_eq!(aus.len(), 125);
    assert_eq!(aus[0].pts_ticks(), Some(900_000));
    assert_eq!(aus[1].dts_ticks(), Some(903_600));
    assert_eq!(aus.iter().filter(|a| a.is_keyframe).count(), 5);
    assert!(b.take_video_aus().is_empty());

    // The first audio track is selected, and is played as stereo.
    assert_eq!(b.selected_audio_pid(), Some(257));
    let pcm = b.take_audio_pcm();
    assert!(!pcm.is_empty());
    for chunk in &pcm {
        assert_eq!(chunk.sample_rate, 48_000);
        assert_eq!(chunk.channels, 2);
        assert_eq!(chunk.native_channels, 2);
        assert_eq!(chunk.pcm_s16le.len(), 1152 * 2 * 2);
    }
    assert_eq!(pcm[0].pts_ticks(), Some(900_000));
    assert_eq!(b.current_decoded_pid(), Some(257));
    assert_eq!(b.audio_native_channels(), 2);
    assert_eq!(b.audio_decode_error_count(), 0);
    assert_eq!(b.segmenter_error_count(), 0);
    assert_eq!(b.unknown_event_count(), 0);
    assert!(b.pcr_pts().is_some());

    let init = b.video_init_segment();
    assert_eq!(&init[4..8], b"ftyp");
    let mut samples = 0;
    let mut times = Vec::new();
    while let Some(segment) = b.take_video_media_segment() {
        samples += segment.sample_count;
        times.push(segment.base_media_decode_time);
        assert!(segment.bytes.windows(4).any(|w| w == b"moof"));
    }
    assert_eq!(samples, 125);
    assert!(times.len() >= 2);
    assert!(times.windows(2).all(|w| w[0] < w[1]));
}

#[test]
fn track_list_is_in_pid_order_with_one_entry_per_track() {
    let audio = [
        (0x220, "deu", Audio::Mono),
        (0x210, "fra", Audio::Stereo),
        (0x230, "ita", Audio::Ac3),
    ];
    let data = program_with(3, &audio, true, &mut |m, n| {
        if n % 25 == 10 {
            m.pes(0x300, 0xbd, 900_000 + 3600 * n as u64, &subtitle_field(), None);
        }
    });
    let mut demux = TsDemux::new();
    demux.feed(&data);
    demux.finish();
    let mut b = SkyfireBridge::new();
    let mut video = false;
    while let Some(event) = demux.poll_event() {
        if let DemuxEvent::TrackAdded(t) = &event {
            video = video || t.source_pid == Some(VIDEO_PID);
        }
        b.on_event(event);
        assert_eq!(b.track_list().is_some(), video);
    }
    let list = b.track_list().unwrap();
    let pids: Vec<u16> = list.audio.iter().map(|a| a.pid).collect();
    assert_eq!(pids, vec![0x210, 0x220, 0x230]);
    let channels: Vec<Option<u8>> = list.audio.iter().map(|a| a.channels).collect();
    assert_eq!(channels, vec![Some(2), Some(1), Some(6)]);
    assert_eq!(list.subtitles.len(), 1);
}

#[test]
fn switching_audio_decodes_the_other_track() {
    let data = program(2, &[(257, "deu", Audio::Stereo), (258, "mis", Audio::Mono)]);
    let mut b = SkyfireBridge::new();
    b.feed(&data[..data.len() / 2 / 188 * 188]);
    assert_eq!(b.current_decoded_pid(), Some(257));
    b.take_audio_pcm();
    b.select_audio(258);
    assert_eq!(b.selected_audio_pid(), Some(258));
    // The report changes with the PCM, not with the request.
    assert_eq!(b.current_decoded_pid(), Some(257));
    b.feed(&data[data.len() / 2 / 188 * 188..]);
    b.flush();
    assert_eq!(b.current_decoded_pid(), Some(258));
    assert_eq!(b.audio_native_channels(), 1);
    // Mono is played as stereo.
    assert!(b.take_audio_pcm().iter().all(|c| c.channels == 2));
}

#[test]
fn selected_audio_pid_reflects_selection() {
    let mut b = SkyfireBridge::new();
    b.feed(&program(1, &[(257, "deu", Audio::Stereo), (258, "mis", Audio::Mono)]));
    // A default audio pid is auto-selected once an audio track is added.
    let def = b.selected_audio_pid();
    assert!(def.is_some(), "a default audio pid must be auto-selected");
    // Switch to a different pid and confirm the getter reflects it.
    let other = def.map(|p| p ^ 1).unwrap();
    b.select_audio(other);
    assert_eq!(b.selected_audio_pid(), Some(other));
}

#[test]
fn lost_packets_are_counted_and_corrupt_ones_too() {
    let data = program(2, &[(257, "deu", Audio::Stereo)]);
    let packets: Vec<&[u8]> = data.chunks(188).collect();
    let mut b = SkyfireBridge::new();
    let half = packets.len() / 2;
    for (i, p) in packets.iter().enumerate() {
        if i == half || i == half + 1 || i == half + 2 {
            continue;
        }
        let mut p = p.to_vec();
        if i == half + 20 {
            p[1] |= 0x80;
        }
        b.feed(&p);
    }
    b.flush();
    assert!(b.continuity_gap_count() > 0);
    assert_eq!(b.transport_error_count(), 1);
    assert_eq!(b.unknown_event_count(), 0);
}

#[test]
fn audio_decode_error_counter_increments() {
    let mut bridge = SkyfireBridge::new();
    assert_eq!(
        bridge.audio_decode_error_count(),
        0,
        "error counter must start at 0"
    );
    let mut ts_packet = vec![0x47u8];
    ts_packet.push(0x10);
    ts_packet.push(0x10);
    ts_packet.push(0x30);
    ts_packet.extend_from_slice(&[0x00, 0x00, 0x01, 0xBD]);
    ts_packet.extend_from_slice(&[0x00, 0x00]); // PES length
    ts_packet.extend_from_slice(&[0x80, 0x80, 0x05]); // marker bits, flags
    ts_packet.extend_from_slice(&[0x0F, 0x00, 0x00]); // PES header data
    while ts_packet.len() < 188 {
        ts_packet.push(0xFF);
    }
    ts_packet.truncate(188);

    bridge.feed(&ts_packet);
    bridge.flush();
    println!("errors: {}", bridge.audio_decode_error_count());
}

fn subtitle_field() -> Vec<u8> {
    let mut pes = vec![0x20, 0x00];
    pes.extend_from_slice(&[
        0x0F, 0x12, 0x00, 0x01, 0x00, 0x08, 0x01, 0x10, 0x01, 0x21, 0x4C, 0xFF, 0x56, 0xFF,
    ]);
    pes.extend_from_slice(&[
        0x0F, 0x11, 0x00, 0x01, 0x00, 0x10, 0x01, 0x10, 0x00, 0x04, 0x00, 0x02, 0xEC, 0x01, 0x00,
        0x00, 0x00, 0x01, 0x00, 0x00, 0x00, 0x00,
    ]);
    let line = [0x12, 0x01, 0x01, 0x01, 0x01, 0x00, 0x00, 0xF0];
    let mut object = vec![0x00, 0x01, 0x00, 0x00, 0x08, 0x00, 0x08];
    object.extend_from_slice(&line);
    object.extend_from_slice(&line);
    pes.extend_from_slice(&[0x0F, 0x13, 0x00, 0x01, 0x00, object.len() as u8]);
    pes.extend_from_slice(&object);
    pes.extend_from_slice(&[
        0x0F, 0x10, 0x00, 0x01, 0x00, 0x08, 0x05, 0x14, 0x01, 0x00, 0x00, 0x0A, 0x00, 0x14,
    ]);
    pes.extend_from_slice(&[0x0F, 0x80, 0x00, 0x01, 0x00, 0x00, 0xFF]);
    pes
}

fn subtitled(secs: usize) -> Vec<u8> {
    program_with(secs, &[(257, "deu", Audio::Stereo)], true, &mut |m, n| {
        if n % 25 == 10 {
            let pts = 900_000 + 3600 * n as u64;
            m.pes(0x300, 0xbd, pts, &subtitle_field(), None);
        }
    })
}

#[test]
fn bridge_shows_the_selected_subtitles() {
    let data = subtitled(3);
    let mut b = SkyfireBridge::new();
    b.select_subtitle(Some(0x300));
    b.feed(&data);
    b.flush();
    let list = b.track_list().unwrap();
    assert_eq!(list.subtitles.len(), 1);
    assert_eq!(list.subtitles[0].pid, 0x300);
    assert_eq!(list.subtitles[0].kind, "DvbSubtitles");
    let cues = b.take_subtitle_cues();
    assert_eq!(cues.len(), 3);
    assert_eq!(cues[0].start_pts(), 936_000);
    assert_eq!(cues[0].end_pts(), 936_000 + 450_000);
    let regions = cues[0].regions();
    assert_eq!(regions.len(), 1);
    assert_eq!((regions[0].x, regions[0].y), (10, 20));
    assert_eq!((regions[0].width, regions[0].height), (4, 2));
    assert_eq!(&regions[0].rgba[..4], &[254, 0, 1, 255]);
    assert!(b.take_subtitle_cues().is_empty());
}

#[test]
fn switching_subtitles_drops_what_waits() {
    let data = subtitled(3);
    for other in [None, Some(0x301)] {
        let mut b = SkyfireBridge::new();
        b.select_subtitle(Some(0x300));
        b.feed(&data);
        b.flush();
        b.select_subtitle(other);
        assert!(b.take_subtitle_cues().is_empty());
    }
    // The same PID again drops nothing.
    let mut b = SkyfireBridge::new();
    b.select_subtitle(Some(0x300));
    b.feed(&data);
    b.flush();
    b.select_subtitle(Some(0x300));
    assert_eq!(b.take_subtitle_cues().len(), 3);
}

#[test]
fn unselected_subtitles_are_not_shown() {
    let mut b = SkyfireBridge::new();
    b.feed(&subtitled(2));
    b.flush();
    assert!(b.take_subtitle_cues().is_empty());
}

#[test]
fn non_subtitle_pes_yields_no_cues() {
    // Select the audio PID as subtitle: its PES data does not start with 0x20,
    // so the compositor must not emit cues.
    let mut bridge = SkyfireBridge::new();
    bridge.select_subtitle(Some(0x0101));
    for chunk in subtitled(2).chunks(4096) {
        bridge.feed(chunk);
    }
    bridge.flush();
    let cues = bridge.take_subtitle_cues();
    assert!(
        cues.is_empty(),
        "audio-PID data fed as subtitle must produce no cues, got {}",
        cues.len()
    );
}

#[test]
fn events_drive_the_bridge() {
    let mut b = SkyfireBridge::new();
    // Clock references: a failed conversion keeps the last value.
    b.on_event(DemuxEvent::ClockReference {
        ticks: 27_000_000,
        clock_hz: 27_000_000,
        discontinuous: false,
    });
    assert_eq!(b.pcr_pts(), Some(90_000));
    b.on_event(DemuxEvent::ClockReference {
        ticks: u64::MAX,
        clock_hz: 1,
        discontinuous: false,
    });
    b.on_event(DemuxEvent::ClockReference {
        ticks: 5,
        clock_hz: 0,
        discontinuous: true,
    });
    assert_eq!(b.pcr_pts(), Some(90_000));
    // Interruptions are counted by kind.
    b.on_event(DemuxEvent::Discontinuity(Discontinuity::TimelineReanchored));
    b.on_event(DemuxEvent::Discontinuity(Discontinuity::Signalled));
    assert_eq!(b.timeline_reanchor_count(), 1);
    b.on_event(DemuxEvent::InputDegraded(Degradation::ContinuityGap { expected: 1, got: 4 }));
    b.on_event(DemuxEvent::InputDegraded(Degradation::TransportError));
    b.on_event(DemuxEvent::InputDegraded(Degradation::Unknown));
    b.on_event(DemuxEvent::Unknown);
    b.on_event(DemuxEvent::TrackRemoved { track_id: 9 });
    b.on_event(DemuxEvent::TrackAbandoned);
    b.on_event(DemuxEvent::TracksResolved { generation: 1 });
    assert_eq!(b.continuity_gap_count(), 1);
    assert_eq!(b.transport_error_count(), 1);
    assert_eq!(b.unknown_event_count(), 2);

    let mut s = HlsSession::new(HlsConfig::vod());
    s.on_event(DemuxEvent::Discontinuity(Discontinuity::TimelineReanchored));
    s.on_event(DemuxEvent::Discontinuity(Discontinuity::BudgetExceeded { bytes: 7 }));
    assert_eq!(s.timeline_reanchor_count(), 1);
}

#[test]
fn downmix_toggle_is_kept() {
    let mut b = SkyfireBridge::new();
    b.set_audio_downmix(false);
    b.set_playing(true);
    b.feed(&program(1, &[(257, "deu", Audio::Stereo)]));
    // Stereo stays stereo either way.
    assert!(b.take_audio_pcm().iter().all(|c| c.channels == 2));
}

#[test]
fn capture_is_summarised() {
    let data = subtitled(2);
    let map = probe(&data).expect("a video track");
    assert_eq!(map.video, Some((VIDEO_PID, VideoCodec::H264)));
    assert_eq!(map.audio_streams, vec![(257, AudioCodec::Mp2)]);
    assert_eq!(
        map_report(&map).unwrap(),
        "Channel map: video PID 0x0100 (H264)\n  audio PID 0x0101 (Mp2)\n"
    );

    let full = probe_full(&data);
    let video = full.video.unwrap();
    assert_eq!(video.codec, "H264");
    assert_eq!((video.width, video.height), (1920, 1080));
    assert_eq!(full.default_audio_pid, Some(257));
    assert_eq!(full.audio.len(), 1);
    assert_eq!(full.audio[0].codec, "MP2");
    assert_eq!(full.audio[0].lang.as_deref(), Some("deu"));
    assert_eq!(full.subtitle.len(), 1);
    assert_eq!(full.subtitle[0].pid, 0x300);
    assert_eq!(full.subtitle[0].codec, "DVBSUB");

    let shown = sub_activity(&data);
    assert_eq!(shown.len(), 2);
    assert_eq!(shown[0].pid, 0x300);
    assert_eq!(shown[0].pts_ticks, 936_000);
    assert_eq!(shown[1].pts_ticks, 1_026_000);

    let hist = build_histogram(&data);
    let total: u64 = hist.values().sum();
    assert_eq!(total as usize, data.len() / 188);
    let entries = histogram_entries(&hist);
    assert_eq!(entries[0].0, 0);
    assert_eq!(entries.len(), hist.len());
    let report = histogram_report("a.ts", total, &entries);
    assert!(report.starts_with(&format!("a.ts: {total} packets, 5 distinct PIDs\n  PID 0x0000: ")));
}

#[test]
fn garbage_has_no_channel_map() {
    assert!(probe(&[0xaa; 4000]).is_none());
    let full = probe_full(&[0xaa; 4000]);
    assert!(full.video.is_none());
    assert!(full.audio.is_empty());
    assert_eq!(full.default_audio_pid, None);
    assert!(sub_activity(&[0xaa; 4000]).is_empty());
}

fn listed(playlist: &str) -> Vec<String> {
    playlist
        .lines()
        .filter(|l| l.ends_with(".ts"))
        .map(|l| l.to_string())
        .collect()
}

fn number(playlist: &str, tag: &str) -> u64 {
    let line = playlist.lines().find(|l| l.starts_with(tag)).unwrap();
    line[tag.len()..].parse().unwrap()
}

#[test]
fn empty_vod_session_is_not_ready_and_has_no_segments() {
    let s = HlsSession::new(HlsConfig::vod());
    assert!(!s.is_ready(), "no segments fed yet");
    assert_eq!(s.segment("seg0.ts"), None);
    // Playlist before any segment: a header, no segment lines, no ENDLIST yet.
    let pl = s.playlist();
    assert!(
        pl.starts_with("#EXTM3U"),
        "playlist must start with #EXTM3U"
    );
    assert!(!pl.contains(".ts"), "no segment URIs before any segment");
    assert_eq!(
        pl,
        "#EXTM3U\n#EXT-X-VERSION:3\n#EXT-X-TARGETDURATION:4\n#EXT-X-MEDIA-SEQUENCE:0\n\
         #EXT-X-PLAYLIST-TYPE:VOD\n#EXT-X-INDEPENDENT-SEGMENTS\n"
    );
}

#[test]
fn vod_session_lists_and_serves_every_segment() {
    let data = program(10, &[(257, "deu", Audio::Stereo)]);
    let mut s = HlsSession::new(HlsConfig::vod());
    for chunk in data.chunks(4096) {
        s.feed(chunk);
        assert!(!s.playlist().contains("#EXT-X-ENDLIST"));
    }
    s.finish();
    assert!(s.is_ready());
    let pl = s.playlist();
    assert!(pl.ends_with("#EXT-X-ENDLIST\n"));
    let names = listed(&pl);
    assert!(names.len() >= 2, "{pl}");
    assert_eq!(names[0], "seg0.ts");
    for name in &names {
        let bytes = s.segment(name).unwrap();
        assert_eq!(bytes[0], 0x47);
        assert_eq!(bytes.len() % 188, 0);
    }
    assert!(s.segment("seg99.ts").is_none());
    assert_eq!(s.segmenter_error_count(), 0);
    // Every segment starts at a random access point.
    let first = s.segment("seg0.ts").unwrap();
    let mut engine = Engine::new();
    engine.feed(&first);
    engine.finish();
    assert!(engine.video_units()[0].is_sync);
    // The target duration covers every segment.
    let target = number(&pl, "#EXT-X-TARGETDURATION:");
    for line in pl.lines().filter(|l| l.starts_with("#EXTINF:")) {
        let secs: f64 = line["#EXTINF:".len()..line.len() - 1].parse().unwrap();
        assert!(secs.ceil() as u64 <= target);
    }
}

#[test]
fn rolling_window_caps_playlist_length_and_advances_media_sequence() {
    let data = program(12, &[(257, "deu", Audio::Stereo)]);
    let mut s = HlsSession::new(HlsConfig {
        target_secs: 1,
        window: Some(2),
        uri_prefix: "seg".into(),
    });
    let mut prev_td = 0;
    let mut prev_seq = 0;
    for chunk in data.chunks(4096) {
        s.feed(chunk);
        let pl = s.playlist();
        assert!(listed(&pl).len() <= 2);
        let td = number(&pl, "#EXT-X-TARGETDURATION:");
        let seq = number(&pl, "#EXT-X-MEDIA-SEQUENCE:");
        assert!(td >= prev_td && seq >= prev_seq);
        prev_td = td;
        prev_seq = seq;
    }
    s.finish();

    let pl = s.playlist();
    let names = listed(&pl);
    assert_eq!(names.len(), 2);
    // Rolling playlists never carry ENDLIST or VOD type.
    assert!(
        !pl.contains("#EXT-X-ENDLIST"),
        "rolling playlist has no ENDLIST"
    );
    assert!(!pl.contains("VOD"), "rolling playlist is not VOD");
    // The first number is that of the segments that are gone.
    let mut whole = HlsSession::new(HlsConfig {
        target_secs: 1,
        window: None,
        uri_prefix: "seg".into(),
    });
    whole.feed(&data);
    whole.finish();
    let all = listed(&whole.playlist());
    assert_eq!(number(&pl, "#EXT-X-MEDIA-SEQUENCE:"), all.len() as u64 - 2);
    assert_eq!(names, all[all.len() - 2..].to_vec());
    let seq = number(&pl, "#EXT-X-MEDIA-SEQUENCE:");
    assert!(seq > 0);
    assert_eq!(names[0], format!("seg{seq}.ts"));
    assert_eq!(names[1], format!("seg{}.ts", seq + 1));
    // What rolled off is gone.
    assert!(s.segment("seg0.ts").is_none());
    assert!(s.segment(&names[0]).is_some());
}

#[test]
fn signalled_discontinuity_reaches_the_playlist() {
    // The discontinuity indicator in the adaptation field of a video packet.
    let mut data = program(10, &[]);
    let middle = data.len() / 2 / 188 * 188;
    let mut at = middle;
    while !(data[at + 1] & 0x40 != 0
        && u16::from(data[at + 1] & 0x1f) * 256 + u16::from(data[at + 2]) == VIDEO_PID
        && data[at + 3] & 0x20 != 0
        && data[at + 5] & 0x10 != 0)
    {
        at += 188;
    }
    data[at + 5] |= 0x80;
    let mut s = HlsSession::new(HlsConfig {
        target_secs: 1,
        window: None,
        uri_prefix: "part".into(),
    });
    s.feed(&data);
    s.finish();
    let pl = s.playlist();
    assert!(pl.contains("#EXT-X-DISCONTINUITY\n"), "{pl}");
    assert!(pl.contains("part0.ts"));
    assert_eq!(s.timeline_reanchor_count(), 0);

    let mut rolling = HlsSession::new(HlsConfig {
        target_secs: 1,
        window: Some(1),
        uri_prefix: "part".into(),
    });
    rolling.feed(&data);
    rolling.finish();
    let pl = rolling.playlist();
    assert_eq!(number(&pl, "#EXT-X-DISCONTINUITY-SEQUENCE:"), 1, "{pl}");
}

#[test]
fn session_without_video_never_builds() {
    let mut m = Muxer::new();
    for n in 0..50u64 {
        if n % 10 == 0 {
            m.tables(&[(0x03, 257, language("deu"))]);
        }
        m.pes(257, 0xc0, 900_000 + n * 2160, &mp2_frame(false), None);
    }
    let mut s = HlsSession::new(HlsConfig::vod());
    s.feed(&m.out);
    s.finish();
    assert!(!s.is_ready());
    assert!(s.playlist().ends_with("#EXT-X-ENDLIST\n"));
}

#[test]
fn session_takes_single_events() {
    let data = program(10, &[(257, "deu", Audio::Stereo)]);
    let mut demux = TsDemux::new();
    demux.feed(&data);
    demux.finish();
    let mut stepped = HlsSession::new(HlsConfig::vod());
    while let Some(event) = demux.poll_event() {
        stepped.on_event(event);
    }
    stepped.finish();
    let mut fed = HlsSession::new(HlsConfig::vod());
    fed.feed(&data);
    fed.finish();
    assert_eq!(stepped.playlist(), fed.playlist());
}

/// The video track of a stream.
fn video_track(data: &[u8]) -> StreamTrack {
    let mut demux = TsDemux::new();
    demux.feed(data);
    demux.finish();
    while let Some(event) = demux.poll_event() {
        if let DemuxEvent::TrackAdded(t) = event {
            if t.source_pid == Some(VIDEO_PID) {
                return t;
            }
        }
    }
    panic!("no video track");
}

fn stamped(
    track_id: u32,
    dts: i64,
    pts: i64,
    duration: Option<u32>,
    is_sync: bool,
) -> DemuxEvent {
    DemuxEvent::Sample {
        track_id,
        sample: MediaSample {
            data: vec![0, 0, 0, 2, 0x41, 0x9a],
            dts: Some(dts),
            pts: Some(pts),
            duration,
            is_sync,
        },
    }
}

#[test]
fn timestamps_out_of_range_are_segmenter_errors() {
    let data = program(3, &[(257, "deu", Audio::Stereo)]);
    let video = video_track(&data).track_id;
    let mut session = HlsSession::new(HlsConfig::vod());
    session.feed(&data);
    let mut bridge = SkyfireBridge::new();
    bridge.feed(&data);
    let shown = bridge.take_video_aus().len();
    let errors = |s: &HlsSession, b: &SkyfireBridge| {
        (s.segmenter_error_count(), b.segmenter_error_count())
    };
    assert_eq!(errors(&session, &bridge), (0, 0));
    // Too far apart for their difference.
    for (dts, pts) in [(i64::MIN, 0), (i64::MIN, i64::MAX), (-1, i64::MAX)] {
        session.on_event(stamped(video, dts, pts, Some(3600), false));
        bridge.on_event(stamped(video, dts, pts, Some(3600), false));
    }
    assert_eq!(errors(&session, &bridge), (3, 3));
    // Too far in all for a transport stream, but not for a media segment.
    session.on_event(stamped(video, 1 << 48, 1 << 48, Some(3600), false));
    bridge.on_event(stamped(video, 1 << 48, 1 << 48, Some(3600), false));
    assert_eq!(errors(&session, &bridge), (4, 3));
    // Such a sample is still shown, and leaves the rest as it was.
    assert_eq!(bridge.take_video_aus().len(), 4);
    assert!(shown > 0);
    session.on_event(stamped(video, 1_200_000, 1_200_000, Some(3600), false));
    bridge.on_event(stamped(video, 1_200_000, 1_200_000, Some(3600), false));
    assert_eq!(errors(&session, &bridge), (4, 3));
    // Too far in all for a media segment too.
    bridge.on_event(stamped(video, i64::MIN, i64::MIN, Some(3600), false));
    bridge.on_event(stamped(video, i64::MAX, i64::MAX, None, false));
    assert_eq!(errors(&session, &bridge), (4, 4));
    session.finish();
    bridge.flush();
    assert_eq!(errors(&session, &bridge), (4, 4));
    assert!(session.is_ready());
}

/// A session with one video track of one tick in a second, given four samples
/// of which the second comes `far` seconds after the first.
fn slow_session(far: i64) -> HlsSession {
    let mut track = video_track(&program(2, &[(257, "deu", Audio::Stereo)]));
    let id = track.track_id;
    track.timescale = 1;
    track.source.timescale = 1;
    let mut s = HlsSession::new(HlsConfig {
        target_secs: 6,
        window: None,
        uri_prefix: "seg".into(),
    });
    s.on_event(DemuxEvent::TrackAdded(track));
    s.on_event(DemuxEvent::TracksResolved { generation: 1 });
    s.on_event(stamped(id, 0, 0, Some(6), true));
    s.on_event(stamped(id, far, far, None, true));
    s.on_event(stamped(id, far, far, Some(6), true));
    s.on_event(stamped(id, far + 6, far + 6, Some(6), false));
    s.finish();
    s
}

#[test]
fn slow_clocks_run_as_far_as_they_can_be_scaled() {
    // Near the end of what 64 bits hold at 27 MHz.
    let s = slow_session(682_000_000_000);
    assert_eq!(s.segmenter_error_count(), 0);
    let pl = s.playlist();
    assert_eq!(listed(&pl).len(), 3, "{pl}");
    assert!(pl.contains("#EXTINF:682000000000.000000,\n"), "{pl}");
    // Past it the far samples are refused.
    for far in [683_000_000_001, 1 << 45] {
        let s = slow_session(far);
        assert_eq!(s.segmenter_error_count(), 3);
        assert_eq!(listed(&s.playlist()).len(), 1);
    }
}

#[test]
fn samples_of_unknown_tracks_are_segmenter_errors() {
    let data = program(3, &[(257, "deu", Audio::Stereo)]);
    let mut session = HlsSession::new(HlsConfig::vod());
    session.feed(&data);
    session.on_event(stamped(9999, 0, 0, Some(1), true));
    assert_eq!(session.segmenter_error_count(), 1);
}

#[test]
fn names_can_bring_a_tag_along() {
    let data = program(10, &[(257, "deu", Audio::Stereo)]);
    for (prefix, held) in [("#EXT-X-ENDLIST", true), ("#EXT-X-END\n#", false)] {
        let mut s = HlsSession::new(HlsConfig {
            target_secs: 1,
            window: Some(3),
            uri_prefix: prefix.into(),
        });
        assert!(!s.playlist().contains("#EXT-X-ENDLIST"));
        s.feed(&data);
        s.finish();
        let pl = s.playlist();
        assert!(s.is_ready());
        assert_eq!(pl.contains("#EXT-X-ENDLIST"), held);
        assert!(!pl.ends_with("#EXT-X-ENDLIST\n"));
        assert!(!pl.contains("#EXT-X-PLAYLIST-TYPE:VOD"));
        for line in pl.lines().filter(|l| l.starts_with("#EXTINF:")) {
            let text = &line["#EXTINF:".len()..line.len() - 1];
            let (whole, micros) = text.split_once('.').unwrap();
            assert_eq!(micros.len(), 6);
            assert!(whole.bytes().chain(micros.bytes()).all(|c| c.is_ascii_digit()));
        }
    }
}

#[test]
fn broken_parameter_sets_give_no_track() {
    // A bit depth of 2^32 - 2 + 8, and an endless Exp-Golomb code.
    for tail in [
        &[0xa0u8, 0x00, 0x00, 0x00, 0x03, 0x00, 0x7f, 0xff, 0xff, 0xff, 0xff][..],
        &[0x00, 0x00, 0x03, 0x00, 0x00, 0x03, 0x00, 0x00, 0x03, 0x00, 0x00, 0x03, 0x01, 0xff],
    ] {
        let mut au = vec![0, 0, 0, 1, 0x09, 0xf0, 0, 0, 0, 1, 0x67, 0x64, 0x00, 0x28];
        au.extend_from_slice(tail);
        au.extend_from_slice(&[0, 0, 0, 1]);
        au.extend_from_slice(&PPS);
        au.extend_from_slice(&[0, 0, 1, 0x65, 0x88, 0x84, 0x5a, 0x77]);
        let mut m = Muxer::new();
        for n in 0..10u64 {
            m.tables(&[(0x1b, VIDEO_PID, Vec::new())]);
            let pts = 900_000 + 3600 * n;
            m.pes(VIDEO_PID, 0xe0, pts, &au, Some(pts - 9000));
        }
        let mut demux = TsDemux::new();
        demux.feed(&m.out);
        demux.finish();
        while let Some(event) = demux.poll_event() {
            assert!(!matches!(event, DemuxEvent::TrackAdded(_)));
        }
    }
}

#[test]
fn server_serves_a_capture_whole() {
    let mut m = Manager::new(vec![]);
    assert!(m.playlist("a").is_none());
    assert!(!m.is_ready("a"));
    assert!(matches!(m.answer_playlist("a"), Reply::UnknownStream));
    m.start("a", program(10, &[(257, "deu", Audio::Stereo)]));
    assert!(m.is_started("a"));
    assert!(m.is_ready("a"));
    assert!(m.at_eof("a"));
    let pl = m.playlist("a").unwrap();
    assert!(pl.contains("#EXT-X-ENDLIST"));
    let first = listed(&pl).remove(0);
    assert_eq!(m.segment("a", &first).unwrap()[0], 0x47);
    assert!(m.segment("a", "nope.ts").is_none());
    match m.answer_segment("a", &first) {
        Reply::Segment(bytes) => assert_eq!(bytes[0], 0x47),
        _ => panic!("the first segment is there"),
    }
    match m.answer_playlist("a") {
        Reply::Playlist(text) => assert_eq!(text, pl),
        _ => panic!("the playlist is there"),
    }
    let missing = m.answer_segment("a", "nope.ts");
    assert_eq!(missing.status(), 404);
    assert_eq!(missing.message(), Some("no such segment"));
    let bad = m.answer_segment("a", "../a");
    assert_eq!(bad.status(), 400);
    assert_eq!(bad.message(), Some("bad segment name"));
    // A second start changes nothing.
    m.start("a", Vec::new());
    assert_eq!(m.playlist("a").unwrap(), pl);
}

#[test]
fn live_playlist_grows_then_caps_at_window() {
    let data = program(40, &[(257, "deu", Audio::Stereo)]);
    let mut m = Manager::new(vec!["cam".to_string()]);
    assert!(m.is_live("cam"));
    assert!(!m.is_live("other"));
    m.start("cam", data);

    // Before any feed, live slug is not ready.
    assert!(!m.is_ready("cam"));
    assert!(matches!(m.answer_playlist("cam"), Reply::NotReady));
    assert_eq!(m.answer_playlist("cam").status(), 503);

    let mut prev_listed = 0usize;
    let mut grew = false;
    for _ in 0..2000 {
        m.feed_live_step("cam", 64 * 1024);
        if let Some(pl) = m.playlist("cam") {
            let listed = listed(&pl).len();
            if listed > prev_listed {
                grew = true;
            }
            // Rolling window(6): never exceed 6 listed.
            assert!(
                listed <= 6,
                "live playlist must cap at window=6, got {listed}"
            );
            prev_listed = listed;
        }
        if m.at_eof("cam") {
            break;
        }
    }
    assert!(m.at_eof("cam"));
    assert!(grew, "live playlist must grow as segments are fed");
    assert!(m.is_ready("cam"));
    // Nothing is left to feed.
    let pl = m.playlist("cam").unwrap();
    m.feed_live_step("cam", 64 * 1024);
    assert_eq!(m.playlist("cam").unwrap(), pl);
}

fn coded(channels: u16) -> Audio {
    // Frames of 768 bytes at 192 kbit/s, of 1792 bytes at 448 kbit/s.
    let len = if channels > 2 { 1792 } else { 768 };
    Audio::Coded(encode(false, channels, 4).chunks(len).map(|f| f.to_vec()).collect())
}

#[test]
fn engine_decodes_ac3_and_sets_the_clock() {
    let data = program(2, &[(257, "deu", coded(2))]);
    let mut engine = Engine::new();
    engine.feed(&data);
    engine.finish();
    assert!(!engine.has_audio());
    engine.finalize();
    assert!(engine.has_audio());
    assert_eq!(engine.audio_sample_rate(), 48_000);
    assert_eq!(engine.audio_channels(), 2);
    let frames = engine.audio_pcm().len() / 4;
    assert_eq!(engine.audio_pcm().len() % 4, 0);
    let clock = engine.clock();
    assert_eq!(clock.anchor_pts_raw, 900_000);
    assert_eq!(clock.sample_rate, 48_000);
    assert_eq!(clock.samples_played, frames as u64);
    assert_eq!(
        clock.media_time_us(),
        10_000_000 + frames as i64 * 1_000_000 / 48_000
    );
    // Finalizing again changes nothing.
    let pcm = engine.audio_pcm().to_vec();
    engine.finalize();
    assert_eq!(engine.audio_pcm(), &pcm[..]);
    assert_eq!(engine.clock().samples_played, frames as u64);
}

#[test]
fn downmix_toggle_controls_output_channels() {
    let data = program(2, &[(257, "deu", coded(6))]);
    for (downmix, want) in [(true, 2u16), (false, 6)] {
        let mut b = SkyfireBridge::new();
        b.set_audio_downmix(downmix);
        b.feed(&data);
        b.flush();
        let pcm = b.take_audio_pcm();
        assert!(!pcm.is_empty());
        for chunk in &pcm {
            assert_eq!(chunk.channels, want);
            assert_eq!(chunk.native_channels, 6);
            assert_eq!(chunk.sample_rate, 48_000);
        }
        assert_eq!(b.audio_native_channels(), 6);
        assert_eq!(b.current_decoded_pid(), Some(257));
    }
}

#[test]
fn broken_audio_is_counted_and_leaves_the_report() {
    let good = program(2, &[(257, "deu", coded(2))]);
    let mut b = SkyfireBridge::new();
    b.feed(&good);
    b.flush();
    let chunks = b.take_audio_pcm().len();
    assert!(chunks > 0);
    let errors = b.audio_decode_error_count();
    // A frame that fails, on the track that is selected.
    let mut id = None;
    let mut again = TsDemux::new();
    again.feed(&good);
    again.finish();
    while let Some(event) = again.poll_event() {
        if let DemuxEvent::TrackAdded(t) = event {
            if t.source_pid == Some(257) {
                id = Some(t.track_id);
            }
        }
    }
    b.on_event(DemuxEvent::Sample {
        track_id: id.unwrap(),
        sample: MediaSample {
            data: vec![0x0b, 0x77, 0, 0x01, 0x00, 0x80, 0, 0],
            dts: None,
            pts: None,
            duration: None,
            is_sync: true,
        },
    });
    assert_eq!(b.audio_decode_error_count(), errors + 1);
    assert!(b.take_audio_pcm().is_empty());
    assert_eq!(b.current_decoded_pid(), Some(257));
}
