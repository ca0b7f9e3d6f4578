//! Media segment readers, text and configuration records.

use skyfire::bridge::actions::{degradation_action, discontinuity_action, EventAction};
use skyfire::bridge::helpers::{
    lang_bytes_to_string, parse_base_media_decode_time, parse_sample_count_from_segment,
};
use skyfire::inspect::{
    audio_label_str, build_histogram, histogram_entries, histogram_report,
    payload_has_page_composition, video_label_str, ChannelMap, ProbeSummary,
};
use skyfire::text::{decimal, hex};
use skyfire::ts::codec::{SubtitleKind, TrackKind};
use skyfire::ts::demux::{Degradation, Discontinuity};
use skyfire::ts::h264_config::{
    annexb_to_avcc, avc_record, build_video_config, config_from, find_nal, h264_decoder_config,
    sps_dimensions, AccessUnit, NalUnit, SpsInfo,
};
use skyfire::ts::track::{
    audio_codec_from_descriptors, language_from_descriptors, subtitle_kind_from_descriptors, Codec,
    Descriptor, TrackMeta,
};
use skyfire::ts::{
    audio_codec_str, build_avcc_config, video_codec_str, AVCDecoderConfigurationRecord, AudioCodec,
    VideoCodec,
};

// ── Media segments ─────────────────────────────────────────────────────────

fn boxed(kind: &[u8; 4], body: &[u8]) -> Vec<u8> {
    let mut b = ((body.len() + 8) as u32).to_be_bytes().to_vec();
    b.extend_from_slice(kind);
    b.extend_from_slice(body);
    b
}

#[test]
fn sample_counts_of_all_runs_add_up() {
    let mut seg = boxed(b"trun", &[0, 0, 0, 1, 0, 0, 0, 25, 9]);
    seg.extend_from_slice(&boxed(b"trun", &[0, 0, 0, 1, 0, 0, 1, 0]));
    assert_eq!(parse_sample_count_from_segment(&seg), 25 + 256);
    assert_eq!(parse_sample_count_from_segment(&[]), 0);
    // Without room for a size before it, or a count behind it, a run does not
    // count.
    assert_eq!(parse_sample_count_from_segment(b"trun\0\0\0\0\0\0\0\x05"), 0);
    assert_eq!(parse_sample_count_from_segment(b"\0\0\0\x0ctrun\0\0\0\0\0\0"), 0);
}

#[test]
fn single_run_gives_its_count() {
    let seg = boxed(b"moof", &boxed(b"traf", &boxed(b"trun", &[1, 0, 0, 0, 0, 0, 0, 7])));
    assert_eq!(parse_sample_count_from_segment(&seg), 7);
}

#[test]
fn decode_time_by_version() {
    let short = boxed(b"tfdt", &[0, 0, 0, 0, 0, 1, 0, 2]);
    assert_eq!(parse_base_media_decode_time(&short), 0x1_0002);
    let long = boxed(b"tfdt", &[1, 0, 0, 0, 0, 0, 0, 5, 0, 0, 0, 6]);
    assert_eq!(parse_base_media_decode_time(&long), 5 * 0x1_0000_0000 + 6);
    // A long one that is cut is read as a short one.
    assert_eq!(parse_base_media_decode_time(&long[..16]), 5);
    assert_eq!(parse_base_media_decode_time(b"tfdt"), 0);
    assert_eq!(parse_base_media_decode_time(&[]), 0);
    // The first one that is long enough counts.
    let mut two = b"tfdt".to_vec();
    two.extend_from_slice(&short);
    assert_ne!(parse_base_media_decode_time(&two), 0);
}

#[test]
fn languages_are_text() {
    assert_eq!(lang_bytes_to_string(b"deu"), "deu");
    assert_eq!(lang_bytes_to_string(&[0x66, 0xff, 0x61]), "f\u{fffd}a");
}

// ── Interruptions ──────────────────────────────────────────────────────────

#[test]
fn only_reanchoring_leaves_everything_running() {
    let full = EventAction {
        reset_decoders: true,
        mark_segmenter_discontinuity: true,
    };
    assert_eq!(discontinuity_action(Discontinuity::Signalled), full);
    assert_eq!(discontinuity_action(Discontinuity::BudgetExceeded { bytes: 9 }), full);
    assert_eq!(discontinuity_action(Discontinuity::Unknown), full);
    let none = EventAction {
        reset_decoders: false,
        mark_segmenter_discontinuity: false,
    };
    assert_eq!(discontinuity_action(Discontinuity::TimelineReanchored), none);
    assert_eq!(degradation_action(Degradation::TransportError), none);
    let reset = EventAction {
        reset_decoders: true,
        mark_segmenter_discontinuity: false,
    };
    assert_eq!(
        degradation_action(Degradation::ContinuityGap { expected: 1, got: 3 }),
        reset
    );
    assert_eq!(degradation_action(Degradation::Unknown), reset);
    assert_eq!(EventAction::none(), none);
    assert_eq!(EventAction::full_reset(), full);
}

// ── Text ───────────────────────────────────────────────────────────────────

#[test]
fn numbers_as_text() {
    assert_eq!(decimal(0), "0");
    assert_eq!(decimal(9), "9");
    assert_eq!(decimal(10), "10");
    assert_eq!(decimal(1_234_567_890), "1234567890");
    assert_eq!(decimal(u64::MAX), u64::MAX.to_string());
    assert_eq!(hex(0), "0x0000");
    assert_eq!(hex(0x1abf), "0x1abf");
    assert_eq!(hex(0xcdef), "0xcdef");
}

// ── Captures ───────────────────────────────────────────────────────────────

#[test]
fn histogram_counts_whole_packets() {
    let mut data = Vec::new();
    for pid in [0x100u16, 0x1fff, 0x100] {
        let mut p = vec![0x47, 0xe0 | (pid >> 8) as u8, pid as u8];
        p.resize(188, 0);
        data.extend_from_slice(&p);
    }
    // A packet without sync, and one that is cut.
    data.extend_from_slice(&[0u8; 188]);
    data.extend_from_slice(&[0x47, 0x01, 0x00]);
    let hist = build_histogram(&data);
    let entries = histogram_entries(&hist);
    assert_eq!(entries, vec![(0x100, 2), (0x1fff, 1)]);
    assert_eq!(
        histogram_report("x", 4, &entries),
        "x: 4 packets, 2 distinct PIDs\n  PID 0x0100: 2\n  PID 0x1fff: 1\n"
    );
    assert!(build_histogram(&[]).is_empty());
}

#[test]
fn page_compositions_are_found() {
    let page = [0x20, 0, 0x0f, 0x10, 0, 1, 0, 8, 1, 2, 3, 4, 5, 6, 7, 8];
    assert!(payload_has_page_composition(&page));
    // Two bytes are a page without regions.
    assert!(!payload_has_page_composition(&[0x20, 0, 0x0f, 0x10, 0, 1, 0, 2, 1, 2]));
    // Another segment comes first.
    let mut later = vec![0x20, 0, 0x0f, 0x14, 0, 1, 0, 1, 9];
    later.extend_from_slice(&page[2..]);
    assert!(payload_has_page_composition(&later));
    // Cut, foreign and empty payloads.
    assert!(!payload_has_page_composition(&later[..10]));
    assert!(!payload_has_page_composition(&[0x21, 0, 0x0f, 0x10, 0, 1, 0, 8]));
    assert!(!payload_has_page_composition(&[0x20, 0, 0x0f, 0x11, 0, 1, 0xff, 0xff]));
    assert!(!payload_has_page_composition(&[]));
}

fn meta(kind: TrackKind, pid: Option<u16>) -> TrackMeta {
    TrackMeta {
        pid,
        kind,
        language: Some(*b"fra"),
        timescale: 90_000,
    }
}

#[test]
fn first_video_and_first_audio_lead() {
    let mut map = ChannelMap::new();
    let mut summary = ProbeSummary::new();
    let tracks = [
        (meta(TrackKind::Audio(AudioCodec::EAc3), Some(7)), Codec::Eac3),
        (
            meta(TrackKind::Video(VideoCodec::H265), Some(5)),
            Codec::Hevc { width: 640, height: 480 },
        ),
        (
            meta(TrackKind::Video(VideoCodec::H264), Some(6)),
            Codec::Avc { width: 16, height: 16 },
        ),
        (meta(TrackKind::Audio(AudioCodec::Ac3), None), Codec::Ac3),
        (
            meta(TrackKind::Subtitle(SubtitleKind::Teletext), Some(9)),
            Codec::Data { sections: false },
        ),
        (meta(TrackKind::Other, Some(10)), Codec::Other),
    ];
    for (m, codec) in tracks {
        map.add(&m);
        summary.add(&m, codec);
    }
    assert_eq!(map.video, Some((5, VideoCodec::H265)));
    assert_eq!(map.audio_streams, vec![(7, AudioCodec::EAc3), (0, AudioCodec::Ac3)]);
    let video = summary.video.unwrap();
    assert_eq!((video.codec.as_str(), video.width, video.height), ("H265", 640, 480));
    assert_eq!(summary.default_audio_pid, Some(7));
    assert_eq!(summary.audio[1].codec, "AC3");
    assert_eq!(summary.audio[1].pid, 0);
    assert_eq!(summary.subtitle[0].lang.as_deref(), Some("fra"));
}

#[test]
fn codec_names() {
    assert_eq!(video_codec_str(VideoCodec::H264), "H264");
    assert_eq!(video_codec_str(VideoCodec::H265), "H265");
    assert_eq!(audio_codec_str(AudioCodec::Ac3), "AC3");
    assert_eq!(audio_codec_str(AudioCodec::EAc3), "EAC3");
    assert_eq!(audio_codec_str(AudioCodec::Mp2), "MP2");
    assert_eq!(audio_label_str(AudioCodec::EAc3), "EAc3");
    assert_eq!(audio_label_str(AudioCodec::Ac3), "Ac3");
    assert_eq!(audio_label_str(AudioCodec::Mp2), "Mp2");
    assert_eq!(video_label_str(VideoCodec::H265), "H265");
}

#[test]
fn first_telling_descriptor_counts() {
    let list = vec![
        Descriptor::Other,
        Descriptor::Iso639Language(None),
        Descriptor::Iso639Language(Some(*b"ita")),
        Descriptor::Registration(*b"HEVC"),
        Descriptor::EnhancedAc3,
        Descriptor::Ac3,
        Descriptor::Teletext,
        Descriptor::Subtitling,
    ];
    assert_eq!(language_from_descriptors(&list), Some(*b"ita"));
    assert_eq!(audio_codec_from_descriptors(&list), Some(AudioCodec::EAc3));
    assert_eq!(subtitle_kind_from_descriptors(&list), Some(SubtitleKind::Teletext));
    let registered = vec![Descriptor::Registration(*b"AC-3")];
    assert_eq!(audio_codec_from_descriptors(&registered), Some(AudioCodec::Ac3));
    assert_eq!(audio_codec_from_descriptors(&Vec::new()), None);
    assert_eq!(language_from_descriptors(&Vec::new()), None);
    assert_eq!(subtitle_kind_from_descriptors(&registered), None);
}

// ── H.264 configuration ────────────────────────────────────────────────────

const HIGH_SPS: [u8; 28] = [
    0x67, 0x64, 0x00, 0x28, 0xac, 0x34, 0xa5, 0x01, 0xe0, 0x11, 0x1f, 0x78, 0x0a, 0x10, 0x10, 0x10,
    0x14, 0x00, 0x00, 0x03, 0x00, 0x04, 0x00, 0x00, 0x03, 0x00, 0xca, 0x50,
];
const HIGH_PPS: [u8; 5] = [0x68, 0xea, 0x57, 0x52, 0x50];
const FULL_SPS: [u8; 25] = [
    0x67, 0xf4, 0x00, 0x0c, 0x91, 0x9b, 0x28, 0x20, 0x27, 0x60, 0x22, 0x00, 0x00, 0x03, 0x00, 0x02,
    0x00, 0x00, 0x03, 0x00, 0x64, 0x1e, 0x28, 0x53, 0x2c,
];
const FULL_PPS: [u8; 6] = [0x68, 0xeb, 0xe3, 0xc4, 0x48, 0x44];

fn units(sps: &[u8], pps: &[u8]) -> Vec<AccessUnit> {
    let mut es = vec![0, 0, 0, 1, 0x09, 0xf0, 0, 0, 0, 1];
    es.extend_from_slice(sps);
    es.extend_from_slice(&[0, 0, 0, 1]);
    es.extend_from_slice(pps);
    es.extend_from_slice(&[0, 0, 1, 0x65, 0x88]);
    vec![AccessUnit {
        pid: 0x0100,
        pts_ticks: Some(0),
        dts_ticks: None,
        es_bytes: es,
    }]
}

#[test]
fn annexb_to_avcc_matches_transmux() {
    // Two NALs: 4-byte then 3-byte start code.
    let annexb: &[u8] = &[0, 0, 0, 1, 0x67, 0xAA, 0, 0, 1, 0x68, 0xBB, 0xCC];
    let got = annexb_to_avcc(annexb);
    let want = transmux::annexb_to_length_prefixed(annexb);
    assert_eq!(got, want);
    // Explicit expected: [len=2][67 AA][len=3][68 BB CC]
    assert_eq!(
        got,
        vec![0, 0, 0, 2, 0x67, 0xAA, 0, 0, 0, 3, 0x68, 0xBB, 0xCC]
    );
    assert!(annexb_to_avcc(&[1, 2, 3]).is_empty());
}

#[test]
fn golden_gulli_15s() {
    let config = h264_decoder_config(&units(&HIGH_SPS, &HIGH_PPS)).expect("must build config");
    assert_eq!(config.codec, "avc1.640028");
    assert_eq!(config.width, 1920, "width");
    assert_eq!(config.height, 1080, "height");
    assert_eq!(config.description[0], 1, "configuration_version");
    assert_eq!(config.description[1], 100, "profile_idc (High)");
    assert_eq!(config.description[2], 0, "constraint_flags");
    assert_eq!(config.description[3], 40, "level_idc (L4.0)");
    assert_eq!(config.description[4] & 0x03, 3);
    assert_eq!(config.description[5] & 0x1f, 1);
    let sps_len = u16::from_be_bytes([config.description[6], config.description[7]]) as usize;
    assert!(sps_len > 0, "SPS must be non-empty");
    assert_eq!(config.description[8], 0x67, "SPS NAL header");
    let pps_offset = 6 + 2 + sps_len;
    assert_eq!(config.description[pps_offset], 1, "numPPS");
    let pps_len = u16::from_be_bytes([
        config.description[pps_offset + 1],
        config.description[pps_offset + 2],
    ]) as usize;
    assert!(pps_len > 0, "PPS must be non-empty");
    assert_eq!(config.description[pps_offset + 3], 0x68, "PPS NAL header");
    assert!(
        config.description.len() > pps_offset + 3 + pps_len,
        "high-profile ext bytes must follow the PPS"
    );

    let expected_avcc: &[u8] = &[
        0x01, // version
        0x64, // profile_idc = 100 (High)
        0x00, // constraint_flags
        0x28, // level_idc = 40 (4.0)
        0xff, // reserved(6)+lengthSizeMinusOne(3) = 0xfc|0x03 = 0xff
        0xe1, // reserved(3)+numSPS(1) = 0xe0|0x01 = 0xe1
        0x00, 0x1c, // SPS length = 28
        // SPS NAL unit:
        0x67, 0x64, 0x00, 0x28, 0xac, 0x34, 0xa5, 0x01, 0xe0, 0x11, 0x1f, 0x78, 0x0a, 0x10,
        0x10, 0x10, 0x14, 0x00, 0x00, 0x03, 0x00, 0x04, 0x00, 0x00, 0x03, 0x00, 0xca, 0x50,
        0x01, // numPPS = 1
        0x00, 0x05, // PPS length = 5
        // PPS NAL unit:
        0x68, 0xea, 0x57, 0x52, 0x50,
        // High-profile ext (chroma=YUV420, 8-bit, no sps_ext):
        0xfd, 0xf8, 0xf8, 0x00,
    ];
    assert_eq!(
        config.description, expected_avcc,
        "avcC golden bytes mismatch"
    );
}

#[test]
fn golden_h264_25fps() {
    let config = h264_decoder_config(&units(&FULL_SPS, &FULL_PPS)).expect("must build config");
    assert_eq!(config.codec, "avc1.F4000C");

    let expected_avcc: &[u8] = &[
        0x01, // version
        0xf4, // profile_idc = 244 (High 4:4:4)
        0x00, // constraint_flags
        0x0c, // level_idc = 12 (1.2)
        0xff, // reserved + lengthSizeMinusOne=3
        0xe1, // reserved + numSPS=1
        0x00, 0x19, // SPS length = 25
        // SPS NAL unit:
        0x67, 0xf4, 0x00, 0x0c, 0x91, 0x9b, 0x28, 0x20, 0x27, 0x60, 0x22, 0x00, 0x00, 0x03,
        0x00, 0x02, 0x00, 0x00, 0x03, 0x00, 0x64, 0x1e, 0x28, 0x53, 0x2c,
        0x01, // numPPS = 1
        0x00, 0x06, // PPS length = 6
        // PPS NAL unit:
        0x68, 0xeb, 0xe3, 0xc4, 0x48, 0x44,
    ];
    assert_eq!(
        config.description, expected_avcc,
        "avcC golden bytes mismatch"
    );
}

#[test]
fn avcc_record_roundtrips() {
    let cfg = h264_decoder_config(&units(&HIGH_SPS, &HIGH_PPS)).unwrap();
    let reparsed = transmux::AVCConfigurationBox::parse_body(&cfg.description)
        .expect("record must reparse");
    assert_eq!(reparsed.config.profile_indication, 100);
    assert_eq!(reparsed.config.level_indication, 40);
}

#[test]
fn missing_param_sets_returns_none() {
    let units: Vec<AccessUnit> = vec![AccessUnit {
        pid: 0x0100,
        pts_ticks: Some(0),
        dts_ticks: None,
        es_bytes: vec![0x00, 0x00, 0x00, 0x01, 0x41, 0x9a], // non-IDR slice, no SPS/PPS
    }];
    assert!(h264_decoder_config(&units).is_none());
}

#[test]
fn empty_access_units_returns_none() {
    assert!(h264_decoder_config(&[]).is_none());
}

#[test]
fn unreadable_sps_returns_none() {
    assert!(build_video_config(&[0x67], &HIGH_PPS).is_none());
    assert!(build_video_config(&HIGH_SPS, &HIGH_PPS).is_some());
}

#[test]
fn first_nal_of_a_kind_is_found() {
    let nals = vec![
        NalUnit { kind: 9, bytes: vec![9] },
        NalUnit { kind: 7, bytes: vec![7, 1] },
        NalUnit { kind: 7, bytes: vec![7, 2] },
    ];
    assert_eq!(find_nal(&nals, 7), Some(1));
    assert_eq!(find_nal(&nals, 8), None);
}

fn sps_info(profile_idc: u8) -> SpsInfo {
    SpsInfo {
        profile_idc,
        constraint_flags: 0x40,
        level_idc: 31,
        chroma_format_idc: 2,
        bit_depth_luma_minus8: 2,
        bit_depth_chroma_minus8: 1,
        fields: true,
        dimensions: Some((720, 65_536 + 576)),
    }
}

#[test]
fn extension_follows_the_profile() {
    let plain = config_from(&sps_info(77), &[0x67], &[0x68]).unwrap();
    assert_eq!(plain.codec, "avc1.4D401F");
    assert!(plain.interlaced);
    assert_eq!((plain.width, plain.height), (720, 576));
    assert_eq!(
        plain.description,
        vec![1, 77, 0x40, 31, 0xff, 0xe1, 0, 1, 0x67, 1, 0, 1, 0x68]
    );
    let high = config_from(&sps_info(122), &[0x67], &[0x68]).unwrap();
    assert_eq!(&high.description[13..], &[0xfe, 0xfa, 0xf9, 0]);
    let old_full = config_from(&sps_info(144), &[0x67], &[0x68]).unwrap();
    assert_eq!(&old_full.description[13..], &[0xfe, 0xfa, 0xf9, 0]);
    let record = avc_record(&sps_info(77), &[0x67], &[0x68]);
    assert_eq!(record.chroma_format, None);
    let mut unknown = sps_info(77);
    unknown.dimensions = None;
    assert_eq!(sps_dimensions(&unknown), (0, 0));
}

#[test]
fn oversized_parameter_sets_have_no_record() {
    let long = vec![0x67; 65_536];
    assert!(config_from(&sps_info(77), &long, &[0x68]).is_none());
    assert!(config_from(&sps_info(77), &[0x67], &long).is_none());
    assert!(config_from(&sps_info(77), &long[..65_535], &[0x68]).is_some());
    let mut record = avc_record(&sps_info(77), &[0x67], &[0x68]);
    record.sps = vec![vec![0x67]; 31];
    assert_eq!(build_avcc_config(&record).1.len(), 6 + 31 * 3 + 1 + 3);
    record.sps.push(vec![0x67]);
    let (codec, description) = build_avcc_config(&record);
    assert_eq!(codec, "avc1.4D401F");
    assert!(description.is_empty());
    // Without a chroma format there is no extension, whatever the profile.
    let mut high = avc_record(&sps_info(100), &[0x67], &[0x68]);
    assert_eq!(build_avcc_config(&high).1.len(), 17);
    high.chroma_format = None;
    assert_eq!(build_avcc_config(&high).1.len(), 13);
}

#[test]
fn record_is_serialised() {
    let record = AVCDecoderConfigurationRecord {
        configuration_version: 1,
        profile_indication: 66,
        profile_compatibility: 0xc0,
        level_indication: 30,
        length_size_minus_one: 3,
        sps: vec![vec![0x67, 1]],
        pps: vec![vec![0x68], vec![0x68, 2]],
        chroma_format: None,
        bit_depth_luma_minus8: None,
        bit_depth_chroma_minus8: None,
        sps_ext: vec![],
    };
    let (codec, bytes) = build_avcc_config(&record);
    assert_eq!(codec, "avc1.42C01E");
    assert_eq!(
        bytes,
        vec![1, 66, 0xc0, 30, 0xff, 0xe1, 0, 2, 0x67, 1, 2, 0, 1, 0x68, 0, 2, 0x68, 2]
    );
}
