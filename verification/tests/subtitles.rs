//! DVB subtitle compositing.

use skyfire::ts::pixel_codes::{expand_2bit, expand_4bit, expand_8bit};
use skyfire::ts::segments::PesDataField;
use skyfire::ts::subtitle_compositor::{ycrcb_to_rgba, CompositorState};

/// Build a minimal display set PES data field (raw bytes).
///
/// Contains:
/// - Display definition (720x288)
/// - CLUT: index 1 = opaque red (Y=81, Cr=90, Cb=240 gives R~G=0,B=0 via BT.601)
/// - Region composition: 32x16, 8-bit, CLUT_id=1, places object 1 at (0,0)
/// - Object data: id=1, interlaced, all pixels = index 1
/// - Page composition: region 1 at screen (10,20), page_time_out=5
/// - End of display set
fn build_minimal_display_pes() -> Vec<u8> {
    let mut buf = Vec::new();
    buf.extend_from_slice(&[0x20, 0x00]); // data_identifier + subtitle_stream_id

    // DDS header + body (seg_len=5): version=1, no window, 720x288
    buf.extend_from_slice(&[
        0x0F, 0x14, 0x00, 0x01, 0x00, 0x05, // header page_id=1, seg_len=5
        0x10, 0x02, 0xCF, 0x01, 0x1F, // version=1, width=719, height=287
    ]);

    // CLUT header + body (seg_len 2+6=8 for 1 full-range entry)
    // page_id=1, clut_id=1, version=1, reserved=0
    // Entry: id=1, flags=0x20 (8-bit) | 0x01 (full_range) = 0x21
    // Y=76, Cr=255, Cb=86, T=255 -> R=254, G=-0, B=2 via BT.601 (near-red)
    buf.extend_from_slice(&[
        0x0F, 0x12, 0x00, 0x01, 0x00, 0x08, // header page_id=1, seg_len=8
        0x01, 0x10, // clut_id=1, version=1, reserved=0
        0x01, 0x21, // entry_id=1, flags=0x21 (8-bit + full_range)
        0x4C, 0xFF, 0x56, 0xFF, // Y=76, Cr=255, Cb=86, T=255
    ]);

    // Region composition header + body (seg_len=10 + 6 for 1 object entry = 16)
    // body: region_id=1, version=1, fill=0, reserved=0
    //       width=32, height=16
    //       compat=8bit(3), depth=8bit(3) → byte=0xEC, reserved=0
    //       clut_id=1, 8bit_pixel=0, 4bit_pixel=0, 2bit_pixel=0, reserved=0
    // object: id=1, basic_bitmap(0), in_stream(0), hpos=0, vpos=0
    buf.extend_from_slice(&[
        0x0F, 0x11, 0x00, 0x01, 0x00, 0x10, // header page_id=1, seg_len=16
        0x01, 0x10, // region_id=1, version=1, fill=0
        0x00, 0x20, // width=32
        0x00, 0x10, // height=16
        0xEC, // compat=3<<5|depth=3<<2|reserved=0
        0x01, // clut_id=1
        0x00, // 8bit_pixel=0
        0x00, // 4bit=0, 2bit=0, reserved=0
        // object entry: id=1, type=0, provider=0, hpos=0, vpos=0 (no extra)
        0x00, 0x01, // object_id=1
        0x00, 0x00, // type=0|provider=0|hpos_hi=0, hpos_lo=0
        0x00, 0x00, // vpos_hi=0|reserved=0, vpos_lo=0
    ]);

    // Object data: id=1, interlaced, all pixels = 0x01
    // Fixed: object_id=1 (2), version=0|coding=pixels (1) = 3 bytes
    // Then 2 bytes top_len + 2 bytes bottom_len
    // Top field: 8 lines of 32 bytes 0x01 + 0xF0 end-of-line = 8*33 = 264 bytes
    // Bottom field: same = 264 bytes
    // Build interlaced object data as PixelDataSubBlock
    // Each top-field line: data_type=0x12 + 32 pixels of 0x01 + end-of-string(0x00 0x00) + end-of-line(0xF0)
    let mut top_field = Vec::new();
    for _ in 0..8 {
        top_field.push(0x12); // CodeString8Bit data_type
        top_field.extend_from_slice(&[0x01u8; 32]); // 32 pixels of CLUT index 1
        top_field.extend_from_slice(&[0x00, 0x00]); // end of string
        top_field.push(0xF0); // end of line
    }
    let mut bottom_field = Vec::new();
    for _ in 0..8 {
        bottom_field.push(0x12); // CodeString8Bit data_type
        bottom_field.extend_from_slice(&[0x01u8; 32]); // 32 pixels of CLUT index 1
        bottom_field.extend_from_slice(&[0x00, 0x00]); // end of string
        bottom_field.push(0xF0); // end of line
    }

    let mut obj_payload = Vec::new();
    obj_payload.extend_from_slice(&[0x00, 0x01, 0x00]); // object_id=1, version=0, coding=pixels
    obj_payload.extend_from_slice(&(top_field.len() as u16).to_be_bytes());
    obj_payload.extend_from_slice(&(bottom_field.len() as u16).to_be_bytes());
    obj_payload.extend_from_slice(&top_field);
    obj_payload.extend_from_slice(&bottom_field);

    let seg_len = obj_payload.len() as u16;
    buf.push(0x0F);
    buf.push(0x13); // object_data
    buf.extend_from_slice(&[0x00, 0x01]); // page_id=1
    buf.extend_from_slice(&seg_len.to_be_bytes());
    buf.extend_from_slice(&obj_payload);

    // Page composition: page_id=1, page_time_out=5, acquisition, region 1 at (10,20)
    // body: page_time_out(1) + flags(1) → [0x05, 0x1C] = time_out=5, version=1, acquisition
    // region entry: id=1, reserved=0, h_addr=10, v_addr=20
    buf.extend_from_slice(&[
        0x0F, 0x10, 0x00, 0x01, 0x00, 0x08, // header page_id=1, seg_len=8
        0x05, 0x14, // page_time_out=5, version=1|acquisition
        0x01, 0x00, // region_id=1, reserved=0
        0x00, 0x0A, // h_addr=10
        0x00, 0x14, // v_addr=20
    ]);

    // End of display set: page_id=1, seg_len=0
    buf.extend_from_slice(&[0x0F, 0x80, 0x00, 0x01, 0x00, 0x00]);
    buf.push(0xFF); // end marker
    buf
}

#[test]
fn composite_red_region() {
    let pid = 0x42;
    let start_pts = 900_000u64;

    let pes_bytes = build_minimal_display_pes();
    let field = PesDataField::parse(&pes_bytes).expect("must parse valid PES data field");

    let mut compositor = CompositorState::new();
    compositor.feed_pes(pid, Some(start_pts), &field);
    let cues = compositor.take_cues();

    assert_eq!(cues.len(), 1, "must produce one composited cue");
    let cue = &cues[0];
    assert_eq!(cue.pid, pid);
    assert_eq!(cue.start_pts, start_pts);
    assert_eq!(cue.end_pts, start_pts + 5 * 90_000);

    assert_eq!(cue.regions.len(), 1, "must have one region");
    let region = &cue.regions[0];
    assert_eq!(region.x, 10, "region screen x");
    assert_eq!(region.y, 20, "region screen y");
    assert_eq!(region.width, 32, "region width");
    assert_eq!(region.height, 16, "region height");
    assert_eq!(region.rgba.len(), 32 * 16 * 4, "RGBA buffer size");

    // Centre pixel must be opaque red
    let mid = (8 * 32 + 16) * 4;
    assert_eq!(
        &region.rgba[mid..mid + 4],
        &[254u8, 0, 1, 255],
        "centre pixel must be opaque red (BT.601 approx)"
    );

    // Top-left pixel must be opaque red
    assert_eq!(
        &region.rgba[0..4],
        &[254u8, 0, 1, 255],
        "top-left pixel must be opaque red (BT.601 approx)"
    );

    // Count red pixels — all 32x16 should be red
    let red_count = region
        .rgba
        .chunks_exact(4)
        .filter(|px| px[0] == 254 && px[1] == 0 && px[2] == 1 && px[3] == 255)
        .count();
    assert_eq!(red_count, 32 * 16, "all pixels must be red");
}

#[test]
fn bridge_subtitle_composite_red_region() {
    // Build a minimal DVB subtitle display set PES data field.
    // Contains DDS, CLUT (index 1 = near-red), region comp (32x16),
    // object data (all pixels = index 1), page comp (region at (10,20)),
    // and end-of-display-set.
    let mut pes_bytes = Vec::new();
    pes_bytes.extend_from_slice(&[0x20, 0x00]);
    // DDS
    pes_bytes.extend_from_slice(&[
        0x0F, 0x14, 0x00, 0x01, 0x00, 0x05, 0x10, 0x02, 0xCF, 0x01, 0x1F,
    ]);
    // CLUT: Y=76 Cr=255 Cb=86 T=255
    pes_bytes.extend_from_slice(&[
        0x0F, 0x12, 0x00, 0x01, 0x00, 0x08, 0x01, 0x10, 0x01, 0x21, 0x4C, 0xFF, 0x56, 0xFF,
    ]);
    // Region comp: id=1, 32x16, 8-bit, CLUT=1, obj 1 at (0,0)
    pes_bytes.extend_from_slice(&[
        0x0F, 0x11, 0x00, 0x01, 0x00, 0x10, 0x01, 0x10, 0x00, 0x20, 0x00, 0x10, 0xEC, 0x01, 0x00,
        0x00, 0x00, 0x01, 0x00, 0x00, 0x00, 0x00,
    ]);
    // Object data: interlaced, 8 top lines + 8 bottom lines of red pixels
    let mut top_field = Vec::new();
    for _ in 0..8 {
        top_field.push(0x12);
        top_field.extend_from_slice(&[0x01u8; 32]);
        top_field.extend_from_slice(&[0x00, 0x00]);
        top_field.push(0xF0);
    }
    let mut bottom_field = Vec::new();
    for _ in 0..8 {
        bottom_field.push(0x12);
        bottom_field.extend_from_slice(&[0x01u8; 32]);
        bottom_field.extend_from_slice(&[0x00, 0x00]);
        bottom_field.push(0xF0);
    }
    let mut obj_payload = Vec::new();
    obj_payload.extend_from_slice(&[0x00, 0x01, 0x00]);
    obj_payload.extend_from_slice(&(top_field.len() as u16).to_be_bytes());
    obj_payload.extend_from_slice(&(bottom_field.len() as u16).to_be_bytes());
    obj_payload.extend_from_slice(&top_field);
    obj_payload.extend_from_slice(&bottom_field);
    let seg_len = obj_payload.len() as u16;
    pes_bytes.push(0x0F);
    pes_bytes.push(0x13);
    pes_bytes.extend_from_slice(&[0x00, 0x01]);
    pes_bytes.extend_from_slice(&seg_len.to_be_bytes());
    pes_bytes.extend_from_slice(&obj_payload);
    // Page comp: region 1 at (10,20), page_time_out=5
    pes_bytes.extend_from_slice(&[
        0x0F, 0x10, 0x00, 0x01, 0x00, 0x08, 0x05, 0x14, 0x01, 0x00, 0x00, 0x0A, 0x00, 0x14,
    ]);
    // End of display set + end marker
    pes_bytes.extend_from_slice(&[0x0F, 0x80, 0x00, 0x01, 0x00, 0x00, 0xFF]);

    let field =
        PesDataField::parse(&pes_bytes).expect("must parse valid PES data field");

    let mut compositor = CompositorState::new();
    compositor.feed_pes(0x42, Some(900_000), &field);
    let cues = compositor.take_cues();

    assert_eq!(cues.len(), 1, "must produce one composited cue");
    let cue = &cues[0];
    assert_eq!(cue.pid, 0x42);
    assert_eq!(cue.start_pts, 900_000);
    assert_eq!(cue.end_pts, 900_000 + 5 * 90_000);

    assert_eq!(cue.regions.len(), 1, "must have one region");
    let region = &cue.regions[0];
    assert_eq!(region.x, 10, "region screen x");
    assert_eq!(region.y, 20, "region screen y");
    assert_eq!(region.width, 32, "region width");
    assert_eq!(region.height, 16, "region height");
    assert_eq!(region.rgba.len(), 32 * 16 * 4, "RGBA buffer size");

    // Centre pixel must be near-red (BT.601: Y=76 Cr=255 Cb=86)
    let mid = (8 * 32 + 16) * 4;
    assert_eq!(
        &region.rgba[mid..mid + 4],
        &[254u8, 0, 1, 255],
        "centre pixel must be near-red (BT.601)"
    );
}

#[test]
fn colours_match_the_conversion_in_floating_point() {
    for y in 0..=255u8 {
        for cr in 0..=255u8 {
            for cb in 0..=255u8 {
                let y_f = f64::from(y);
                let cr_f = f64::from(cr) - 128.0;
                let cb_f = f64::from(cb) - 128.0;
                let r = (y_f + 1.402_00 * cr_f).clamp(0.0, 255.0) as u8;
                let g = (y_f - 0.344_14 * cb_f - 0.714_14 * cr_f).clamp(0.0, 255.0) as u8;
                let b = (y_f + 1.772_00 * cb_f).clamp(0.0, 255.0) as u8;
                assert_eq!(ycrcb_to_rgba(y, cr, cb, 7), [r, g, b, 7], "{y} {cr} {cb}");
            }
        }
    }
}

/// Packs text of ones and zeros into bytes.
fn bits(text: &str) -> Vec<u8> {
    let digits: Vec<u8> = text.bytes().filter(|b| *b != b' ').map(|b| b - b'0').collect();
    digits
        .chunks(8)
        .map(|c| {
            let mut byte = 0;
            for i in 0..8 {
                byte = byte * 2 + c.get(i).copied().unwrap_or(0);
            }
            byte
        })
        .collect()
}

#[test]
fn two_bit_codes() {
    // Pixels 1 and 3, a run of 3+2 pixels of 2, one and two of 0, runs of
    // 12+1 and of 29+2, and the end.
    let data = bits("01 11 00 1 010 10 00 0 1 00 0 0 01 00 0 0 10 0001 01 00 0 0 11 00000010 11 00 0 0 00");
    let mut want = vec![1, 3, 2, 2, 2, 2, 2, 0, 0, 0];
    want.extend_from_slice(&[1; 13]);
    want.extend_from_slice(&[3; 31]);
    assert_eq!(expand_2bit(&data), want);
    assert!(expand_2bit(&[]).is_empty());
    assert!(expand_2bit(&data).iter().all(|p| *p < 4));
}

#[test]
fn four_bit_codes() {
    // A pixel 5, a run of 3+2 zeros, runs of 1+4, of one 0 and of two, of 2+9
    // and of 1+25, and the end.
    let data = bits("0101 0000 0 011 0000 1 0 01 1110 0000 1 1 00 0000 1 1 01 0000 1 1 10 0010 0111 0000 1 1 11 00000001 1001 0000 0 000");
    let mut want = vec![5, 0, 0, 0, 0, 0];
    want.extend_from_slice(&[14; 5]);
    want.extend_from_slice(&[0; 3]);
    want.extend_from_slice(&[7; 11]);
    want.extend_from_slice(&[9; 26]);
    assert_eq!(expand_4bit(&data), want);
    assert!(expand_4bit(&data).iter().all(|p| *p < 16));
    // The shortest run of zeros is three, and the longest nine.
    assert_eq!(expand_4bit(&[0x01, 0x00]), vec![0; 3]);
    assert_eq!(expand_4bit(&[0x07, 0x00]), vec![0; 9]);
}

#[test]
fn eight_bit_codes() {
    assert_eq!(expand_8bit(&[7, 9, 0, 0]), vec![7, 9]);
    assert_eq!(expand_8bit(&[0, 3, 5, 0, 0x82, 4, 0, 0, 1]), vec![0, 0, 0, 5, 4, 4]);
    assert_eq!(expand_8bit(&[0x00, 0x85, 0x07]), vec![7; 5]);
    assert_eq!(expand_8bit(&[0x00, 0xFF, 0x07]), vec![7; 127]);
    assert_eq!(expand_8bit(&[1, 2, 3]), vec![1, 2, 3]);
    assert_eq!(expand_8bit(&[1, 0]), vec![1, 0]);
    // A run without its colour ends the string.
    assert!(expand_8bit(&[0x00, 0x81]).is_empty());
    assert_eq!(expand_8bit(&[1, 0, 0x81]), vec![1]);
}

#[test]
fn cues_wait_for_the_end_of_the_display_set() {
    let pes = build_minimal_display_pes();
    // Without the end segment, nothing is shown.
    let mut open = pes[..pes.len() - 7].to_vec();
    open.push(0xFF);
    let field = PesDataField::parse(&open).unwrap();
    let mut compositor = CompositorState::new();
    assert!(compositor.feed_pes(1, None, &field));
    assert!(compositor.take_cues().is_empty());
    // The end comes in a PES packet of its own.
    let end = PesDataField::parse(&[0x20, 0, 0x0F, 0x80, 0, 1, 0, 0, 0xFF]).unwrap();
    assert!(compositor.feed_pes(1, Some(90_000), &end));
    let cues = compositor.take_cues();
    assert_eq!(cues.len(), 1);
    assert_eq!(cues[0].start_pts, 90_000);
    assert_eq!(cues[0].end_pts, 90_000 + 5 * 90_000);
    assert_eq!(cues[0].regions[0].rgba.len(), 32 * 16 * 4);
    // The next display set starts afresh.
    assert!(compositor.feed_pes(1, Some(180_000), &end));
    assert!(compositor.take_cues().is_empty());
}

#[test]
fn cleared_compositor_shows_nothing() {
    let field = PesDataField::parse(&build_minimal_display_pes()).unwrap();
    let mut compositor = CompositorState::new();
    assert!(compositor.feed_pes(1, Some(0), &field));
    compositor.clear();
    assert!(compositor.take_cues().is_empty());
}

#[test]
fn foreign_data_is_no_subtitle_field() {
    assert!(PesDataField::parse(&[0x21, 0, 0xFF]).is_none());
    assert!(PesDataField::parse(&[]).is_none());
}
