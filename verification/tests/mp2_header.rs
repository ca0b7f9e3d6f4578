//! MPEG audio frame headers.

use skyfire::ts::mp2_header::channels_from_header;

fn header(mode: u8) -> [u8; 4] {
    // sync(11)=all ones, version(2)=11 MPEG1, layer(2)=10 LayerII,
    // protection(1)=1, bitrate(4), sampling(2), padding(1), private(1),
    // mode(2) in the top bits of byte 3.
    [0xFF, 0xFD, 0x50, mode << 6]
}

#[test]
fn single_channel_mode_is_mono() {
    assert_eq!(channels_from_header(&header(0b11)), Some(1));
}

#[test]
fn stereo_joint_and_dual_are_two_channels() {
    assert_eq!(channels_from_header(&header(0b00)), Some(2)); // stereo
    assert_eq!(channels_from_header(&header(0b01)), Some(2)); // joint stereo
    assert_eq!(channels_from_header(&header(0b10)), Some(2)); // dual channel
}

#[test]
fn rejects_short_buffers_and_missing_sync() {
    assert_eq!(channels_from_header(&[]), None);
    assert_eq!(channels_from_header(&[0xFF, 0xFD, 0x50]), None);
    assert_eq!(channels_from_header(&[0x00, 0x00, 0x00, 0x00]), None);
}

#[test]
fn rejects_reserved_version() {
    // sync=111, version=01 (reserved), layer=10 (Layer II), protection=1.
    // Everything but `version` is otherwise a valid Layer II header.
    assert_eq!(channels_from_header(&[0xFF, 0xED, 0x50, 0x00]), None);
}

#[test]
fn rejects_non_layer_ii() {
    // sync=111, version=11 (MPEG1), layer=01 (Layer III, not II), protection=1.
    assert_eq!(channels_from_header(&[0xFF, 0xFB, 0x50, 0x00]), None);
}

#[test]
fn rejects_reserved_bitrate_index() {
    // buf[2] top nibble = 1111 (reserved "bad" bitrate index).
    assert_eq!(channels_from_header(&[0xFF, 0xFD, 0xF0, 0x00]), None);
}
