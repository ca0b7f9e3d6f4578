//! AC-3 and E-AC-3 frame headers.

use skyfire::ac3::header::channels_from_syncframe;

/// Build a base AC-3 syncframe header with the given acmod/lfeon.
/// Layout: syncword(16) crc1(16) fscod(2) frmsizecod(6) | bsid(5) bsmod(3) acmod(3) ... lfeon(1)
fn ac3_header(acmod: u8, lfeon: bool) -> Vec<u8> {
    let mut bits = String::new();
    bits.push_str("0000101101110111"); // syncword 0x0B77
    bits.push_str("0000000000000000"); // crc1
    bits.push_str("00"); // fscod = 48 kHz
    bits.push_str("000000"); // frmsizecod
    bits.push_str("01000"); // bsid = 8 -> base AC-3
    bits.push_str("000"); // bsmod
    bits.push_str(&format!("{acmod:03b}"));
    if acmod & 1 != 0 && acmod != 1 {
        bits.push_str("00"); // cmixlev
    }
    if acmod & 4 != 0 {
        bits.push_str("00"); // surmixlev
    }
    if acmod == 2 {
        bits.push_str("00"); // dsurmod
    }
    bits.push(if lfeon { '1' } else { '0' });
    while bits.len() % 8 != 0 {
        bits.push('0');
    }
    bits.as_bytes()
        .chunks(8)
        .map(|c| {
            c.iter()
                .fold(0u8, |acc, b| (acc << 1) | u8::from(*b == b'1'))
        })
        .collect()
}

/// E-AC-3: syncword(16) strmtyp(2) substreamid(3) frmsiz(11) fscod(2)
///         numblkscod(2) acmod(3) lfeon(1) bsid(5)
fn eac3_header(acmod: u8, lfeon: bool) -> Vec<u8> {
    let mut bits = String::new();
    bits.push_str("0000101101110111"); // syncword
    bits.push_str("00"); // strmtyp = 0
    bits.push_str("000"); // substreamid
    bits.push_str("00000000000"); // frmsiz
    bits.push_str("00"); // fscod = 48 kHz (!= 3)
    bits.push_str("11"); // numblkscod = 6 blocks
    bits.push_str(&format!("{acmod:03b}"));
    bits.push(if lfeon { '1' } else { '0' });
    bits.push_str("10000"); // bsid = 16 -> E-AC-3
    while bits.len() % 8 != 0 {
        bits.push('0');
    }
    bits.as_bytes()
        .chunks(8)
        .map(|c| {
            c.iter()
                .fold(0u8, |acc, b| (acc << 1) | u8::from(*b == b'1'))
        })
        .collect()
}

#[test]
fn ac3_acmod_table_matches_spec_table_5_8() {
    // ETSI TS 102 366 Table 5.8: acmod -> channel count, before LFE.
    for (acmod, want) in [
        (0u8, 2u8),
        (1, 1),
        (2, 2),
        (3, 3),
        (4, 3),
        (5, 4),
        (6, 4),
        (7, 5),
    ] {
        assert_eq!(
            channels_from_syncframe(&ac3_header(acmod, false)),
            Some(want),
            "acmod {acmod}"
        );
    }
}

#[test]
fn ac3_lfe_adds_one_channel() {
    // acmod 7 + lfeon = 3/2.1 = 5.1 = 6 channels.
    assert_eq!(channels_from_syncframe(&ac3_header(7, true)), Some(6));
    assert_eq!(channels_from_syncframe(&ac3_header(2, true)), Some(3));
}

#[test]
fn eac3_acmod_and_lfe_parse_at_annex_e_offsets() {
    assert_eq!(channels_from_syncframe(&eac3_header(2, false)), Some(2));
    assert_eq!(channels_from_syncframe(&eac3_header(7, true)), Some(6));
}

#[test]
fn rejects_non_syncframe_and_short_buffers() {
    assert_eq!(channels_from_syncframe(&[]), None);
    assert_eq!(channels_from_syncframe(&[0x0B, 0x77]), None);
    assert_eq!(channels_from_syncframe(&[0xFF; 16]), None);
}
