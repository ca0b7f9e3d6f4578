//! The crate as a whole.

use skyfire::engine::version;

#[test]
fn version_nonempty() {
    assert!(!version().is_empty());
}

#[test]
fn reexports_present() {
    assert_eq!(skyfire::ts::TS_PACKET_LEN, 188);
    assert_eq!(skyfire::ac3::AC3_SYNCWORD, 0x0B77);
}
