//! Names and answers of the server.

use std::sync::Arc;

use skyfire::server::catalog::{slug_of, slugs};
use skyfire::server::reply::{is_segment_name, playlist_reply, segment_reply};
use skyfire::server::Reply;

fn names(list: &[&str]) -> Vec<String> {
    list.iter().map(|s| s.to_string()).collect()
}

#[test]
fn slug_is_the_name_before_the_extension() {
    assert_eq!(slug_of("france2-8s.ts").as_deref(), Some("france2-8s"));
    assert_eq!(slug_of("a.b.ts").as_deref(), Some("a.b"));
    assert_eq!(slug_of("été.ts").as_deref(), Some("été"));
    assert_eq!(slug_of(".ts"), None);
    assert_eq!(slug_of("ts"), None);
    assert_eq!(slug_of("a.TS"), None);
    assert_eq!(slug_of("a.ts.gz"), None);
    assert_eq!(slug_of(""), None);
}

#[test]
fn slugs_are_sorted_and_complete() {
    let got = slugs(&names(&["b.ts", "readme.md", "a.ts", "é.ts", "B.ts", "a.ts", "ab.ts"]));
    assert_eq!(got, names(&["B", "a", "a", "ab", "b", "é"]));
    assert!(slugs(&Vec::new()).is_empty());
}

#[test]
fn segment_names_are_plain() {
    assert!(is_segment_name("seg0.ts"));
    assert!(is_segment_name(""));
    assert!(is_segment_name("a.b.c"));
    assert!(is_segment_name("a."));
    assert!(!is_segment_name("../seg0.ts"));
    assert!(!is_segment_name("a/b.ts"));
    assert!(!is_segment_name("a..b"));
    assert!(!is_segment_name("a.."));
}

#[test]
fn playlist_replies() {
    let ok = playlist_reply(Some("text".to_string()), true);
    assert_eq!(ok.status(), 200);
    assert_eq!(
        ok.headers(),
        Some(("application/vnd.apple.mpegurl", "no-cache, no-store"))
    );
    assert_eq!(ok.message(), None);
    let wait = playlist_reply(Some("text".to_string()), false);
    assert_eq!(wait.status(), 503);
    assert_eq!(wait.message(), Some("not ready"));
    assert_eq!(wait.headers(), None);
    let none = playlist_reply(None, false);
    assert_eq!(none.status(), 404);
    assert_eq!(none.message(), Some("unknown stream"));
}

#[test]
fn segment_replies() {
    let found = segment_reply(Some(Arc::new(vec![0x47])));
    assert_eq!(found.status(), 200);
    assert_eq!(found.headers(), Some(("video/mp2t", "max-age=30")));
    match found {
        Reply::Segment(bytes) => assert_eq!(*bytes, vec![0x47]),
        _ => panic!("found"),
    }
    assert_eq!(segment_reply(None).status(), 404);
}
