//! What a request is answered.

use std::sync::Arc;
use vstd::prelude::*;
use vstd::string::StrSliceExecFns;

verus! {

/// The answer to a request.
pub enum Reply {
    /// A playlist.
    Playlist(String),
    /// A segment.
    Segment(Arc<Vec<u8>>),
    /// The stream has no segment yet.
    NotReady,
    /// There is no such stream.
    UnknownStream,
    /// The name could not be that of a segment.
    BadSegmentName,
    /// The stream has no such segment.
    NoSuchSegment,
}

impl Reply {
    /// The HTTP status code.
    pub fn status(&self) -> (code: u16)
        ensures
            code == (match *self {
                Reply::Playlist(_) | Reply::Segment(_) => 200u16,
                Reply::NotReady => 503,
                Reply::UnknownStream | Reply::NoSuchSegment => 404,
                Reply::BadSegmentName => 400,
            }),
    {
        match self {
            Reply::Playlist(_) | Reply::Segment(_) => 200,
            Reply::NotReady => 503,
            Reply::UnknownStream | Reply::NoSuchSegment => 404,
            Reply::BadSegmentName => 400,
        }
    }

    /// The content type and the caching rule of a successful answer.
    pub fn headers(&self) -> (headers: Option<(&'static str, &'static str)>)
        ensures
            match (*self, headers) {
                (Reply::Playlist(_), Some((content, cache))) => content@
                    == "application/vnd.apple.mpegurl"@ && cache@ == "no-cache, no-store"@,
                (Reply::Segment(_), Some((content, cache))) => content@ == "video/mp2t"@ && cache@
                    == "max-age=30"@,
                (Reply::Playlist(_), None) | (Reply::Segment(_), None) => false,
                (_, None) => true,
                (_, Some(_)) => false,
            },
    {
        match self {
            Reply::Playlist(_) => Some(("application/vnd.apple.mpegurl", "no-cache, no-store")),
            Reply::Segment(_) => Some(("video/mp2t", "max-age=30")),
            _ => None,
        }
    }

    /// The text of an answer that refuses.
    pub fn message(&self) -> (text: Option<&'static str>)
        ensures
            match (*self, text) {
                (Reply::NotReady, Some(t)) => t@ == "not ready"@,
                (Reply::UnknownStream, Some(t)) => t@ == "unknown stream"@,
                (Reply::BadSegmentName, Some(t)) => t@ == "bad segment name"@,
                (Reply::NoSuchSegment, Some(t)) => t@ == "no such segment"@,
                (Reply::Playlist(_), None) | (Reply::Segment(_), None) => true,
                _ => false,
            },
    {
        match self {
            Reply::NotReady => Some("not ready"),
            Reply::UnknownStream => Some("unknown stream"),
            Reply::BadSegmentName => Some("bad segment name"),
            Reply::NoSuchSegment => Some("no such segment"),
            _ => None,
        }
    }
}

/// Whether a text can be the name of a segment: it holds no slash and no two
/// dots in a row.
pub open spec fn is_plain_name(name: Seq<char>) -> bool {
    &&& !name.contains('/')
    &&& forall|i: int| 0 <= i < name.len() - 1 ==> !(#[trigger] name[i] == '.' && name[i + 1] == '.')
}

/// Check that a text can be the name of a segment.
pub fn is_segment_name(name: &str) -> (plain: bool)
    ensures
        plain == is_plain_name(name@),
{
    let n: usize = name.unicode_len();
    let mut i: usize = 0;
    while i < n
        invariant
            n == name@.len(),
            i <= n,
            forall|j: int| 0 <= j < i ==> #[trigger] name@[j] != '/',
            forall|j: int|
                0 <= j < i && j < n - 1 ==> !(#[trigger] name@[j] == '.' && name@[j + 1] == '.'),
        decreases n - i,
    {
        let c: char = name.get_char(i);
        if c == '/' {
            assert(name@.contains('/')) by {
                assert(name@[i as int] == '/');
            }
            return false;
        }
        if c == '.' && i + 1 < n {
            let d: char = name.get_char(i + 1);
            if d == '.' {
                assert(name@[i as int] == '.' && name@[i + 1] == '.');
                return false;
            }
        }
        i = i + 1;
    }
    true
}

/// The answer to a request for a playlist.
pub fn playlist_reply(playlist: Option<String>, ready: bool) -> (reply: Reply)
    ensures
        match (playlist, reply) {
            (Some(text), Reply::Playlist(sent)) => ready && sent == text,
            (Some(_), Reply::NotReady) => !ready,
            (None, Reply::UnknownStream) => true,
            _ => false,
        },
{
    match playlist {
        Some(text) => if ready {
            Reply::Playlist(text)
        } else {
            Reply::NotReady
        },
        None => Reply::UnknownStream,
    }
}

/// The answer to a request for a segment that was looked up.
pub fn segment_reply(found: Option<Arc<Vec<u8>>>) -> (reply: Reply)
    ensures
        match (found, reply) {
            (Some(bytes), Reply::Segment(sent)) => sent == bytes,
            (None, Reply::NoSuchSegment) => true,
            _ => false,
        },
{
    match found {
        Some(bytes) => Reply::Segment(bytes),
        None => Reply::NoSuchSegment,
    }
}

} // verus!
