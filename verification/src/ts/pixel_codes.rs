//! Run-length pixel codes of DVB subtitle objects (EN 300 743 §7.2.5).

use vstd::arithmetic::power2::lemma2_to64;
use vstd::prelude::*;
use crate::bits::{field, has_bits, lemma_field_range, BitCursor};

verus! {

/// `count` pixels of one colour, and where the next code starts.
pub struct Run {
    pub count: int,
    pub colour: int,
    pub next: int,
}

/// `count` times the same pixel.
pub open spec fn repeated(count: int, colour: int) -> Seq<u8> {
    Seq::new(count as nat, |i: int| colour as u8)
}

/// The run coded at bit `p` of a 2-bit/pixel code string (Tables 22-23), or
/// `None` at its end: at the end-of-string code, or where the data stops
/// within a code.
pub open spec fn run_2bit(d: Seq<u8>, p: int) -> Option<Run> {
    if !has_bits(d, p, 2) {
        None
    } else if field(d, p, 2) != 0 {
        Some(Run { count: 1, colour: field(d, p, 2), next: p + 2 })
    } else if !has_bits(d, p, 3) {
        None
    } else if field(d, p + 2, 1) == 1 {
        if has_bits(d, p, 8) {
            Some(Run { count: field(d, p + 3, 3) + 3, colour: field(d, p + 6, 2), next: p + 8 })
        } else {
            None
        }
    } else if !has_bits(d, p, 4) {
        None
    } else if field(d, p + 3, 1) == 1 {
        Some(Run { count: 1, colour: 0, next: p + 4 })
    } else if !has_bits(d, p, 6) || field(d, p + 4, 2) == 0 {
        None
    } else if field(d, p + 4, 2) == 1 {
        Some(Run { count: 2, colour: 0, next: p + 6 })
    } else if field(d, p + 4, 2) == 2 {
        if has_bits(d, p, 12) {
            Some(Run { count: field(d, p + 6, 4) + 12, colour: field(d, p + 10, 2), next: p + 12 })
        } else {
            None
        }
    } else {
        if has_bits(d, p, 16) {
            Some(Run { count: field(d, p + 6, 8) + 29, colour: field(d, p + 14, 2), next: p + 16 })
        } else {
            None
        }
    }
}

/// The run coded at bit `p` of a 4-bit/pixel code string (Tables 24-25), or
/// `None` at its end.
pub open spec fn run_4bit(d: Seq<u8>, p: int) -> Option<Run> {
    if !has_bits(d, p, 4) {
        None
    } else if field(d, p, 4) != 0 {
        Some(Run { count: 1, colour: field(d, p, 4), next: p + 4 })
    } else if !has_bits(d, p, 5) {
        None
    } else if field(d, p + 4, 1) == 0 {
        if has_bits(d, p, 8) && field(d, p + 5, 3) != 0 {
            Some(Run { count: field(d, p + 5, 3) + 2, colour: 0, next: p + 8 })
        } else {
            None
        }
    } else if !has_bits(d, p, 6) {
        None
    } else if field(d, p + 5, 1) == 0 {
        if has_bits(d, p, 12) {
            Some(Run { count: field(d, p + 6, 2) + 4, colour: field(d, p + 8, 4), next: p + 12 })
        } else {
            None
        }
    } else if !has_bits(d, p, 8) {
        None
    } else if field(d, p + 6, 2) < 2 {
        Some(Run { count: field(d, p + 6, 2) + 1, colour: 0, next: p + 8 })
    } else if field(d, p + 6, 2) == 2 {
        if has_bits(d, p, 16) {
            Some(Run { count: field(d, p + 8, 4) + 9, colour: field(d, p + 12, 4), next: p + 16 })
        } else {
            None
        }
    } else {
        if has_bits(d, p, 20) {
            Some(Run { count: field(d, p + 8, 8) + 25, colour: field(d, p + 16, 4), next: p + 20 })
        } else {
            None
        }
    }
}

/// The pixels of a 2-bit/pixel code string from bit `p` on.
pub open spec fn pixels_2bit(d: Seq<u8>, p: int) -> Seq<u8>
    decreases d.len() * 8 - p,
{
    match run_2bit(d, p) {
        Some(run) => repeated(run.count, run.colour) + pixels_2bit(d, run.next),
        None => Seq::empty(),
    }
}

/// The pixels of a 4-bit/pixel code string from bit `p` on.
pub open spec fn pixels_4bit(d: Seq<u8>, p: int) -> Seq<u8>
    decreases d.len() * 8 - p,
{
    match run_4bit(d, p) {
        Some(run) => repeated(run.count, run.colour) + pixels_4bit(d, run.next),
        None => Seq::empty(),
    }
}

/// The run coded at byte `p` of an 8-bit/pixel code string (Table 26), or
/// `None` at its end: at the end-of-string code, or where the data stops
/// before the colour of a run. A zero as the last byte is one pixel of
/// colour 0.
pub open spec fn run_8bit(d: Seq<u8>, p: int) -> Option<Run> {
    if p >= d.len() {
        None
    } else if d[p] != 0 {
        Some(Run { count: 1, colour: d[p] as int, next: p + 1 })
    } else if p + 1 >= d.len() {
        Some(Run { count: 1, colour: 0, next: p + 1 })
    } else if d[p + 1] == 0 {
        None
    } else if d[p + 1] < 0x80 {
        Some(Run { count: d[p + 1] as int, colour: 0, next: p + 2 })
    } else if p + 2 < d.len() {
        Some(Run { count: d[p + 1] - 0x80, colour: d[p + 2] as int, next: p + 3 })
    } else {
        None
    }
}

/// The pixels of an 8-bit/pixel code string from byte `p` on.
pub open spec fn pixels_8bit(d: Seq<u8>, p: int) -> Seq<u8>
    decreases d.len() - p,
{
    match run_8bit(d, p) {
        Some(run) => repeated(run.count, run.colour) + pixels_8bit(d, run.next),
        None => Seq::empty(),
    }
}

/// A run as it is painted.
pub struct PixelRun {
    pub count: usize,
    pub colour: u8,
}

/// Whether an optional run read from a string is the one coded there.
pub open spec fn run_agrees(got: Option<PixelRun>, coded: Option<Run>, at: int) -> bool {
    match got {
        Some(run) => coded == Some(
            Run { count: run.count as int, colour: run.colour as int, next: at },
        ),
        None => coded is None,
    }
}

fn push_run(out: &mut Vec<u8>, count: usize, colour: u8)
    ensures
        final(out)@ == old(out)@ + repeated(count as int, colour as int),
{
    let mut i: usize = 0;
    while i < count
        invariant
            i <= count,
            out@ == old(out)@ + repeated(i as int, colour as int),
        decreases count - i,
    {
        out.push(colour);
        i = i + 1;
        assert(out@ =~= old(out)@ + repeated(i as int, colour as int));
    }
}

/// Reads the next run of a 2-bit/pixel code string.
fn next_2bit(data: &[u8], at: &mut BitCursor) -> (run: Option<PixelRun>)
    requires
        old(at).wf(data@),
    ensures
        run_agrees(run, run_2bit(data@, old(at).pos()), final(at).pos()),
        run is Some ==> final(at).wf(data@),
{
    let ghost p = at.pos();
    let b2: u8 = at.read(data, 2)?;
    if b2 != 0 {
        return Some(PixelRun { count: 1, colour: b2 });
    }
    let s1: u8 = at.read(data, 1)?;
    if s1 == 1 {
        let length: u8 = at.read(data, 3)?;
        let colour: u8 = at.read(data, 2)?;
        return Some(PixelRun { count: length as usize + 3, colour });
    }
    let s2: u8 = at.read(data, 1)?;
    if s2 == 1 {
        return Some(PixelRun { count: 1, colour: 0 });
    }
    let s3: u8 = at.read(data, 2)?;
    proof {
        lemma_field_range(data@, p + 2, 1);
        lemma_field_range(data@, p + 3, 1);
        lemma_field_range(data@, p + 4, 2);
        lemma2_to64();
    }
    if s3 == 0 {
        None
    } else if s3 == 1 {
        Some(PixelRun { count: 2, colour: 0 })
    } else if s3 == 2 {
        let length: u8 = at.read(data, 4)?;
        let colour: u8 = at.read(data, 2)?;
        Some(PixelRun { count: length as usize + 12, colour })
    } else {
        let length: u8 = at.read(data, 8)?;
        let colour: u8 = at.read(data, 2)?;
        Some(PixelRun { count: length as usize + 29, colour })
    }
}

/// Reads the next run of a 4-bit/pixel code string.
fn next_4bit(data: &[u8], at: &mut BitCursor) -> (run: Option<PixelRun>)
    requires
        old(at).wf(data@),
    ensures
        run_agrees(run, run_4bit(data@, old(at).pos()), final(at).pos()),
        run is Some ==> final(at).wf(data@),
{
    let ghost p = at.pos();
    let b4: u8 = at.read(data, 4)?;
    if b4 != 0 {
        return Some(PixelRun { count: 1, colour: b4 });
    }
    let s1: u8 = at.read(data, 1)?;
    if s1 == 0 {
        let length: u8 = at.read(data, 3)?;
        if length == 0 {
            return None;
        }
        return Some(PixelRun { count: length as usize + 2, colour: 0 });
    }
    let s2: u8 = at.read(data, 1)?;
    if s2 == 0 {
        let length: u8 = at.read(data, 2)?;
        let colour: u8 = at.read(data, 4)?;
        return Some(PixelRun { count: length as usize + 4, colour });
    }
    let s3: u8 = at.read(data, 2)?;
    if s3 < 2 {
        Some(PixelRun { count: s3 as usize + 1, colour: 0 })
    } else if s3 == 2 {
        let length: u8 = at.read(data, 4)?;
        let colour: u8 = at.read(data, 4)?;
        Some(PixelRun { count: length as usize + 9, colour })
    } else {
        let length: u8 = at.read(data, 8)?;
        let colour: u8 = at.read(data, 4)?;
        Some(PixelRun { count: length as usize + 25, colour })
    }
}

/// Expand a 2-bit/pixel code string to per-pixel CLUT indices.
///
/// EN 300 743 §7.2.5.5, Tables 22-23.
pub fn expand_2bit(data: &[u8]) -> (out: Vec<u8>)
    ensures
        out@ == pixels_2bit(data@, 0),
{
    let mut out: Vec<u8> = Vec::new();
    let mut at: BitCursor = BitCursor::start();
    loop
        invariant
            at.wf(data@),
            out@ + pixels_2bit(data@, at.pos()) == pixels_2bit(data@, 0),
        decreases data@.len() * 8 - at.pos(),
    {
        let ghost before = out@;
        let ghost p = at.pos();
        match next_2bit(data, &mut at) {
            Some(run) => {
                push_run(&mut out, run.count, run.colour);
                assert(out@ + pixels_2bit(data@, at.pos()) =~= before + pixels_2bit(data@, p));
            },
            None => {
                assert(out@ + pixels_2bit(data@, p) =~= out@);
                return out;
            },
        }
    }
}

/// Expand a 4-bit/pixel code string to per-pixel CLUT indices.
///
/// EN 300 743 §7.2.5.5, Tables 24-25.
pub fn expand_4bit(data: &[u8]) -> (out: Vec<u8>)
    ensures
        out@ == pixels_4bit(data@, 0),
{
    let mut out: Vec<u8> = Vec::new();
    let mut at: BitCursor = BitCursor::start();
    loop
        invariant
            at.wf(data@),
            out@ + pixels_4bit(data@, at.pos()) == pixels_4bit(data@, 0),
        decreases data@.len() * 8 - at.pos(),
    {
        let ghost before = out@;
        let ghost p = at.pos();
        match next_4bit(data, &mut at) {
            Some(run) => {
                push_run(&mut out, run.count, run.colour);
                assert(out@ + pixels_4bit(data@, at.pos()) =~= before + pixels_4bit(data@, p));
            },
            None => {
                assert(out@ + pixels_4bit(data@, p) =~= out@);
                return out;
            },
        }
    }
}

/// Expand an 8-bit/pixel code string to per-pixel CLUT indices.
///
/// EN 300 743 §7.2.5.5, Table 26.
pub fn expand_8bit(data: &[u8]) -> (out: Vec<u8>)
    ensures
        out@ == pixels_8bit(data@, 0),
{
    let mut out: Vec<u8> = Vec::new();
    let mut pos: usize = 0;
    while pos < data.len()
        invariant
            pos <= data@.len(),
            out@ + pixels_8bit(data@, pos as int) == pixels_8bit(data@, 0),
        decreases data@.len() - pos,
    {
        let ghost before = out@;
        let ghost p = pos as int;
        let b: u8 = data[pos];
        if b != 0 {
            out.push(b);
            pos = pos + 1;
            assert(out@ =~= before + repeated(1, b as int));
        } else if data.len() - pos < 2 {
            out.push(b);
            pos = pos + 1;
            assert(out@ =~= before + repeated(1, 0));
        } else {
            let next: u8 = data[pos + 1];
            if next == 0 || (next >= 0x80 && data.len() - pos == 2) {
                assert(out@ + Seq::<u8>::empty() =~= out@);
                return out;
            }
            if next < 0x80 {
                push_run(&mut out, next as usize, 0);
                pos = pos + 2;
            } else {
                push_run(&mut out, (next - 0x80) as usize, data[pos + 2]);
                pos = pos + 3;
            }
        }
        proof {
            let rest = pixels_8bit(data@, pos as int);
            assert(out@ + rest =~= before + pixels_8bit(data@, p));
        }
    }
    assert(out@ + Seq::<u8>::empty() =~= out@);
    out
}

/// Pixels of a 2-bit/pixel code string index a palette of four entries.
pub proof fn pixels_2bit_fit(d: Seq<u8>, p: int, i: int)
    requires
        0 <= p,
        0 <= i < pixels_2bit(d, p).len(),
    ensures
        pixels_2bit(d, p)[i] < 4,
    decreases d.len() * 8 - p,
{
    if let Some(run) = run_2bit(d, p) {
        lemma2_to64();
        lemma_field_range(d, p, 2);
        lemma_field_range(d, p + 3, 3);
        lemma_field_range(d, p + 6, 2);
        lemma_field_range(d, p + 6, 4);
        lemma_field_range(d, p + 6, 8);
        lemma_field_range(d, p + 10, 2);
        lemma_field_range(d, p + 14, 2);
        if i >= run.count {
            pixels_2bit_fit(d, run.next, i - run.count);
        }
    }
}

/// Pixels of a 4-bit/pixel code string index a palette of sixteen entries.
pub proof fn pixels_4bit_fit(d: Seq<u8>, p: int, i: int)
    requires
        0 <= p,
        0 <= i < pixels_4bit(d, p).len(),
    ensures
        pixels_4bit(d, p)[i] < 16,
    decreases d.len() * 8 - p,
{
    if let Some(run) = run_4bit(d, p) {
        lemma2_to64();
        lemma_field_range(d, p, 4);
        lemma_field_range(d, p + 5, 3);
        lemma_field_range(d, p + 6, 2);
        lemma_field_range(d, p + 8, 4);
        lemma_field_range(d, p + 8, 8);
        lemma_field_range(d, p + 12, 4);
        lemma_field_range(d, p + 16, 4);
        if i >= run.count {
            pixels_4bit_fit(d, run.next, i - run.count);
        }
    }
}

/// Bytes without a zero stand for themselves in an 8-bit/pixel code string.
pub proof fn plain_bytes_are_pixels(d: Seq<u8>, p: int)
    requires
        0 <= p <= d.len(),
        forall|i: int| p <= i < d.len() ==> #[trigger] d[i] != 0,
    ensures
        pixels_8bit(d, p) == d.skip(p),
    decreases d.len() - p,
{
    if p < d.len() {
        assert(d[p] != 0);
        plain_bytes_are_pixels(d, p + 1);
        assert(repeated(1, d[p] as int) + d.skip(p + 1) =~= d.skip(p));
    } else {
        assert(d.skip(p) =~= Seq::empty());
    }
}

} // verus!
