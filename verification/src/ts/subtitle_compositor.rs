//! DVB subtitle compositor: ETSI EN 300 743 display sets to RGBA bitmaps.
//!
//! Keeps state across PES packets for a selected subtitle PID. Segments are
//! collected per display set, then the CLUT palette and the object pixels are
//! composed into one RGBA buffer per region, placed on the display page.

use std::collections::HashMap;
use vstd::prelude::*;
use crate::ts::pixel_codes::{
    expand_2bit, expand_4bit, expand_8bit, pixels_2bit, pixels_4bit, pixels_8bit,
};
use crate::ts::segments::{
    block_views, clut_entries, inflate, object_payload, page_regions, parse_clut, parse_object,
    parse_page, parse_region, region_definition, segment_views, zlib_inflated, ClutEntry, DataType,
    ObjectDataPayload, PageRegion, PayloadView, PesDataField, PixelDataSubBlock, RegionDefinition,
    RegionObject, RegionView, Segment, SegmentView, SubBlockView,
};

verus! {

broadcast use vstd::std_specs::hash::group_hash_axioms;

// ---------------------------------------------------------------------------
// Colours
// ---------------------------------------------------------------------------

/// `num / den` rounded down and limited to a byte.
pub open spec fn byte_of(num: int, den: int) -> int {
    if num < 0 {
        0
    } else if num / den > 255 {
        255
    } else {
        num / den
    }
}

/// The RGBA bytes of a BT.601 full-range colour.
///
/// Green is evaluated as in double precision: of all chroma pairs, `cr = 228`
/// with `cb = 28` is the one off-centre pair whose exact green lies on a whole
/// number with a rounded value just below it, for luma 94 to 165.
pub open spec fn rgba_of(y: int, cr: int, cb: int, t: int) -> Seq<u8> {
    let green = byte_of(y * 100_000 - 34_414 * (cb - 128) - 71_414 * (cr - 128), 100_000);
    let rounded_below = cr == 228 && cb == 28 && 94 <= y <= 165;
    seq![
        byte_of(y * 1000 + 1402 * (cr - 128), 1000) as u8,
        (if rounded_below {
            green - 1
        } else {
            green
        }) as u8,
        byte_of(y * 1000 + 1772 * (cb - 128), 1000) as u8,
        t as u8,
    ]
}

fn clamp_byte(num: i32, den: i32) -> (v: u8)
    requires
        den > 0,
    ensures
        v == byte_of(num as int, den as int),
{
    if num < 0 {
        0
    } else {
        let q: i32 = num / den;
        if q > 255 {
            255
        } else {
            proof {
                assert(0 <= num as int / den as int) by (nonlinear_arith)
                    requires
                        num >= 0,
                        den > 0,
                ;
            }
            q as u8
        }
    }
}

/// Convert a single Y/Cr/Cb/T (CLUT entry) to RGBA via BT.601.
pub fn ycrcb_to_rgba(y: u8, cr: u8, cb: u8, t: u8) -> (rgba: [u8; 4])
    ensures
        rgba@ == rgba_of(y as int, cr as int, cb as int, t as int),
{
    let y_i: i32 = y as i32;
    let cr_i: i32 = cr as i32 - 128;
    let cb_i: i32 = cb as i32 - 128;
    let r: u8 = clamp_byte(y_i * 1000 + 1402 * cr_i, 1000);
    let g: u8 = clamp_byte(y_i * 100_000 - 34_414 * cb_i - 71_414 * cr_i, 100_000);
    let b: u8 = clamp_byte(y_i * 1000 + 1772 * cb_i, 1000);
    let g: u8 = if cr == 228 && cb == 28 && 94 <= y && y <= 165 {
        g - 1
    } else {
        g
    };
    let rgba = [r, g, b, t];
    assert(rgba@ =~= rgba_of(y as int, cr as int, cb as int, t as int));
    rgba
}

/// Number of palette entries.
pub const PALETTE_LEN: usize = 256;

/// The colour of palette index `i`: that of the last entry for it, or fully
/// transparent black.
pub open spec fn palette_colour(entries: Seq<ClutEntry>, i: int) -> Seq<u8>
    decreases entries.len(),
{
    if entries.len() == 0 {
        seq![0u8, 0u8, 0u8, 0u8]
    } else {
        let e = entries.last();
        if e.id == i {
            rgba_of(e.y as int, e.cr as int, e.cb as int, e.t as int)
        } else {
            palette_colour(entries.drop_last(), i)
        }
    }
}

/// The palette that a list of CLUT entries makes.
pub open spec fn palette_of(entries: Seq<ClutEntry>) -> Seq<Seq<u8>> {
    Seq::new(PALETTE_LEN as nat, |i: int| palette_colour(entries, i))
}

/// The palette as rows of bytes.
pub open spec fn palette_view(palette: Seq<[u8; 4]>) -> Seq<Seq<u8>> {
    Seq::new(palette.len(), |i: int| palette[i]@)
}

/// Build the 256-entry RGBA palette of a CLUT.
pub fn build_palette(entries: &Vec<ClutEntry>) -> (palette: Vec<[u8; 4]>)
    ensures
        palette@.len() == PALETTE_LEN,
        palette_view(palette@) == palette_of(entries@),
{
    let mut palette: Vec<[u8; 4]> = Vec::new();
    let mut i: usize = 0;
    while i < PALETTE_LEN
        invariant
            i <= PALETTE_LEN,
            palette@.len() == i,
            forall|k: int| 0 <= k < i ==> (#[trigger] palette@[k])@ == seq![0u8, 0u8, 0u8, 0u8],
        decreases PALETTE_LEN - i,
    {
        let blank: [u8; 4] = [0, 0, 0, 0];
        assert(blank@ =~= seq![0u8, 0u8, 0u8, 0u8]);
        palette.push(blank);
        i = i + 1;
    }
    let mut n: usize = 0;
    while n < entries.len()
        invariant
            n <= entries@.len(),
            palette@.len() == PALETTE_LEN,
            forall|k: int|
                0 <= k < PALETTE_LEN ==> (#[trigger] palette@[k])@ == palette_colour(
                    entries@.take(n as int),
                    k,
                ),
        decreases entries@.len() - n,
    {
        let e: ClutEntry = entries[n];
        let colour: [u8; 4] = ycrcb_to_rgba(e.y, e.cr, e.cb, e.t);
        assert(entries@.take(n + 1).drop_last() =~= entries@.take(n as int));
        assert(entries@.take(n + 1).last() == e);
        palette.set(e.id as usize, colour);
        n = n + 1;
    }
    assert(entries@.take(n as int) =~= entries@);
    assert(palette_view(palette@) =~= palette_of(entries@));
    palette
}

// ---------------------------------------------------------------------------
// Object bitmaps
// ---------------------------------------------------------------------------

/// The result of a step of composition.
pub enum Outcome<T> {
    /// The step succeeded.
    Done(T),
    /// Something that the step needs is missing or malformed.
    Missing,
    /// What the step would make does not fit in memory.
    TooLarge,
}

/// The pixels of a sub-block.
pub open spec fn block_pixels(block: SubBlockView) -> Seq<u8> {
    match block.data_type {
        DataType::CodeString2Bit => pixels_2bit(block.data, 0),
        DataType::CodeString4Bit => pixels_4bit(block.data, 0),
        DataType::CodeString8Bit => pixels_8bit(block.data, 0),
        _ => Seq::empty(),
    }
}

/// Expand a pixel sub-block to per-pixel CLUT indices.
fn expand_sub_block(block: &PixelDataSubBlock) -> (pixels: Vec<u8>)
    ensures
        pixels@ == block_pixels(block.view()),
{
    match block.data_type {
        DataType::CodeString2Bit => expand_2bit(block.data.as_slice()),
        DataType::CodeString4Bit => expand_4bit(block.data.as_slice()),
        DataType::CodeString8Bit => expand_8bit(block.data.as_slice()),
        _ => Vec::new(),
    }
}

/// All pixels of a field, row after row.
pub open spec fn field_pixels(blocks: Seq<SubBlockView>) -> Seq<u8>
    decreases blocks.len(),
{
    if blocks.len() == 0 {
        Seq::empty()
    } else {
        field_pixels(blocks.drop_last()) + block_pixels(blocks.last())
    }
}

/// The pixels since the last end-of-line marker.
pub open spec fn open_row(blocks: Seq<SubBlockView>) -> int
    decreases blocks.len(),
{
    if blocks.len() == 0 || blocks.last().data_type == DataType::EndOfLine {
        0
    } else {
        open_row(blocks.drop_last()) + block_pixels(blocks.last()).len()
    }
}

/// The length of the first row that an end-of-line marker closed and that is
/// not empty.
pub open spec fn first_row(blocks: Seq<SubBlockView>) -> Option<int>
    decreases blocks.len(),
{
    if blocks.len() == 0 {
        None
    } else {
        match first_row(blocks.drop_last()) {
            Some(width) => Some(width),
            None => if blocks.last().data_type == DataType::EndOfLine && open_row(
                blocks.drop_last(),
            ) > 0 {
                Some(open_row(blocks.drop_last()))
            } else {
                None
            },
        }
    }
}

/// The row width of a field: the length of its first non-empty row, where the
/// end of the field closes a row too.
pub open spec fn field_width(blocks: Seq<SubBlockView>) -> int {
    match first_row(blocks) {
        Some(width) => width,
        None => open_row(blocks),
    }
}

/// Expand all sub-blocks for one field (top or bottom) into row-major pixels
/// and the row width.
fn expand_field(sub_blocks: &Vec<PixelDataSubBlock>) -> (field: (Vec<u8>, usize))
    ensures
        field.0@ == field_pixels(block_views(sub_blocks@)),
        field.1 == field_width(block_views(sub_blocks@)),
        field.1 <= field.0@.len(),
{
    let ghost blocks = block_views(sub_blocks@);
    let mut all_pixels: Vec<u8> = Vec::new();
    let mut row: usize = 0;
    let mut row_width: Option<usize> = None;
    let mut i: usize = 0;
    assert(blocks.take(0) =~= Seq::<SubBlockView>::empty());
    while i < sub_blocks.len()
        invariant
            blocks == block_views(sub_blocks@),
            i <= sub_blocks@.len(),
            field_pixels(blocks.take(i as int)) == all_pixels@,
            row == open_row(blocks.take(i as int)),
            row <= all_pixels@.len(),
            match row_width {
                Some(w) => first_row(blocks.take(i as int)) == Some(w as int) && 0 < w
                    <= all_pixels@.len(),
                None => first_row(blocks.take(i as int)) is None && row == all_pixels@.len(),
            },
        decreases sub_blocks@.len() - i,
    {
        let block: &PixelDataSubBlock = &sub_blocks[i];
        proof {
            assert(blocks.take(i + 1).drop_last() =~= blocks.take(i as int));
            assert(blocks.take(i + 1).last() == block.view());
        }
        if block.data_type == DataType::EndOfLine {
            if row_width.is_none() && row > 0 {
                row_width = Some(row);
            }
            row = 0;
            assert(all_pixels@ + Seq::<u8>::empty() =~= all_pixels@);
        } else {
            let mut expanded: Vec<u8> = expand_sub_block(block);
            let before: usize = all_pixels.len();
            all_pixels.append(&mut expanded);
            row = row + (all_pixels.len() - before);
        }
        i = i + 1;
    }
    assert(blocks.take(i as int) =~= blocks);
    let width: usize = match row_width {
        Some(w) => w,
        None => row,
    };
    (all_pixels, width)
}

/// A bitmap of CLUT indices.
pub struct Bitmap {
    pub width: usize,
    pub height: usize,
    pub pixels: Vec<u8>,
}

/// [`Bitmap`] as a mathematical value.
pub struct BitmapView {
    pub width: int,
    pub height: int,
    pub pixels: Seq<u8>,
}

impl Bitmap {
    pub open spec fn view(&self) -> BitmapView {
        BitmapView { width: self.width as int, height: self.height as int, pixels: self.pixels@ }
    }
}

/// Number of whole rows of `width` pixels in a field, none when the field has
/// no row at all.
pub open spec fn field_rows(pixels: Seq<u8>, own_width: int, width: int) -> int {
    if own_width > 0 {
        pixels.len() as int / width
    } else {
        0
    }
}

/// The pixel in `row` and `col` of two interleaved fields: even rows come from
/// the top field, odd rows from the bottom field, and rows that a field does
/// not have are zero.
pub open spec fn interleaved_pixel(
    top: Seq<u8>,
    top_rows: int,
    bottom: Seq<u8>,
    bottom_rows: int,
    width: int,
    row: int,
    col: int,
) -> u8 {
    if row % 2 == 0 {
        if row / 2 < top_rows {
            top[(row / 2) * width + col]
        } else {
            0
        }
    } else {
        if row / 2 < bottom_rows {
            bottom[(row / 2) * width + col]
        } else {
            0
        }
    }
}

/// The bitmap that two interlaced fields make.
pub open spec fn interlaced_bitmap(
    top: Seq<SubBlockView>,
    bottom: Seq<SubBlockView>,
) -> Outcome<BitmapView> {
    let t = field_pixels(top);
    let b = field_pixels(bottom);
    let width = vstd::math::max(field_width(top), field_width(bottom));
    let top_rows = field_rows(t, field_width(top), width);
    let bottom_rows = field_rows(b, field_width(bottom), width);
    let height = 2 * vstd::math::max(top_rows, bottom_rows);
    if width == 0 || height == 0 {
        Outcome::Missing
    } else if width * height > usize::MAX {
        Outcome::TooLarge
    } else {
        Outcome::Done(
            BitmapView {
                width,
                height,
                pixels: Seq::new(
                    (width * height) as nat,
                    |i: int|
                        interleaved_pixel(
                            t,
                            top_rows,
                            b,
                            bottom_rows,
                            width,
                            i / width,
                            i % width,
                        ),
                ),
            },
        )
    }
}

/// The bitmap that a compressed code string makes.
pub open spec fn progressive_bitmap(width: u16, height: u16, data: Seq<u8>) -> Outcome<BitmapView> {
    if width == 0 || height == 0 {
        Outcome::Missing
    } else {
        match zlib_inflated(data) {
            None => Outcome::Missing,
            Some(inflated) => if pixels_8bit(inflated, 0).len() == 0 {
                Outcome::Missing
            } else {
                Outcome::Done(
                    BitmapView {
                        width: width as int,
                        height: height as int,
                        pixels: pixels_8bit(inflated, 0),
                    },
                )
            },
        }
    }
}

/// The bitmap of an object that holds pixels.
pub open spec fn object_bitmap(payload: PayloadView) -> Outcome<BitmapView> {
    match payload {
        PayloadView::InterlacedPixels { top, bottom } => interlaced_bitmap(top, bottom),
        PayloadView::ProgressivePixels {
            bitmap_width,
            bitmap_height,
            compressed_data,
        } => progressive_bitmap(bitmap_width, bitmap_height, compressed_data),
        PayloadView::NotPixels => Outcome::Missing,
    }
}

/// Whether the outcome of an execution is the specified one.
pub open spec fn bitmap_agrees(got: Outcome<Bitmap>, expected: Outcome<BitmapView>) -> bool {
    match got {
        Outcome::Done(bitmap) => expected == Outcome::Done(bitmap.view()),
        Outcome::Missing => expected is Missing,
        Outcome::TooLarge => expected is TooLarge,
    }
}

pub(crate) proof fn lemma_row_index(rows: int, width: int, row: int, col: int)
    requires
        0 <= row < rows,
        0 <= col < width,
    ensures
        0 <= row * width + col < rows * width,
        (row * width + col) / width == row,
        (row * width + col) % width == col,
{
    assert(0 <= row * width) by (nonlinear_arith)
        requires
            row >= 0,
            width > 0,
    ;
    assert((row + 1) * width <= rows * width) by (nonlinear_arith)
        requires
            row + 1 <= rows,
            width > 0,
    ;
    assert((row + 1) * width == row * width + width) by (nonlinear_arith);
    vstd::arithmetic::div_mod::lemma_fundamental_div_mod_converse(
        row * width + col,
        width,
        row,
        col,
    );
}

pub(crate) proof fn lemma_rows_bound(len: int, width: int)
    requires
        width > 0,
        len >= 0,
    ensures
        0 <= len / width,
        (len / width) * width <= len,
{
    vstd::arithmetic::div_mod::lemma_fundamental_div_mod(len, width);
    assert(0 <= len / width) by (nonlinear_arith)
        requires
            len >= 0,
            width > 0,
    ;
    assert(len % width >= 0) by (nonlinear_arith)
        requires
            width > 0,
    ;
    assert(width * (len / width) == (len / width) * width) by (nonlinear_arith);
}

/// Interleaves the rows of two fields.
fn interleave(
    top: &Vec<u8>,
    top_rows: usize,
    bottom: &Vec<u8>,
    bottom_rows: usize,
    width: usize,
    height: usize,
) -> (frame: Vec<u8>)
    requires
        width > 0,
        top_rows * width <= top@.len(),
        bottom_rows * width <= bottom@.len(),
        width * height <= usize::MAX,
    ensures
        frame@ == Seq::new(
            (width * height) as nat,
            |i: int|
                interleaved_pixel(
                    top@,
                    top_rows as int,
                    bottom@,
                    bottom_rows as int,
                    width as int,
                    i / width as int,
                    i % width as int,
                ),
        ),
{
    let ghost expected = Seq::new(
        (width * height) as nat,
        |i: int|
            interleaved_pixel(
                top@,
                top_rows as int,
                bottom@,
                bottom_rows as int,
                width as int,
                i / width as int,
                i % width as int,
            ),
    );
    let top_len: usize = top.len();
    let bottom_len: usize = bottom.len();
    let mut frame: Vec<u8> = Vec::new();
    let mut row: usize = 0;
    while row < height
        invariant
            width > 0,
            top_len == top@.len(),
            bottom_len == bottom@.len(),
            top_rows * width <= top@.len(),
            bottom_rows * width <= bottom@.len(),
            width * height <= usize::MAX,
            row <= height,
            frame@.len() == row * width,
            expected.len() == width * height,
            forall|i: int|
                0 <= i < width * height ==> #[trigger] expected[i] == interleaved_pixel(
                    top@,
                    top_rows as int,
                    bottom@,
                    bottom_rows as int,
                    width as int,
                    i / width as int,
                    i % width as int,
                ),
            forall|i: int| 0 <= i < frame@.len() ==> #[trigger] frame@[i] == expected[i],
        decreases height - row,
    {
        let even: bool = row % 2 == 0;
        let field_row: usize = row / 2;
        let mut col: usize = 0;
        while col < width
            invariant
                width > 0,
                top_len == top@.len(),
                bottom_len == bottom@.len(),
                top_rows * width <= top@.len(),
                bottom_rows * width <= bottom@.len(),
                width * height <= usize::MAX,
                row < height,
                col <= width,
                even == (row % 2 == 0),
                field_row == row / 2,
                frame@.len() == row * width + col,
                expected.len() == width * height,
                forall|i: int|
                    0 <= i < width * height ==> #[trigger] expected[i] == interleaved_pixel(
                        top@,
                        top_rows as int,
                        bottom@,
                        bottom_rows as int,
                        width as int,
                        i / width as int,
                        i % width as int,
                    ),
                forall|i: int| 0 <= i < frame@.len() ==> #[trigger] frame@[i] == expected[i],
            decreases width - col,
        {
            proof {
                assert(0 <= field_row * width) by (nonlinear_arith);
                lemma_row_index(height as int, width as int, row as int, col as int);
                assert(height * width == width * height) by (nonlinear_arith);
                if field_row < top_rows {
                    lemma_row_index(top_rows as int, width as int, field_row as int, col as int);
                }
                if field_row < bottom_rows {
                    lemma_row_index(bottom_rows as int, width as int, field_row as int, col as int);
                }
            }
            let pixel: u8 = if even {
                if field_row < top_rows {
                    top[field_row * width + col]
                } else {
                    0
                }
            } else {
                if field_row < bottom_rows {
                    bottom[field_row * width + col]
                } else {
                    0
                }
            };
            frame.push(pixel);
            col = col + 1;
        }
        assert((row + 1) * width == row * width + width) by (nonlinear_arith);
        row = row + 1;
    }
    assert(height * width == width * height) by (nonlinear_arith);
    assert(frame@ =~= expected);
    frame
}

/// Expand an object's pixel data into a bitmap of CLUT indices.
///
/// For interlaced coding: top field to even output lines, bottom to odd lines.
/// For progressive: zlib-decompress, then expand as an 8-bit code string.
fn expand_object(object: &ObjectDataPayload) -> (bitmap: Outcome<Bitmap>)
    ensures
        bitmap_agrees(bitmap, object_bitmap(object.view())),
        bitmap matches Outcome::Done(b) ==> b.width > 0 && b.height > 0 && b.width * b.height
            <= usize::MAX,
{
    match object {
        ObjectDataPayload::InterlacedPixels { top, bottom } => {
            let (top_pixels, top_width) = expand_field(top);
            let (bottom_pixels, bottom_width) = expand_field(bottom);
            let width: usize = if top_width > bottom_width {
                top_width
            } else {
                bottom_width
            };
            if width == 0 {
                return Outcome::Missing;
            }
            proof {
                lemma_rows_bound(top_pixels@.len() as int, width as int);
                lemma_rows_bound(bottom_pixels@.len() as int, width as int);
            }
            let top_rows: usize = if top_width > 0 {
                top_pixels.len() / width
            } else {
                0
            };
            let bottom_rows: usize = if bottom_width > 0 {
                bottom_pixels.len() / width
            } else {
                0
            };
            let rows: usize = if top_rows > bottom_rows {
                top_rows
            } else {
                bottom_rows
            };
            if rows == 0 {
                return Outcome::Missing;
            }
            proof {
                let w = width as int;
                let r = rows as int;
                assert(w * (2 * r) == 2 * (r * w)) by (nonlinear_arith);
                assert(0 * w == 0) by (nonlinear_arith);
                assert(2 * r <= w * (2 * r)) by (nonlinear_arith)
                    requires
                        w >= 1,
                        r >= 0,
                ;
                assert(r * w <= usize::MAX);
            }
            let area: usize = rows * width;
            if area > usize::MAX / 2 {
                return Outcome::TooLarge;
            }
            let height: usize = 2 * rows;
            let pixels: Vec<u8> = interleave(
                &top_pixels,
                top_rows,
                &bottom_pixels,
                bottom_rows,
                width,
                height,
            );
            Outcome::Done(Bitmap { width, height, pixels })
        },
        ObjectDataPayload::ProgressivePixels { bitmap_width, bitmap_height, compressed_data } => {
            let w: usize = *bitmap_width as usize;
            let h: usize = *bitmap_height as usize;
            if w == 0 || h == 0 {
                return Outcome::Missing;
            }
            let inflated: Vec<u8> = match inflate(compressed_data.as_slice()) {
                Some(data) => data,
                None => {
                    return Outcome::Missing;
                },
            };
            let pixels: Vec<u8> = expand_8bit(inflated.as_slice());
            if pixels.len() == 0 {
                return Outcome::Missing;
            }
            assert(w * h <= 0xffff * 0xffff) by (nonlinear_arith)
                requires
                    w <= 0xffff,
                    h <= 0xffff,
            ;
            Outcome::Done(Bitmap { width: w, height: h, pixels })
        },
        ObjectDataPayload::NotPixels => Outcome::Missing,
    }
}

// ---------------------------------------------------------------------------
// Painting
// ---------------------------------------------------------------------------

/// The palette colour that the bitmap, placed at (`ox`, `oy`), shows at pixel
/// (`x`, `y`), if the bitmap covers that pixel and the colour is not fully
/// transparent.
pub open spec fn colour_at(
    bitmap: BitmapView,
    ox: int,
    oy: int,
    palette: Seq<Seq<u8>>,
    x: int,
    y: int,
) -> Option<Seq<u8>> {
    let src = (y - oy) * bitmap.width + (x - ox);
    if 0 <= x - ox < bitmap.width && 0 <= y - oy < bitmap.height && src < bitmap.pixels.len()
        && palette[bitmap.pixels[src] as int][3] > 0 {
        Some(palette[bitmap.pixels[src] as int])
    } else {
        None
    }
}

/// The RGBA buffer after a bitmap was painted over it at (`ox`, `oy`).
pub open spec fn painted(
    buf: Seq<u8>,
    width: int,
    bitmap: BitmapView,
    ox: int,
    oy: int,
    palette: Seq<Seq<u8>>,
) -> Seq<u8> {
    Seq::new(
        buf.len(),
        |k: int|
            match colour_at(bitmap, ox, oy, palette, (k / 4) % width, (k / 4) / width) {
                Some(colour) => colour[k % 4],
                None => buf[k],
            },
    )
}

/// `painted`, as far as the bitmap rows before `sy`, and of row `sy` the
/// columns before `sx`, have been painted.
spec fn painted_part(
    buf: Seq<u8>,
    width: int,
    bitmap: BitmapView,
    ox: int,
    oy: int,
    palette: Seq<Seq<u8>>,
    sy: int,
    sx: int,
) -> Seq<u8> {
    Seq::new(
        buf.len(),
        |k: int|
            {
                let x = (k / 4) % width;
                let y = (k / 4) / width;
                match colour_at(bitmap, ox, oy, palette, x, y) {
                    Some(colour) => if y - oy < sy || (y - oy == sy && x - ox < sx) {
                        colour[k % 4]
                    } else {
                        buf[k]
                    },
                    None => buf[k],
                }
            },
    )
}

proof fn lemma_pixel_of(k: int, width: int, height: int)
    requires
        0 <= k < width * height * 4,
        width > 0,
    ensures
        0 <= (k / 4) % width < width,
        0 <= (k / 4) / width < height,
        k / 4 == ((k / 4) / width) * width + (k / 4) % width,
{
    let p = k / 4;
    vstd::arithmetic::div_mod::lemma_fundamental_div_mod(p, width);
    vstd::arithmetic::div_mod::lemma_mod_bound(p, width);
    assert(width * (p / width) == (p / width) * width) by (nonlinear_arith);
    assert(0 <= p < width * height);
    assert(0 <= p / width) by (nonlinear_arith)
        requires
            p >= 0,
            width > 0,
    ;
    assert(p / width < height) by (nonlinear_arith)
        requires
            p < width * height,
            width > 0,
            p == width * (p / width) + p % width,
            0 <= p % width,
    ;
}

/// Where the rest of a bitmap row changes nothing, the row is done.
proof fn lemma_row_done(
    buf: Seq<u8>,
    width: int,
    height: int,
    bitmap: BitmapView,
    ox: int,
    oy: int,
    palette: Seq<Seq<u8>>,
    sy: int,
    sx: int,
)
    requires
        width > 0,
        buf.len() == width * height * 4,
        0 <= sx,
        sx >= bitmap.width || ox + sx >= width || sy * bitmap.width + sx >= bitmap.pixels.len(),
    ensures
        painted_part(buf, width, bitmap, ox, oy, palette, sy, sx) == painted_part(
            buf,
            width,
            bitmap,
            ox,
            oy,
            palette,
            sy + 1,
            0,
        ),
{
    let a = painted_part(buf, width, bitmap, ox, oy, palette, sy, sx);
    let b = painted_part(buf, width, bitmap, ox, oy, palette, sy + 1, 0);
    assert forall|k: int| 0 <= k < buf.len() implies a[k] == b[k] by {
        lemma_pixel_of(k, width, height);
    }
    assert(a =~= b);
}

/// Where the rest of a bitmap changes nothing, the bitmap is done.
proof fn lemma_bitmap_done(
    buf: Seq<u8>,
    width: int,
    height: int,
    bitmap: BitmapView,
    ox: int,
    oy: int,
    palette: Seq<Seq<u8>>,
    sy: int,
)
    requires
        width > 0,
        buf.len() == width * height * 4,
        sy >= bitmap.height || oy + sy >= height,
    ensures
        painted_part(buf, width, bitmap, ox, oy, palette, sy, 0) == painted(
            buf,
            width,
            bitmap,
            ox,
            oy,
            palette,
        ),
{
    let a = painted_part(buf, width, bitmap, ox, oy, palette, sy, 0);
    let b = painted(buf, width, bitmap, ox, oy, palette);
    assert forall|k: int| 0 <= k < buf.len() implies a[k] == b[k] by {
        lemma_pixel_of(k, width, height);
    }
    assert(a =~= b);
}

/// One more pixel of the bitmap.
proof fn lemma_pixel_done(
    buf: Seq<u8>,
    width: int,
    height: int,
    bitmap: BitmapView,
    ox: int,
    oy: int,
    palette: Seq<Seq<u8>>,
    sy: int,
    sx: int,
    now: Seq<u8>,
)
    requires
        width > 0,
        buf.len() == width * height * 4,
        0 <= ox,
        0 <= oy,
        0 <= sx < bitmap.width,
        0 <= sy < bitmap.height,
        ox + sx < width,
        oy + sy < height,
        now.len() == buf.len(),
        forall|k: int|
            0 <= k < buf.len() ==> #[trigger] now[k] == if k / 4 == (oy + sy) * width + (ox + sx) {
                match colour_at(bitmap, ox, oy, palette, ox + sx, oy + sy) {
                    Some(colour) => colour[k % 4],
                    None => painted_part(buf, width, bitmap, ox, oy, palette, sy, sx)[k],
                }
            } else {
                painted_part(buf, width, bitmap, ox, oy, palette, sy, sx)[k]
            },
    ensures
        now == painted_part(buf, width, bitmap, ox, oy, palette, sy, sx + 1),
{
    let b = painted_part(buf, width, bitmap, ox, oy, palette, sy, sx + 1);
    lemma_row_index(height, width, oy + sy, ox + sx);
    assert forall|k: int| 0 <= k < buf.len() implies now[k] == b[k] by {
        lemma_pixel_of(k, width, height);
    }
    assert(now =~= b);
}

/// Stores one pixel.
fn put_pixel(rgba: &mut Vec<u8>, pixel: usize, colour: [u8; 4])
    requires
        pixel * 4 + 3 < old(rgba)@.len(),
    ensures
        final(rgba)@.len() == old(rgba)@.len(),
        forall|k: int|
            0 <= k < final(rgba)@.len() ==> #[trigger] final(rgba)@[k] == if k / 4 == pixel {
                colour@[k % 4]
            } else {
                old(rgba)@[k]
            },
{
    let len: usize = rgba.len();
    let at: usize = pixel * 4;
    rgba.set(at, colour[0]);
    rgba.set(at + 1, colour[1]);
    rgba.set(at + 2, colour[2]);
    rgba.set(at + 3, colour[3]);
}

/// Paints a bitmap over the RGBA buffer of a region, leaving out fully
/// transparent colours and what lies outside the region.
fn paint(
    rgba: &mut Vec<u8>,
    width: usize,
    height: usize,
    bitmap: &Bitmap,
    ox: usize,
    oy: usize,
    palette: &Vec<[u8; 4]>,
)
    requires
        width > 0,
        old(rgba)@.len() == width * height * 4,
        bitmap.width * bitmap.height <= usize::MAX,
        width <= 0xffff,
        height <= 0xffff,
        ox <= 0xffff,
        oy <= 0xffff,
        palette@.len() == PALETTE_LEN,
    ensures
        final(rgba)@ == painted(
            old(rgba)@,
            width as int,
            bitmap.view(),
            ox as int,
            oy as int,
            palette_view(palette@),
        ),
{
    let ghost buf = rgba@;
    let ghost w = width as int;
    let ghost h = height as int;
    let ghost bm = bitmap.view();
    let ghost pal = palette_view(palette@);
    let len: usize = rgba.len();
    let pixels_len: usize = bitmap.pixels.len();
    proof {
        assert forall|k: int| 0 <= k < buf.len() implies buf[k] == painted_part(
            buf,
            w,
            bm,
            ox as int,
            oy as int,
            pal,
            0,
            0,
        )[k] by {
            lemma_pixel_of(k, w, h);
        }
        assert(buf =~= painted_part(buf, w, bm, ox as int, oy as int, pal, 0, 0));
    }
    let mut sy: usize = 0;
    while sy < bitmap.height && oy + sy < height
        invariant
            w == width && h == height && bm == bitmap.view() && pal == palette_view(palette@),
            width > 0,
            len == width * height * 4,
            buf.len() == len,
            pixels_len == bitmap.pixels@.len(),
            bitmap.width * bitmap.height <= usize::MAX,
            width <= 0xffff,
            height <= 0xffff,
            ox <= 0xffff,
            oy <= 0xffff,
            palette@.len() == PALETTE_LEN,
            sy <= 0xffff,
            sy <= bitmap.height,
            rgba@ == painted_part(buf, w, bm, ox as int, oy as int, pal, sy as int, 0),
        decreases bitmap.height - sy,
    {
        let mut sx: usize = 0;
        proof {
            assert(sy * bitmap.width <= bitmap.width * bitmap.height) by (nonlinear_arith)
                requires
                    sy <= bitmap.height,
                    0 <= bitmap.width,
            ;
            assert(sy * bitmap.width + bitmap.width <= bitmap.width * bitmap.height)
                by (nonlinear_arith)
                requires
                    sy + 1 <= bitmap.height,
                    0 <= bitmap.width,
            ;
            assert(0 <= sy * bitmap.width) by (nonlinear_arith)
                requires
                    0 <= bitmap.width,
            ;
        }
        while sx < bitmap.width && ox + sx < width && sy * bitmap.width + sx < pixels_len
            invariant
                w == width && h == height && bm == bitmap.view() && pal == palette_view(palette@),
                width > 0,
                len == width * height * 4,
                buf.len() == len,
                pixels_len == bitmap.pixels@.len(),
                bitmap.width * bitmap.height <= usize::MAX,
                0 <= sy * bitmap.width,
                sy * bitmap.width + bitmap.width <= bitmap.width * bitmap.height,
                width <= 0xffff,
                height <= 0xffff,
                ox <= 0xffff,
                oy <= 0xffff,
                palette@.len() == PALETTE_LEN,
                sy < bitmap.height,
                oy + sy < height,
                sx <= 0xffff,
                sx <= bitmap.width,
                rgba@ == painted_part(buf, w, bm, ox as int, oy as int, pal, sy as int, sx as int),
            decreases bitmap.width - sx,
        {
            let ghost before = rgba@;
            let x: usize = ox + sx;
            let y: usize = oy + sy;
            let index: usize = bitmap.pixels[sy * bitmap.width + sx] as usize;
            let colour: [u8; 4] = palette[index];
            proof {
                lemma_row_index(h, w, y as int, x as int);
                assert(w * h == h * w) by (nonlinear_arith);
                assert(0 <= y * width) by (nonlinear_arith);
                assert(pal[index as int] == colour@);
                assert(y - oy == sy && x - ox == sx);
            }
            if colour[3] > 0 {
                put_pixel(rgba, y * width + x, colour);
            }
            proof {
                lemma_pixel_done(
                    buf,
                    w,
                    h,
                    bm,
                    ox as int,
                    oy as int,
                    pal,
                    sy as int,
                    sx as int,
                    rgba@,
                );
            }
            sx = sx + 1;
        }
        proof {
            lemma_row_done(buf, w, h, bm, ox as int, oy as int, pal, sy as int, sx as int);
        }
        sy = sy + 1;
    }
    proof {
        lemma_bitmap_done(buf, w, h, bm, ox as int, oy as int, pal, sy as int);
    }
}

// ---------------------------------------------------------------------------
// Regions and cues
// ---------------------------------------------------------------------------

/// A fully composited subtitle cue: RGBA regions with screen placement.
pub struct CompositedCue {
    pub start_pts: u64,
    pub end_pts: u64,
    pub pid: u16,
    pub regions: Vec<CompositedRegion>,
}

/// A single composited RGBA region, placed on screen.
pub struct CompositedRegion {
    pub x: u16,
    pub y: u16,
    pub width: u16,
    pub height: u16,
    pub rgba: Vec<u8>,
}

/// [`CompositedRegion`] as a mathematical value.
pub struct PictureView {
    pub x: u16,
    pub y: u16,
    pub width: u16,
    pub height: u16,
    pub rgba: Seq<u8>,
}

impl CompositedRegion {
    pub open spec fn view(&self) -> PictureView {
        PictureView {
            x: self.x,
            y: self.y,
            width: self.width,
            height: self.height,
            rgba: self.rgba@,
        }
    }
}

/// The regions of a list as mathematical values.
pub open spec fn picture_views(regions: Seq<CompositedRegion>) -> Seq<PictureView> {
    Seq::new(regions.len(), |i: int| regions[i].view())
}

/// [`CompositedCue`] as a mathematical value.
pub struct CueView {
    pub start_pts: u64,
    pub end_pts: u64,
    pub pid: u16,
    pub regions: Seq<PictureView>,
}

impl CompositedCue {
    pub open spec fn view(&self) -> CueView {
        CueView {
            start_pts: self.start_pts,
            end_pts: self.end_pts,
            pid: self.pid,
            regions: picture_views(self.regions@),
        }
    }
}

/// The cues of a list as mathematical values.
pub open spec fn cue_views(cues: Seq<CompositedCue>) -> Seq<CueView> {
    Seq::new(cues.len(), |i: int| cues[i].view())
}

/// The buffer after one object was drawn into it.
pub open spec fn with_object(
    buf: Seq<u8>,
    width: int,
    object: RegionObject,
    objects: Map<u16, Seq<u8>>,
    palette: Seq<Seq<u8>>,
) -> Outcome<Seq<u8>> {
    if !objects.contains_key(object.object_id) {
        Outcome::Missing
    } else {
        match object_payload(objects[object.object_id]) {
            None => Outcome::Missing,
            Some(PayloadView::NotPixels) => Outcome::Done(buf),
            Some(payload) => match object_bitmap(payload) {
                Outcome::Done(bitmap) => Outcome::Done(
                    painted(buf, width, bitmap, object.x as int, object.y as int, palette),
                ),
                Outcome::Missing => Outcome::Missing,
                Outcome::TooLarge => Outcome::TooLarge,
            },
        }
    }
}

/// A transparent buffer of `len` bytes after a list of objects was drawn into
/// it, in order.
pub open spec fn with_objects(
    len: int,
    width: int,
    list: Seq<RegionObject>,
    objects: Map<u16, Seq<u8>>,
    palette: Seq<Seq<u8>>,
) -> Outcome<Seq<u8>>
    decreases list.len(),
{
    if list.len() == 0 {
        Outcome::Done(Seq::new(len as nat, |i: int| 0u8))
    } else {
        match with_objects(len, width, list.drop_last(), objects, palette) {
            Outcome::Done(buf) => with_object(buf, width, list.last(), objects, palette),
            Outcome::Missing => Outcome::Missing,
            Outcome::TooLarge => Outcome::TooLarge,
        }
    }
}

/// The RGBA buffer of a region that is not empty.
pub open spec fn region_rgba(
    region: RegionView,
    objects: Map<u16, Seq<u8>>,
    palette: Seq<Seq<u8>>,
) -> Outcome<Seq<u8>> {
    let len = region.width * region.height * 4;
    if len > usize::MAX {
        Outcome::TooLarge
    } else {
        with_objects(len, region.width as int, region.objects, objects, palette)
    }
}

/// The pictures so far, and that of one more region of the page. A region
/// without area has none.
pub open spec fn with_region(
    pictures: Seq<PictureView>,
    page_region: PageRegion,
    regions: Map<u8, Seq<u8>>,
    objects: Map<u16, Seq<u8>>,
    palette: Seq<Seq<u8>>,
) -> Outcome<Seq<PictureView>> {
    if !regions.contains_key(page_region.region_id) {
        Outcome::Missing
    } else {
        match region_definition(regions[page_region.region_id]) {
            None => Outcome::Missing,
            Some(region) => if region.width == 0 || region.height == 0 {
                Outcome::Done(pictures)
            } else {
                match region_rgba(region, objects, palette) {
                    Outcome::Done(rgba) => Outcome::Done(
                        pictures.push(
                            PictureView {
                                x: page_region.x,
                                y: page_region.y,
                                width: region.width,
                                height: region.height,
                                rgba,
                            },
                        ),
                    ),
                    Outcome::Missing => Outcome::Missing,
                    Outcome::TooLarge => Outcome::TooLarge,
                }
            },
        }
    }
}

/// The pictures of the regions of a page.
pub open spec fn page_pictures(
    page: Seq<PageRegion>,
    regions: Map<u8, Seq<u8>>,
    objects: Map<u16, Seq<u8>>,
    palette: Seq<Seq<u8>>,
) -> Outcome<Seq<PictureView>>
    decreases page.len(),
{
    if page.len() == 0 {
        Outcome::Done(Seq::empty())
    } else {
        match page_pictures(page.drop_last(), regions, objects, palette) {
            Outcome::Done(pictures) => with_region(
                pictures,
                page.last(),
                regions,
                objects,
                palette,
            ),
            Outcome::Missing => Outcome::Missing,
            Outcome::TooLarge => Outcome::TooLarge,
        }
    }
}

/// When a cue ends: its time-out, in seconds at 90 kHz, after its start.
pub open spec fn end_pts(start_pts: u64, page_time_out: u8) -> u64 {
    let end = start_pts + page_time_out * 90_000;
    if end > u64::MAX {
        u64::MAX
    } else {
        end as u64
    }
}

/// The state of a compositor.
pub struct CompositorView {
    /// Wire form of the CLUT definition.
    pub clut: Option<Seq<u8>>,
    /// Wire form of the region compositions, by region.
    pub regions: Map<u8, Seq<u8>>,
    /// Wire form of the object data, by object.
    pub objects: Map<u16, Seq<u8>>,
    /// Wire form of the page composition.
    pub page: Option<Seq<u8>>,
    /// Time-out of the page composition in seconds, zero without one.
    pub page_time_out: u8,
    /// Cues not yet taken.
    pub cues: Seq<CueView>,
}

/// A compositor that has collected nothing.
pub open spec fn cleared() -> CompositorView {
    CompositorView {
        clut: None,
        regions: Map::empty(),
        objects: Map::empty(),
        page: None,
        page_time_out: 0,
        cues: Seq::empty(),
    }
}

/// The cue that the collected segments make; `Missing` where they make none.
pub open spec fn composite_of(state: CompositorView, pid: u16, start_pts: u64) -> Outcome<CueView> {
    match (state.clut, state.page) {
        (Some(clut), Some(page)) => match (clut_entries(clut), page_regions(page)) {
            (Some(entries), Some(page)) => match page_pictures(
                page,
                state.regions,
                state.objects,
                palette_of(entries),
            ) {
                Outcome::Done(pictures) => if pictures.len() == 0 {
                    Outcome::Missing
                } else {
                    Outcome::Done(
                        CueView {
                            start_pts,
                            end_pts: end_pts(start_pts, state.page_time_out),
                            pid,
                            regions: pictures,
                        },
                    )
                },
                Outcome::Missing => Outcome::Missing,
                Outcome::TooLarge => Outcome::TooLarge,
            },
            _ => Outcome::Missing,
        },
        _ => Outcome::Missing,
    }
}

/// The state after a segment was collected.
pub open spec fn with_segment(state: CompositorView, segment: SegmentView) -> CompositorView {
    match segment {
        SegmentView::Page { page_time_out, bytes } => CompositorView {
            page: Some(bytes),
            page_time_out,
            ..state
        },
        SegmentView::Region { region_id, bytes } => CompositorView {
            regions: state.regions.insert(region_id, bytes),
            ..state
        },
        SegmentView::Clut { bytes } => CompositorView { clut: Some(bytes), ..state },
        SegmentView::Object { object_id, bytes } => CompositorView {
            objects: state.objects.insert(object_id, bytes),
            ..state
        },
        _ => state,
    }
}

/// The state after a list of segments was collected.
pub open spec fn with_segments(state: CompositorView, segments: Seq<SegmentView>) -> CompositorView
    decreases segments.len(),
{
    if segments.len() == 0 {
        state
    } else {
        with_segment(with_segments(state, segments.drop_last()), segments.last())
    }
}

/// Whether the segments end the display set.
pub open spec fn ends_display_set(segments: Seq<SegmentView>) -> bool {
    segments.contains(SegmentView::EndOfDisplaySet)
}

/// The state after a PES data field was fed in. At the end of a display set
/// its cue, if it makes one, is queued, and of what was collected only the
/// CLUT is kept.
pub open spec fn fed(
    state: CompositorView,
    pid: u16,
    pts_ticks: Option<u64>,
    segments: Seq<SegmentView>,
) -> Outcome<CompositorView> {
    let collected = with_segments(state, segments);
    let start_pts = match pts_ticks {
        Some(pts) => pts,
        None => 0,
    };
    let ended = CompositorView {
        regions: Map::empty(),
        objects: Map::empty(),
        page: None,
        page_time_out: 0,
        ..collected
    };
    if !ends_display_set(segments) {
        Outcome::Done(collected)
    } else {
        match composite_of(collected, pid, start_pts) {
            Outcome::Done(cue) => Outcome::Done(
                CompositorView { cues: collected.cues.push(cue), ..ended },
            ),
            Outcome::Missing => Outcome::Done(ended),
            Outcome::TooLarge => Outcome::TooLarge,
        }
    }
}

/// Wire forms by key as mathematical values.
pub open spec fn bytes_by_key<K>(m: Map<K, Vec<u8>>) -> Map<K, Seq<u8>> {
    m.map_values(|v: Vec<u8>| v@)
}

/// Accumulated state for one display set on a single subtitle PID.
pub struct CompositorState {
    clut_bytes: Option<Vec<u8>>,
    region_bytes: HashMap<u8, Vec<u8>>,
    object_bytes: HashMap<u16, Vec<u8>>,
    page_bytes: Option<Vec<u8>>,
    page_time_out: u8,
    pending_cues: Vec<CompositedCue>,
}

impl View for CompositorState {
    type V = CompositorView;

    closed spec fn view(&self) -> CompositorView {
        CompositorView {
            clut: match self.clut_bytes {
                Some(b) => Some(b@),
                None => None,
            },
            regions: bytes_by_key(self.region_bytes@),
            objects: bytes_by_key(self.object_bytes@),
            page: match self.page_bytes {
                Some(b) => Some(b@),
                None => None,
            },
            page_time_out: self.page_time_out,
            cues: cue_views(self.pending_cues@),
        }
    }
}

/// Draws one object into the RGBA buffer of a region.
fn draw_object(
    rgba: &mut Vec<u8>,
    width: usize,
    height: usize,
    object: &RegionObject,
    objects: &HashMap<u16, Vec<u8>>,
    palette: &Vec<[u8; 4]>,
) -> (drawn: Outcome<()>)
    requires
        0 < width <= 0xffff,
        height <= 0xffff,
        old(rgba)@.len() == width * height * 4,
        palette@.len() == PALETTE_LEN,
    ensures
        final(rgba)@.len() == old(rgba)@.len(),
        match drawn {
            Outcome::Done(_) => with_object(
                old(rgba)@,
                width as int,
                *object,
                bytes_by_key(objects@),
                palette_view(palette@),
            ) == Outcome::Done(final(rgba)@),
            Outcome::Missing => with_object(
                old(rgba)@,
                width as int,
                *object,
                bytes_by_key(objects@),
                palette_view(palette@),
            ) is Missing,
            Outcome::TooLarge => with_object(
                old(rgba)@,
                width as int,
                *object,
                bytes_by_key(objects@),
                palette_view(palette@),
            ) is TooLarge,
        },
{
    let bytes: &Vec<u8> = match objects.get(&object.object_id) {
        Some(b) => b,
        None => {
            return Outcome::Missing;
        },
    };
    assert(bytes_by_key(objects@)[object.object_id] == bytes@);
    let payload: ObjectDataPayload = match parse_object(bytes.as_slice()) {
        Some(p) => p,
        None => {
            return Outcome::Missing;
        },
    };
    if let ObjectDataPayload::NotPixels = payload {
        return Outcome::Done(());
    }
    match expand_object(&payload) {
        Outcome::Done(bitmap) => {
            paint(
                rgba,
                width,
                height,
                &bitmap,
                object.x as usize,
                object.y as usize,
                palette,
            );
            Outcome::Done(())
        },
        Outcome::Missing => Outcome::Missing,
        Outcome::TooLarge => Outcome::TooLarge,
    }
}

proof fn lemma_objects_stop(
    len: int,
    width: int,
    list: Seq<RegionObject>,
    objects: Map<u16, Seq<u8>>,
    palette: Seq<Seq<u8>>,
    n: int,
)
    requires
        0 <= n <= list.len(),
        !(with_objects(len, width, list.take(n), objects, palette) is Done),
    ensures
        with_objects(len, width, list, objects, palette) == with_objects(
            len,
            width,
            list.take(n),
            objects,
            palette,
        ),
    decreases list.len() - n,
{
    if n < list.len() {
        assert(list.take(n + 1).drop_last() =~= list.take(n));
        lemma_objects_stop(len, width, list, objects, palette, n + 1);
    } else {
        assert(list.take(n) =~= list);
    }
}

/// Composes the RGBA buffer of a region that is not empty.
fn render_region(
    region: &RegionDefinition,
    objects: &HashMap<u16, Vec<u8>>,
    palette: &Vec<[u8; 4]>,
) -> (rendered: Outcome<Vec<u8>>)
    requires
        region.width > 0,
        palette@.len() == PALETTE_LEN,
    ensures
        match rendered {
            Outcome::Done(rgba) => {
                &&& region_rgba(region.view(), bytes_by_key(objects@), palette_view(palette@))
                    == Outcome::Done(rgba@)
                &&& rgba@.len() == region.width * region.height * 4
            },
            Outcome::Missing => region_rgba(
                region.view(),
                bytes_by_key(objects@),
                palette_view(palette@),
            ) is Missing,
            Outcome::TooLarge => region_rgba(
                region.view(),
                bytes_by_key(objects@),
                palette_view(palette@),
            ) is TooLarge,
        },
{
    let width: usize = region.width as usize;
    let height: usize = region.height as usize;
    assert(0 <= region.width * region.height <= 0xffff * 0xffff) by (nonlinear_arith)
        requires
            region.width <= 0xffff,
            region.height <= 0xffff,
    ;
    let area: u64 = region.width as u64 * region.height as u64 * 4;
    if area > usize::MAX as u64 {
        return Outcome::TooLarge;
    }
    let ghost list = region.objects@;
    let ghost by_key = bytes_by_key(objects@);
    let ghost pal = palette_view(palette@);
    let ghost w = width as int;
    let ghost len = area as int;
    let mut rgba: Vec<u8> = vec![0u8; area as usize];
    assert(list.take(0) =~= Seq::<RegionObject>::empty());
    assert(rgba@ =~= Seq::new(len as nat, |i: int| 0u8));
    let mut i: usize = 0;
    while i < region.objects.len()
        invariant
            list == region.objects@,
            by_key == bytes_by_key(objects@),
            pal == palette_view(palette@),
            palette@.len() == PALETTE_LEN,
            w == width,
            0 < width <= 0xffff,
            height <= 0xffff,
            width == region.width,
            height == region.height,
            len == width * height * 4,
            len <= usize::MAX,
            rgba@.len() == len,
            i <= list.len(),
            with_objects(len, w, list.take(i as int), by_key, pal) == Outcome::Done(rgba@),
        decreases list.len() - i,
    {
        proof {
            assert(list.take(i + 1).drop_last() =~= list.take(i as int));
            assert(list.take(i + 1).last() == list[i as int]);
        }
        match draw_object(&mut rgba, width, height, &region.objects[i], objects, palette) {
            Outcome::Done(_) => {},
            Outcome::Missing => {
                proof {
                    lemma_objects_stop(len, w, list, by_key, pal, i + 1);
                }
                return Outcome::Missing;
            },
            Outcome::TooLarge => {
                proof {
                    lemma_objects_stop(len, w, list, by_key, pal, i + 1);
                }
                return Outcome::TooLarge;
            },
        }
        i = i + 1;
    }
    assert(list.take(i as int) =~= list);
    Outcome::Done(rgba)
}

proof fn lemma_pictures_stop(
    page: Seq<PageRegion>,
    regions: Map<u8, Seq<u8>>,
    objects: Map<u16, Seq<u8>>,
    palette: Seq<Seq<u8>>,
    n: int,
)
    requires
        0 <= n <= page.len(),
        !(page_pictures(page.take(n), regions, objects, palette) is Done),
    ensures
        page_pictures(page, regions, objects, palette) == page_pictures(
            page.take(n),
            regions,
            objects,
            palette,
        ),
    decreases page.len() - n,
{
    if n < page.len() {
        assert(page.take(n + 1).drop_last() =~= page.take(n));
        lemma_pictures_stop(page, regions, objects, palette, n + 1);
    } else {
        assert(page.take(n) =~= page);
    }
}

impl CompositorState {
    /// Create a new empty compositor state.
    pub fn new() -> (state: Self)
        ensures
            state@ == cleared(),
    {
        let state = CompositorState {
            clut_bytes: None,
            region_bytes: HashMap::new(),
            object_bytes: HashMap::new(),
            page_bytes: None,
            page_time_out: 0,
            pending_cues: Vec::new(),
        };
        assert(state@.regions =~= Map::empty());
        assert(state@.objects =~= Map::empty());
        assert(state@.cues =~= Seq::empty());
        state
    }

    /// Reset all state (for a PID change or when subtitles are switched off).
    pub fn clear(&mut self)
        ensures
            final(self)@ == cleared(),
    {
        self.clut_bytes = None;
        self.region_bytes.clear();
        self.object_bytes.clear();
        self.page_bytes = None;
        self.page_time_out = 0;
        self.pending_cues.clear();
        assert(self@.regions =~= Map::empty());
        assert(self@.objects =~= Map::empty());
        assert(self@.cues =~= Seq::empty());
    }

    /// Collects the segments of a PES data field; returns whether the display
    /// set ended.
    fn collect(&mut self, field: &PesDataField) -> (ended: bool)
        ensures
            final(self)@ == with_segments(old(self)@, segment_views(field.segments@)),
            ended == ends_display_set(segment_views(field.segments@)),
    {
        let ghost segments = segment_views(field.segments@);
        let ghost before = self@;
        let mut has_end: bool = false;
        let mut i: usize = 0;
        assert(segments.take(0) =~= Seq::<SegmentView>::empty());
        while i < field.segments.len()
            invariant
                segments == segment_views(field.segments@),
                i <= segments.len(),
                self@ == with_segments(before, segments.take(i as int)),
                has_end == ends_display_set(segments.take(i as int)),
            decreases segments.len() - i,
        {
            let ghost so_far = self@;
            let ghost segment = segments[i as int];
            proof {
                assert(segments.take(i + 1).drop_last() =~= segments.take(i as int));
                assert(segments.take(i + 1).last() == segment);
                assert(segments.take(i + 1) =~= segments.take(i as int).push(segment));
                assert(ends_display_set(segments.take(i + 1)) == (ends_display_set(
                    segments.take(i as int),
                ) || segment == SegmentView::EndOfDisplaySet)) by {
                    let t = segments.take(i as int);
                    let u = segments.take(i + 1);
                    if t.contains(SegmentView::EndOfDisplaySet) {
                        let j = choose|j: int|
                            0 <= j < t.len() && t[j] == SegmentView::EndOfDisplaySet;
                        assert(u[j] == SegmentView::EndOfDisplaySet);
                    }
                    if segment == SegmentView::EndOfDisplaySet {
                        assert(u[i as int] == SegmentView::EndOfDisplaySet);
                    }
                    if u.contains(SegmentView::EndOfDisplaySet) {
                        let j = choose|j: int|
                            0 <= j < u.len() && u[j] == SegmentView::EndOfDisplaySet;
                        if j < i {
                            assert(t[j] == SegmentView::EndOfDisplaySet);
                        }
                    }
                }
            }
            match &field.segments[i] {
                Segment::Page { page_time_out: time_out, bytes } => {
                    self.page_time_out = *time_out;
                    self.page_bytes = Some(vstd::slice::slice_to_vec(bytes.as_slice()));
                },
                Segment::Region { region_id, bytes } => {
                    let copy: Vec<u8> = vstd::slice::slice_to_vec(bytes.as_slice());
                    self.region_bytes.insert(*region_id, copy);
                    assert(self@.regions =~= so_far.regions.insert(*region_id, bytes@));
                },
                Segment::Clut { bytes } => {
                    self.clut_bytes = Some(vstd::slice::slice_to_vec(bytes.as_slice()));
                },
                Segment::Object { object_id, bytes } => {
                    let copy: Vec<u8> = vstd::slice::slice_to_vec(bytes.as_slice());
                    self.object_bytes.insert(*object_id, copy);
                    assert(self@.objects =~= so_far.objects.insert(*object_id, bytes@));
                },
                Segment::EndOfDisplaySet => {
                    has_end = true;
                },
                Segment::Other => {},
            }
            assert(self@ == with_segment(so_far, segment));
            i = i + 1;
        }
        assert(segments.take(i as int) =~= segments);
        has_end
    }

    /// Drops what belongs to one display set, keeping the CLUT.
    fn end_display_set(&mut self)
        ensures
            final(self)@ == (CompositorView {
                regions: Map::empty(),
                objects: Map::empty(),
                page: None,
                page_time_out: 0,
                ..old(self)@
            }),
    {
        self.region_bytes.clear();
        self.object_bytes.clear();
        self.page_bytes = None;
        self.page_time_out = 0;
        assert(self@.regions =~= Map::empty());
        assert(self@.objects =~= Map::empty());
    }

    /// Feed a parsed PES data field for the given PID and PTS.
    ///
    /// Segments are accumulated until the end of the display set, which
    /// triggers compositing and queues a [`CompositedCue`]. Returns `false`
    /// where a display set cannot be composited because a bitmap does not fit
    /// in memory; its segments then stay collected.
    pub fn feed_pes(
        &mut self,
        pid: u16,
        pts_ticks: Option<u64>,
        field: &PesDataField,
    ) -> (done: bool)
        ensures
            if done {
                fed(old(self)@, pid, pts_ticks, segment_views(field.segments@)) == Outcome::Done(
                    final(self)@,
                )
            } else {
                &&& fed(old(self)@, pid, pts_ticks, segment_views(field.segments@)) is TooLarge
                &&& final(self)@ == with_segments(old(self)@, segment_views(field.segments@))
            },
    {
        let start_pts: u64 = match pts_ticks {
            Some(pts) => pts,
            None => 0,
        };
        let has_end: bool = self.collect(field);
        if has_end {
            let ghost collected = self@;
            match self.composite(pid, start_pts) {
                Outcome::Done(cue) => {
                    let ghost view = cue.view();
                    self.pending_cues.push(cue);
                    assert(self@.cues =~= collected.cues.push(view));
                },
                Outcome::Missing => {},
                Outcome::TooLarge => {
                    return false;
                },
            }
            self.end_display_set();
        }
        true
    }

    /// Take all pending composited cues since last call.
    pub fn take_cues(&mut self) -> (cues: Vec<CompositedCue>)
        ensures
            cue_views(cues@) == old(self)@.cues,
            final(self)@ == (CompositorView { cues: Seq::empty(), ..old(self)@ }),
    {
        let mut cues: Vec<CompositedCue> = Vec::new();
        std::mem::swap(&mut cues, &mut self.pending_cues);
        assert(self@.cues =~= Seq::empty());
        cues
    }

    /// Composite current state into a cue.
    fn composite(&self, pid: u16, start_pts: u64) -> (cue: Outcome<CompositedCue>)
        ensures
            match cue {
                Outcome::Done(c) => composite_of(self@, pid, start_pts)
                    == Outcome::Done(c.view()),
                Outcome::Missing => composite_of(self@, pid, start_pts) is Missing,
                Outcome::TooLarge => composite_of(self@, pid, start_pts) is TooLarge,
            },
    {
        let entries: Vec<ClutEntry> = match &self.clut_bytes {
            Some(bytes) => match parse_clut(bytes.as_slice()) {
                Some(e) => e,
                None => {
                    return Outcome::Missing;
                },
            },
            None => {
                return Outcome::Missing;
            },
        };
        let page: Vec<PageRegion> = match &self.page_bytes {
            Some(bytes) => match parse_page(bytes.as_slice()) {
                Some(p) => p,
                None => {
                    return Outcome::Missing;
                },
            },
            None => {
                return Outcome::Missing;
            },
        };
        let palette: Vec<[u8; 4]> = build_palette(&entries);
        let regions: Vec<CompositedRegion> = match self.composite_page(&page, &palette) {
            Outcome::Done(r) => r,
            Outcome::Missing => {
                return Outcome::Missing;
            },
            Outcome::TooLarge => {
                return Outcome::TooLarge;
            },
        };
        if regions.len() == 0 {
            return Outcome::Missing;
        }
        let end: u64 = start_pts.saturating_add(self.page_time_out as u64 * 90_000);
        Outcome::Done(CompositedCue { start_pts, end_pts: end, pid, regions })
    }

    /// Composes the regions of a page, in order.
    fn composite_page(&self, page: &Vec<PageRegion>, palette: &Vec<[u8; 4]>) -> (pictures: Outcome<
        Vec<CompositedRegion>,
    >)
        requires
            palette@.len() == PALETTE_LEN,
        ensures
            match pictures {
                Outcome::Done(p) => page_pictures(
                    page@,
                    self@.regions,
                    self@.objects,
                    palette_view(palette@),
                ) == Outcome::Done(picture_views(p@)),
                Outcome::Missing => page_pictures(
                    page@,
                    self@.regions,
                    self@.objects,
                    palette_view(palette@),
                ) is Missing,
                Outcome::TooLarge => page_pictures(
                    page@,
                    self@.regions,
                    self@.objects,
                    palette_view(palette@),
                ) is TooLarge,
            },
    {
        let ghost regions = self@.regions;
        let ghost objects = self@.objects;
        let ghost pal = palette_view(palette@);
        let mut out: Vec<CompositedRegion> = Vec::new();
        let mut i: usize = 0;
        assert(page@.take(0) =~= Seq::<PageRegion>::empty());
        assert(picture_views(out@) =~= Seq::empty());
        while i < page.len()
            invariant
                regions == self@.regions,
                objects == self@.objects,
                pal == palette_view(palette@),
                palette@.len() == PALETTE_LEN,
                i <= page@.len(),
                page_pictures(page@.take(i as int), regions, objects, pal) == Outcome::Done(
                    picture_views(out@),
                ),
            decreases page@.len() - i,
        {
            let page_region: PageRegion = page[i];
            proof {
                assert(page@.take(i + 1).drop_last() =~= page@.take(i as int));
                assert(page@.take(i + 1).last() == page_region);
                assert(page_pictures(page@.take(i + 1), regions, objects, pal) == with_region(
                    picture_views(out@),
                    page_region,
                    regions,
                    objects,
                    pal,
                ));
                if !(with_region(
                    picture_views(out@),
                    page_region,
                    regions,
                    objects,
                    pal,
                ) is Done) {
                    lemma_pictures_stop(page@, regions, objects, pal, i + 1);
                }
            }
            let bytes: &Vec<u8> = match self.region_bytes.get(&page_region.region_id) {
                Some(b) => b,
                None => {
                    return Outcome::Missing;
                },
            };
            assert(regions[page_region.region_id] == bytes@);
            let region: RegionDefinition = match parse_region(bytes.as_slice()) {
                Some(r) => r,
                None => {
                    return Outcome::Missing;
                },
            };
            if region.width != 0 && region.height != 0 {
                match render_region(&region, &self.object_bytes, palette) {
                    Outcome::Done(rgba) => {
                        let ghost before = picture_views(out@);
                        let picture = CompositedRegion {
                            x: page_region.x,
                            y: page_region.y,
                            width: region.width,
                            height: region.height,
                            rgba,
                        };
                        let ghost view = picture.view();
                        out.push(picture);
                        assert(picture_views(out@) =~= before.push(view));
                    },
                    Outcome::Missing => {
                        return Outcome::Missing;
                    },
                    Outcome::TooLarge => {
                        return Outcome::TooLarge;
                    },
                }
            }
            i = i + 1;
        }
        assert(page@.take(i as int) =~= page@);
        Outcome::Done(out)
    }
}

impl Default for CompositorState {
    fn default() -> (state: Self)
        ensures
            state@ == cleared(),
    {
        CompositorState::new()
    }
}

// ---------------------------------------------------------------------------
// Laws
// ---------------------------------------------------------------------------

/// Painting never changes the size of a buffer.
pub proof fn painting_keeps_size(
    len: int,
    width: int,
    list: Seq<RegionObject>,
    objects: Map<u16, Seq<u8>>,
    palette: Seq<Seq<u8>>,
)
    requires
        len >= 0,
    ensures
        with_objects(len, width, list, objects, palette) matches Outcome::Done(buf) ==> buf.len()
            == len,
    decreases list.len(),
{
    if list.len() > 0 {
        painting_keeps_size(len, width, list.drop_last(), objects, palette);
    }
}

/// Every region of a page comes out with an area, and with exactly four bytes
/// for each of its pixels.
pub proof fn pictures_are_well_sized(
    page: Seq<PageRegion>,
    regions: Map<u8, Seq<u8>>,
    objects: Map<u16, Seq<u8>>,
    palette: Seq<Seq<u8>>,
    i: int,
)
    ensures
        page_pictures(page, regions, objects, palette) matches Outcome::Done(pictures) ==> (0 <= i
            < pictures.len() ==> {
            &&& pictures[i].width > 0
            &&& pictures[i].height > 0
            &&& pictures[i].rgba.len() == pictures[i].width * pictures[i].height * 4
        }),
    decreases page.len(),
{
    if page.len() > 0 {
        pictures_are_well_sized(page.drop_last(), regions, objects, palette, i);
        let id = page.last().region_id;
        if let Some(region) = region_definition(regions[id]) {
            assert(region.width * region.height * 4 >= 0) by (nonlinear_arith)
                requires
                    region.width >= 0,
                    region.height >= 0,
            ;
            painting_keeps_size(
                region.width * region.height * 4,
                region.width as int,
                region.objects,
                objects,
                palette,
            );
        }
    }
}

/// A cue carries at least one region, starts where it was fed and does not end
/// before it starts.
pub proof fn cues_are_shown_forward(state: CompositorView, pid: u16, start_pts: u64)
    ensures
        composite_of(state, pid, start_pts) matches Outcome::Done(cue) ==> {
            &&& cue.regions.len() > 0
            &&& cue.start_pts == start_pts
            &&& cue.pid == pid
            &&& cue.start_pts <= cue.end_pts
            &&& state.page_time_out > 0 && start_pts < u64::MAX ==> cue.start_pts < cue.end_pts
        },
{
}

/// Without an end-of-display-set segment nothing is shown: the cues stay as
/// they were.
pub proof fn cues_wait_for_the_end(
    state: CompositorView,
    pid: u16,
    pts_ticks: Option<u64>,
    segments: Seq<SegmentView>,
)
    requires
        !ends_display_set(segments),
    ensures
        fed(state, pid, pts_ticks, segments) matches Outcome::Done(after) && after.cues
            == state.cues,
{
    lemma_collecting_keeps_cues(state, segments);
}

proof fn lemma_collecting_keeps_cues(state: CompositorView, segments: Seq<SegmentView>)
    ensures
        with_segments(state, segments).cues == state.cues,
    decreases segments.len(),
{
    if segments.len() > 0 {
        lemma_collecting_keeps_cues(state, segments.drop_last());
    }
}

/// A display set may be spread over several PES data fields: collecting the
/// segments of one field and then of another is collecting them all, so the
/// page time-out, too, lasts until the end of the display set.
pub proof fn segments_accumulate(
    state: CompositorView,
    first: Seq<SegmentView>,
    rest: Seq<SegmentView>,
)
    ensures
        with_segments(state, first + rest) == with_segments(with_segments(state, first), rest),
    decreases rest.len(),
{
    if rest.len() == 0 {
        assert(first + rest =~= first);
    } else {
        assert((first + rest).drop_last() =~= first + rest.drop_last());
        segments_accumulate(state, first, rest.drop_last());
    }
}

/// Where the segments of a display set come in does not change what it shows:
/// fed in two data fields, of which the second ends it, it makes the state
/// that it makes fed at once.
pub proof fn split_display_sets_show_the_same(
    state: CompositorView,
    pid: u16,
    pts_ticks: Option<u64>,
    first: Seq<SegmentView>,
    rest: Seq<SegmentView>,
)
    requires
        !ends_display_set(first),
        ends_display_set(rest),
    ensures
        ({
            let waiting = with_segments(state, first);
            &&& fed(state, pid, pts_ticks, first) == Outcome::Done(waiting)
            &&& fed(waiting, pid, pts_ticks, rest) == fed(state, pid, pts_ticks, first + rest)
        }),
{
    segments_accumulate(state, first, rest);
    let i = choose|i: int| 0 <= i < rest.len() && rest[i] == SegmentView::EndOfDisplaySet;
    assert((first + rest)[first.len() + i] == SegmentView::EndOfDisplaySet);
}

/// The end of a display set leaves nothing behind but its colours and cues:
/// the next display set starts afresh.
pub proof fn display_sets_are_separate(
    state: CompositorView,
    pid: u16,
    pts_ticks: Option<u64>,
    segments: Seq<SegmentView>,
)
    requires
        ends_display_set(segments),
    ensures
        fed(state, pid, pts_ticks, segments) matches Outcome::Done(after) ==> {
            &&& after.regions == Map::<u8, Seq<u8>>::empty()
            &&& after.objects == Map::<u16, Seq<u8>>::empty()
            &&& after.page is None
            &&& after.page_time_out == 0
            &&& after.clut == with_segments(state, segments).clut
            &&& state.cues.len() <= after.cues.len() <= state.cues.len() + 1
        },
{
    lemma_collecting_keeps_cues(state, segments);
}

/// A fully transparent colour leaves what is below it visible.
pub proof fn transparent_pixels_do_not_cover(
    buf: Seq<u8>,
    width: int,
    bitmap: BitmapView,
    ox: int,
    oy: int,
    palette: Seq<Seq<u8>>,
)
    requires
        palette.len() == PALETTE_LEN,
        forall|i: int| 0 <= i < palette.len() ==> #[trigger] palette[i][3] == 0,
    ensures
        painted(buf, width, bitmap, ox, oy, palette) == buf,
{
    assert(painted(buf, width, bitmap, ox, oy, palette) =~= buf);
}

} // verus!
