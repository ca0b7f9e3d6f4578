//! What holds of the pictures that subtitle display sets make.

use vstd::prelude::*;
use crate::ts::pixel_codes::{pixels_2bit, pixels_4bit, pixels_8bit};
use crate::ts::segments::{
    clut_entries, object_payload, page_regions, region_definition, zlib_inflated, ClutEntry,
    DataType, PageRegion, PayloadView, RegionObject, SegmentView, SubBlockView,
};
use crate::ts::subtitle_compositor::{
    composite_of, ends_display_set, fed, field_pixels, field_width, first_row, lemma_row_index,
    lemma_rows_bound, object_bitmap, open_row, page_pictures, painted, palette_colour, palette_of,
    rgba_of, with_objects, with_segments, BitmapView, CompositorView, Outcome, PictureView,
};

verus! {

// ---------------------------------------------------------------------------
// Colours
// ---------------------------------------------------------------------------

/// Without chroma a colour is a grey of its luma, and the transparency comes
/// through as it is.
pub proof fn neutral_colours_are_grey(y: u8, t: u8)
    ensures
        ({
            let c = rgba_of(y as int, 128, 128, t as int);
            c.len() == 4 && c[0] == y && c[1] == y && c[2] == y && c[3] == t
        }),
{
}

/// Red does not depend on the blue difference, nor blue on the red difference.
/// More red difference gives no less red and no more green; more blue
/// difference gives no less blue and no more green; more luma darkens nothing.
pub proof fn chroma_moves_its_own_colour(y: u8, cr: u8, cb: u8, t: u8, more: u8)
    ensures
        ({
            let c = rgba_of(y as int, cr as int, cb as int, t as int);
            let redder = rgba_of(y as int, more as int, cb as int, t as int);
            let bluer = rgba_of(y as int, cr as int, more as int, t as int);
            let lighter = rgba_of(more as int, cr as int, cb as int, t as int);
            &&& redder[2] == c[2]
            &&& bluer[0] == c[0]
            &&& more >= cr ==> redder[0] >= c[0] && redder[1] <= c[1]
            &&& more >= cb ==> bluer[2] >= c[2] && bluer[1] <= c[1]
            &&& more >= y ==> lighter[0] >= c[0] && lighter[1] >= c[1] && lighter[2] >= c[2]
        }),
{
}

/// A colour channel is the BT.601 value rounded down wherever that is a byte:
/// red is luma and 1.402 times the red difference, blue is luma and 1.772 times
/// the blue difference, and green, to within one step, luma less 0.34414 times
/// the blue and 0.71414 times the red difference. Beyond a byte a channel stays
/// at the end of its range.
pub proof fn colours_follow_bt601(y: u8, cr: u8, cb: u8, t: u8)
    ensures
        ({
            let c = rgba_of(y as int, cr as int, cb as int, t as int);
            let red = 1000 * y + 1402 * (cr - 128);
            let blue = 1000 * y + 1772 * (cb - 128);
            let green = 100_000 * y - 34_414 * (cb - 128) - 71_414 * (cr - 128);
            &&& 0 <= red < 256_000 ==> 1000 * c[0] <= red < 1000 * c[0] + 1000
            &&& red < 0 ==> c[0] == 0
            &&& red >= 256_000 ==> c[0] == 255
            &&& 0 <= blue < 256_000 ==> 1000 * c[2] <= blue < 1000 * c[2] + 1000
            &&& blue < 0 ==> c[2] == 0
            &&& blue >= 256_000 ==> c[2] == 255
            &&& 0 <= green < 25_600_000 ==> 100_000 * c[1] <= green <= 100_000 * c[1] + 100_000
            &&& green < 0 ==> c[1] == 0
            &&& green >= 25_600_000 ==> c[1] == 255
            &&& c[3] == t
        }),
{
}

/// The last entry for an index gives its colour; an index without an entry is
/// fully transparent.
pub proof fn last_entry_gives_the_colour(entries: Seq<ClutEntry>, at: int, index: u8)
    ensures
        palette_of(entries).len() == 256,
        0 <= at < entries.len() && entries[at].id == index && (forall|j: int|
            at < j < entries.len() ==> (#[trigger] entries[j]).id != index)
            ==> palette_of(entries)[index as int] == rgba_of(
            entries[at].y as int,
            entries[at].cr as int,
            entries[at].cb as int,
            entries[at].t as int,
        ),
        (forall|j: int| 0 <= j < entries.len() ==> (#[trigger] entries[j]).id != index)
            ==> palette_of(entries)[index as int] == seq![0u8, 0u8, 0u8, 0u8],
{
    lemma_last_entry(entries, at, index);
}

proof fn lemma_last_entry(entries: Seq<ClutEntry>, at: int, index: u8)
    ensures
        0 <= at < entries.len() && entries[at].id == index && (forall|j: int|
            at < j < entries.len() ==> (#[trigger] entries[j]).id != index) ==> palette_colour(
            entries,
            index as int,
        ) == rgba_of(
            entries[at].y as int,
            entries[at].cr as int,
            entries[at].cb as int,
            entries[at].t as int,
        ),
        (forall|j: int| 0 <= j < entries.len() ==> (#[trigger] entries[j]).id != index)
            ==> palette_colour(entries, index as int) == seq![0u8, 0u8, 0u8, 0u8],
    decreases entries.len(),
{
    if entries.len() > 0 {
        let rest = entries.drop_last();
        lemma_last_entry(rest, at, index);
        assert(entries[entries.len() - 1] == entries.last());
        assert forall|j: int| 0 <= j < rest.len() implies rest[j] == entries[j] by {}
        if at < entries.len() - 1 && 0 <= at && entries[at].id == index && (forall|j: int|
            at < j < entries.len() ==> (#[trigger] entries[j]).id != index) {
            assert(rest[at] == entries[at]);
            assert forall|j: int| at < j < rest.len() implies (#[trigger] rest[j]).id != index by {
                assert(entries[j].id != index);
            }
        }
        if forall|j: int| 0 <= j < entries.len() ==> (#[trigger] entries[j]).id != index {
            assert forall|j: int| 0 <= j < rest.len() implies (#[trigger] rest[j]).id != index by {
                assert(entries[j].id != index);
            }
        }
    }
}

// ---------------------------------------------------------------------------
// Objects
// ---------------------------------------------------------------------------

/// A block of code strings.
pub open spec fn block_of(data_type: DataType, data: Seq<u8>) -> SubBlockView {
    SubBlockView { data_type, data }
}

/// The pixels of a field are those of its blocks, one block after another.
pub proof fn fields_join_their_blocks(first: Seq<SubBlockView>, rest: Seq<SubBlockView>)
    ensures
        field_pixels(first + rest) == field_pixels(first) + field_pixels(rest),
    decreases rest.len(),
{
    if rest.len() == 0 {
        assert(first + rest =~= first);
        assert(field_pixels(first) + field_pixels(rest) =~= field_pixels(first));
    } else {
        assert((first + rest).drop_last() =~= first + rest.drop_last());
        fields_join_their_blocks(first, rest.drop_last());
        assert(field_pixels(first + rest) =~= field_pixels(first) + field_pixels(rest));
    }
}

/// A block holds the pixels of its code string, read by the number of bits that
/// its type tells; any other block holds none.
pub proof fn blocks_are_read_by_their_type(data: Seq<u8>)
    ensures
        field_pixels(seq![block_of(DataType::CodeString2Bit, data)]) == pixels_2bit(data, 0),
        field_pixels(seq![block_of(DataType::CodeString4Bit, data)]) == pixels_4bit(data, 0),
        field_pixels(seq![block_of(DataType::CodeString8Bit, data)]) == pixels_8bit(data, 0),
        field_pixels(seq![block_of(DataType::EndOfLine, data)]).len() == 0,
        field_pixels(seq![block_of(DataType::Other, data)]).len() == 0,
{
    reveal_with_fuel(field_pixels, 2);
    assert forall|b: SubBlockView| #[trigger] seq![b].drop_last() =~= Seq::<
        SubBlockView,
    >::empty() by {}
    assert(seq![block_of(DataType::CodeString2Bit, data)].drop_last() =~= Seq::empty());
    assert(seq![block_of(DataType::CodeString4Bit, data)].drop_last() =~= Seq::empty());
    assert(seq![block_of(DataType::CodeString8Bit, data)].drop_last() =~= Seq::empty());
    assert(seq![block_of(DataType::EndOfLine, data)].drop_last() =~= Seq::empty());
    assert(seq![block_of(DataType::Other, data)].drop_last() =~= Seq::empty());
    assert(Seq::<u8>::empty() + pixels_2bit(data, 0) =~= pixels_2bit(data, 0));
    assert(Seq::<u8>::empty() + pixels_4bit(data, 0) =~= pixels_4bit(data, 0));
    assert(Seq::<u8>::empty() + pixels_8bit(data, 0) =~= pixels_8bit(data, 0));
}

/// Whether no block ends a line.
pub open spec fn one_line(blocks: Seq<SubBlockView>) -> bool {
    forall|i: int| 0 <= i < blocks.len() ==> (#[trigger] blocks[i]).data_type != DataType::EndOfLine
}

proof fn lemma_one_line(blocks: Seq<SubBlockView>)
    requires
        one_line(blocks),
    ensures
        open_row(blocks) == field_pixels(blocks).len(),
        first_row(blocks) is None,
    decreases blocks.len(),
{
    if blocks.len() > 0 {
        assert(blocks[blocks.len() - 1] == blocks.last());
        assert(one_line(blocks.drop_last())) by {
            assert forall|i: int| 0 <= i < blocks.drop_last().len() implies (
            #[trigger] blocks.drop_last()[i]).data_type != DataType::EndOfLine by {
                assert(blocks[i].data_type != DataType::EndOfLine);
            }
        }
        lemma_one_line(blocks.drop_last());
    }
}

proof fn lemma_first_row_stays(blocks: Seq<SubBlockView>, rest: Seq<SubBlockView>)
    requires
        first_row(blocks) is Some,
    ensures
        first_row(blocks + rest) == first_row(blocks),
    decreases rest.len(),
{
    if rest.len() == 0 {
        assert(blocks + rest =~= blocks);
    } else {
        assert((blocks + rest).drop_last() =~= blocks + rest.drop_last());
        lemma_first_row_stays(blocks, rest.drop_last());
    }
}

/// The width of a field is the number of pixels in its first line: all up to
/// the first end of a line, whatever comes behind it, or all there are.
pub proof fn first_line_gives_the_width(
    line: Seq<SubBlockView>,
    end: SubBlockView,
    rest: Seq<SubBlockView>,
)
    requires
        one_line(line),
        field_pixels(line).len() > 0,
        end.data_type == DataType::EndOfLine,
    ensures
        field_width(line) == field_pixels(line).len(),
        field_width(line + seq![end] + rest) == field_pixels(line).len(),
{
    lemma_one_line(line);
    let closed = line + seq![end];
    assert(closed.drop_last() =~= line);
    assert(closed.last() == end);
    lemma_first_row_stays(closed, rest);
}

/// Lines without pixels before the first line with some do not change the
/// width.
pub proof fn empty_lines_have_no_width(end: SubBlockView, rest: Seq<SubBlockView>)
    requires
        end.data_type == DataType::EndOfLine,
    ensures
        field_width(seq![end] + rest) == field_width(rest),
        field_pixels(seq![end] + rest) == field_pixels(rest),
{
    lemma_leading_end(end, rest);
    fields_join_their_blocks(seq![end], rest);
    blocks_are_read_by_their_type(end.data);
    assert(seq![end] =~= seq![block_of(DataType::EndOfLine, end.data)]);
    assert(field_pixels(seq![end]) + field_pixels(rest) =~= field_pixels(rest));
}

proof fn lemma_leading_end(end: SubBlockView, rest: Seq<SubBlockView>)
    requires
        end.data_type == DataType::EndOfLine,
    ensures
        open_row(seq![end] + rest) == open_row(rest),
        first_row(seq![end] + rest) == first_row(rest),
    decreases rest.len(),
{
    let all = seq![end] + rest;
    if rest.len() == 0 {
        assert(all.drop_last() =~= Seq::empty());
        assert(all.last() == end);
        reveal_with_fuel(first_row, 2);
        reveal_with_fuel(open_row, 2);
    } else {
        assert(all.drop_last() =~= seq![end] + rest.drop_last());
        assert(all.last() == rest.last());
        lemma_leading_end(end, rest.drop_last());
    }
}

proof fn lemma_width_of_pixels(blocks: Seq<SubBlockView>)
    ensures
        0 <= open_row(blocks) <= field_pixels(blocks).len(),
        first_row(blocks) matches Some(w) ==> 0 < w <= field_pixels(blocks).len(),
        first_row(blocks) is None ==> open_row(blocks) == field_pixels(blocks).len(),
    decreases blocks.len(),
{
    if blocks.len() > 0 {
        lemma_width_of_pixels(blocks.drop_last());
    }
}

/// Lines are taken from the two fields in turn: line 2k of an interlaced object
/// is row k of its top field, and line 2k + 1 is row k of its bottom field. A
/// field that has no such row leaves its line at colour 0. There are twice as
/// many lines as the longer field has whole rows.
pub proof fn fields_alternate_by_line(
    top: Seq<SubBlockView>,
    bottom: Seq<SubBlockView>,
    bitmap: BitmapView,
    k: int,
    col: int,
)
    requires
        object_bitmap(PayloadView::InterlacedPixels { top, bottom }) == Outcome::Done(bitmap),
        0 <= k,
        0 <= col < bitmap.width,
    ensures
        bitmap.width == vstd::math::max(field_width(top), field_width(bottom)),
        bitmap.pixels.len() == bitmap.width * bitmap.height,
        bitmap.height % 2 == 0,
        (k + 1) * bitmap.width <= field_pixels(top).len() ==> 2 * k < bitmap.height
            && bitmap.pixels[(2 * k) * bitmap.width + col] == field_pixels(top)[k * bitmap.width
            + col],
        (k + 1) * bitmap.width <= field_pixels(bottom).len() ==> 2 * k + 1 < bitmap.height
            && bitmap.pixels[(2 * k + 1) * bitmap.width + col] == field_pixels(bottom)[k
            * bitmap.width + col],
        2 * k < bitmap.height && (k + 1) * bitmap.width > field_pixels(top).len()
            ==> bitmap.pixels[(2 * k) * bitmap.width + col] == 0,
        2 * k < bitmap.height && (k + 1) * bitmap.width > field_pixels(bottom).len()
            ==> bitmap.pixels[(2 * k + 1) * bitmap.width + col] == 0,
        2 * k < bitmap.height ==> (k + 1) * bitmap.width <= field_pixels(top).len() || (k + 1)
            * bitmap.width <= field_pixels(bottom).len(),
{
    let w = bitmap.width;
    let t = field_pixels(top);
    let b = field_pixels(bottom);
    lemma_width_of_pixels(top);
    lemma_width_of_pixels(bottom);
    lemma_rows_bound(t.len() as int, w);
    lemma_rows_bound(b.len() as int, w);
    lemma_fits(t.len() as int, w, k);
    lemma_fits(b.len() as int, w, k);
    if 2 * k + 1 < bitmap.height {
        lemma_row_index(bitmap.height, w, 2 * k, col);
        lemma_row_index(bitmap.height, w, 2 * k + 1, col);
        assert(bitmap.height * w == w * bitmap.height) by (nonlinear_arith);
        assert((2 * k) / 2 == k && (2 * k + 1) / 2 == k);
    }
}

/// A row fits in a field if and only if its number is below that of the whole
/// rows.
proof fn lemma_fits(len: int, width: int, k: int)
    requires
        width > 0,
        len >= 0,
        k >= 0,
    ensures
        (k + 1) * width <= len <==> k < len / width,
{
    lemma_rows_bound(len, width);
    vstd::arithmetic::div_mod::lemma_fundamental_div_mod(len, width);
    vstd::arithmetic::div_mod::lemma_mod_bound(len, width);
    let q = len / width;
    if k < q {
        assert((k + 1) * width <= q * width) by (nonlinear_arith)
            requires
                k + 1 <= q,
                width > 0,
        ;
    } else {
        assert((k + 1) * width >= q * width + width) by (nonlinear_arith)
            requires
                k >= q,
                width > 0,
        ;
        assert(width * q == q * width) by (nonlinear_arith);
    }
}

/// A progressive object has the size that it tells, and the pixels of its
/// inflated code string.
pub proof fn progressive_objects_are_inflated(width: u16, height: u16, data: Seq<u8>, inflated: Seq<u8>)
    requires
        zlib_inflated(data) == Some(inflated),
        width > 0,
        height > 0,
        pixels_8bit(inflated, 0).len() > 0,
    ensures
        object_bitmap(
            PayloadView::ProgressivePixels {
                bitmap_width: width,
                bitmap_height: height,
                compressed_data: data,
            },
        ) matches Outcome::Done(bitmap) && bitmap.width == width && bitmap.height == height
            && bitmap.pixels == pixels_8bit(inflated, 0),
{
}

// ---------------------------------------------------------------------------
// Regions
// ---------------------------------------------------------------------------

/// Where byte `c` of the pixel in column `x` and row `y` stands.
pub open spec fn byte_at(width: int, x: int, y: int, c: int) -> int {
    4 * (y * width + x) + c
}

/// Whether a bitmap, placed with its corner at (`ox`, `oy`), shows an opaque
/// colour at (`x`, `y`), and which palette index that is.
pub open spec fn covers(
    bitmap: BitmapView,
    palette: Seq<Seq<u8>>,
    ox: int,
    oy: int,
    x: int,
    y: int,
    index: int,
) -> bool {
    &&& ox <= x < ox + bitmap.width
    &&& oy <= y < oy + bitmap.height
    &&& (y - oy) * bitmap.width + (x - ox) < bitmap.pixels.len()
    &&& bitmap.pixels[(y - oy) * bitmap.width + (x - ox)] == index
    &&& palette[index][3] > 0
}

proof fn lemma_byte_at(width: int, height: int, x: int, y: int, c: int)
    requires
        0 <= x < width,
        0 <= y < height,
        0 <= c < 4,
    ensures
        0 <= byte_at(width, x, y, c) < width * height * 4,
        (byte_at(width, x, y, c) / 4) % width == x,
        (byte_at(width, x, y, c) / 4) / width == y,
        byte_at(width, x, y, c) % 4 == c,
{
    lemma_row_index(height, width, y, x);
    assert(height * width == width * height) by (nonlinear_arith);
}

/// A bitmap is drawn with its corner where it is placed: a pixel that it covers
/// with an opaque colour gets that colour, all four bytes of it, and every
/// other pixel stays as it was.
pub proof fn bitmaps_are_drawn_in_place(
    buf: Seq<u8>,
    width: int,
    height: int,
    bitmap: BitmapView,
    ox: int,
    oy: int,
    palette: Seq<Seq<u8>>,
    x: int,
    y: int,
    c: int,
)
    requires
        buf.len() == width * height * 4,
        0 <= x < width,
        0 <= y < height,
        0 <= c < 4,
    ensures
        ({
            let after = painted(buf, width, bitmap, ox, oy, palette);
            let at = byte_at(width, x, y, c);
            &&& after.len() == buf.len()
            &&& forall|index: int| #[trigger]
                covers(bitmap, palette, ox, oy, x, y, index) ==> after[at] == palette[index][c]
            &&& (forall|index: int| !#[trigger] covers(bitmap, palette, ox, oy, x, y, index))
                ==> after[at] == buf[at]
        }),
{
    lemma_byte_at(width, height, x, y, c);
    let src = (y - oy) * bitmap.width + (x - ox);
    if ox <= x < ox + bitmap.width && oy <= y < oy + bitmap.height && src < bitmap.pixels.len() {
        assert(covers(bitmap, palette, ox, oy, x, y, bitmap.pixels[src] as int) == (
        palette[bitmap.pixels[src] as int][3] > 0));
    }
}

/// The objects of a region are drawn one over another, each from the data of
/// its own number and at its own place, starting from full transparency. One
/// that is not made of pixels draws nothing, and without the data of an object
/// there is no picture.
pub proof fn later_objects_cover_earlier_ones(
    width: int,
    height: int,
    list: Seq<RegionObject>,
    object: RegionObject,
    objects: Map<u16, Seq<u8>>,
    palette: Seq<Seq<u8>>,
    below: Seq<u8>,
    bitmap: BitmapView,
    x: int,
    y: int,
    c: int,
)
    requires
        with_objects(width * height * 4, width, list, objects, palette) == Outcome::Done(below),
        below.len() == width * height * 4,
        0 <= x < width,
        0 <= y < height,
        0 <= c < 4,
    ensures
        list.len() == 0 ==> below[byte_at(width, x, y, c)] == 0,
        ({
            let drawn = with_objects(
                width * height * 4,
                width,
                list.push(object),
                objects,
                palette,
            );
            let at = byte_at(width, x, y, c);
            let known = objects.contains_key(object.object_id);
            let payload = object_payload(objects[object.object_id]);
            &&& !known ==> drawn is Missing
            &&& known && payload is None ==> drawn is Missing
            &&& known && payload == Some(PayloadView::NotPixels) ==> drawn == Outcome::Done(below)
            &&& known && payload is Some && !(payload->0 is NotPixels) && object_bitmap(payload->0)
                == Outcome::Done(bitmap) ==> (drawn matches Outcome::Done(after) && {
                &&& forall|index: int| #[trigger]
                    covers(bitmap, palette, object.x as int, object.y as int, x, y, index)
                        ==> after[at] == palette[index][c]
                &&& (forall|index: int|
                    !#[trigger] covers(
                        bitmap,
                        palette,
                        object.x as int,
                        object.y as int,
                        x,
                        y,
                        index,
                    )) ==> after[at] == below[at]
            })
        }),
{
    lemma_byte_at(width, height, x, y, c);
    assert(list.push(object).drop_last() =~= list);
    assert(list.push(object).last() == object);
    bitmaps_are_drawn_in_place(
        below,
        width,
        height,
        bitmap,
        object.x as int,
        object.y as int,
        palette,
        x,
        y,
        c,
    );
}

/// Each region of a page that has an area becomes one picture, in the order of
/// the page: placed where the page says, as large as the region, and holding
/// what the region's objects draw. A region without area is passed over, and
/// without the data of a region there are no pictures.
pub proof fn regions_become_pictures(
    page: Seq<PageRegion>,
    place: PageRegion,
    regions: Map<u8, Seq<u8>>,
    objects: Map<u16, Seq<u8>>,
    palette: Seq<Seq<u8>>,
    before: Seq<PictureView>,
    rgba: Seq<u8>,
)
    requires
        page_pictures(page, regions, objects, palette) == Outcome::Done(before),
    ensures
        page.len() == 0 ==> before.len() == 0,
        ({
            let after = page_pictures(page.push(place), regions, objects, palette);
            let known = regions.contains_key(place.region_id);
            let definition = region_definition(regions[place.region_id]);
            &&& !known || definition is None ==> after is Missing
            &&& known ==> (definition matches Some(region) ==> {
                &&& region.width == 0 || region.height == 0 ==> after == Outcome::Done(before)
                &&& region.width > 0 && region.height > 0 && region.width * region.height * 4
                    <= usize::MAX && with_objects(
                    region.width * region.height * 4,
                    region.width as int,
                    region.objects,
                    objects,
                    palette,
                ) == Outcome::Done(rgba) ==> (after matches Outcome::Done(pictures) && {
                    &&& pictures.len() == before.len() + 1
                    &&& forall|i: int|
                        0 <= i < before.len() ==> pictures[i] == #[trigger] before[i]
                    &&& pictures.last().x == place.x
                    &&& pictures.last().y == place.y
                    &&& pictures.last().width == region.width
                    &&& pictures.last().height == region.height
                    &&& pictures.last().rgba == rgba
                })
            })
        }),
{
    assert(page.push(place).drop_last() =~= page);
    assert(page.push(place).last() == place);
}

// ---------------------------------------------------------------------------
// Display sets
// ---------------------------------------------------------------------------

/// A cue shows the pictures of the last page in the colours of the last CLUT,
/// for as many seconds as the page's time-out says.
pub proof fn cues_show_the_page(
    state: CompositorView,
    pid: u16,
    start_pts: u64,
    clut: Seq<u8>,
    page: Seq<u8>,
    entries: Seq<ClutEntry>,
    places: Seq<PageRegion>,
    pictures: Seq<PictureView>,
)
    requires
        state.clut == Some(clut),
        state.page == Some(page),
        clut_entries(clut) == Some(entries),
        page_regions(page) == Some(places),
        page_pictures(places, state.regions, state.objects, palette_of(entries)) == Outcome::Done(
            pictures,
        ),
    ensures
        pictures.len() == 0 ==> composite_of(state, pid, start_pts) is Missing,
        pictures.len() > 0 ==> (composite_of(state, pid, start_pts) matches Outcome::Done(cue) && {
            &&& cue.regions == pictures
            &&& cue.pid == pid
            &&& cue.start_pts == start_pts
            &&& start_pts + 90_000 * state.page_time_out <= u64::MAX ==> cue.end_pts - cue.start_pts
                == 90_000 * state.page_time_out
        }),
{
}

/// Whether a segment is the last of those that `same` picks.
pub open spec fn is_last(
    segments: Seq<SegmentView>,
    at: int,
    same: spec_fn(SegmentView) -> bool,
) -> bool {
    &&& 0 <= at < segments.len()
    &&& same(segments[at])
    &&& forall|j: int| at < j < segments.len() ==> !same(#[trigger] segments[j])
}

/// Whether no segment is picked by `same`.
pub open spec fn has_none(segments: Seq<SegmentView>, same: spec_fn(SegmentView) -> bool) -> bool {
    forall|j: int| 0 <= j < segments.len() ==> !same(#[trigger] segments[j])
}

/// Whether a segment is a page composition.
pub open spec fn is_page() -> spec_fn(SegmentView) -> bool {
    |s: SegmentView| s is Page
}

/// Whether a segment is a CLUT definition.
pub open spec fn is_clut() -> spec_fn(SegmentView) -> bool {
    |s: SegmentView| s is Clut
}

/// Whether a segment composes this region.
pub open spec fn is_region(id: u8) -> spec_fn(SegmentView) -> bool {
    |s: SegmentView| s matches SegmentView::Region { region_id, .. } && region_id == id
}

/// Whether a segment holds this object.
pub open spec fn is_object(id: u16) -> spec_fn(SegmentView) -> bool {
    |s: SegmentView| s matches SegmentView::Object { object_id, .. } && object_id == id
}

proof fn lemma_drop_last(segments: Seq<SegmentView>, at: int, same: spec_fn(SegmentView) -> bool)
    requires
        segments.len() > 0,
    ensures
        is_last(segments, at, same) && at < segments.len() - 1 ==> is_last(
            segments.drop_last(),
            at,
            same,
        ) && !same(segments.last()),
        is_last(segments, at, same) && at == segments.len() - 1 ==> same(segments.last()),
        has_none(segments, same) ==> has_none(segments.drop_last(), same) && !same(segments.last()),
{
    let rest = segments.drop_last();
    let n = segments.len() - 1;
    assert(segments[n] == segments.last());
    assert forall|j: int| 0 <= j < n implies #[trigger] rest[j] == segments[j] by {}
    if has_none(segments, same) {
        assert forall|j: int| 0 <= j < rest.len() implies !same(#[trigger] rest[j]) by {
            assert(!same(segments[j]));
        }
    }
    if is_last(segments, at, same) && at < n {
        assert forall|j: int| at < j < rest.len() implies !same(#[trigger] rest[j]) by {
            assert(!same(segments[j]));
        }
    }
}

/// Of the segments of each kind the last one counts: the last page composition
/// with its time-out, the last CLUT, and for each region and each object the
/// last segment of its number. What no segment touches stays.
pub proof fn last_segments_count(
    state: CompositorView,
    segments: Seq<SegmentView>,
    at: int,
    region: u8,
    object: u16,
)
    ensures
        ({
            let after = with_segments(state, segments);
            &&& is_last(segments, at, is_page()) ==> (segments[at] matches SegmentView::Page {
                page_time_out,
                bytes,
            } && after.page == Some(bytes) && after.page_time_out == page_time_out)
            &&& has_none(segments, is_page()) ==> after.page == state.page && after.page_time_out
                == state.page_time_out
            &&& is_last(segments, at, is_clut()) ==> (segments[at] matches SegmentView::Clut {
                bytes,
            } && after.clut == Some(bytes))
            &&& has_none(segments, is_clut()) ==> after.clut == state.clut
            &&& is_last(segments, at, is_region(region)) ==> (segments[at] matches
                SegmentView::Region { bytes, .. } && after.regions.contains_key(region)
                && after.regions[region] == bytes)
            &&& has_none(segments, is_region(region)) ==> after.regions.contains_key(region)
                == state.regions.contains_key(region) && after.regions[region]
                == state.regions[region]
            &&& is_last(segments, at, is_object(object)) ==> (segments[at] matches
                SegmentView::Object { bytes, .. } && after.objects.contains_key(object)
                && after.objects[object] == bytes)
            &&& has_none(segments, is_object(object)) ==> after.objects.contains_key(object)
                == state.objects.contains_key(object) && after.objects[object]
                == state.objects[object]
            &&& after.cues == state.cues
        }),
    decreases segments.len(),
{
    if segments.len() > 0 {
        last_segments_count(state, segments.drop_last(), at, region, object);
        lemma_drop_last(segments, at, is_page());
        lemma_drop_last(segments, at, is_clut());
        lemma_drop_last(segments, at, is_region(region));
        lemma_drop_last(segments, at, is_object(object));
        assert(at < segments.len() - 1 && 0 <= at ==> segments.drop_last()[at] == segments[at]);
        assert(at == segments.len() - 1 ==> segments.last() == segments[at]);
    }
}

/// A display set ends with its end segment, wherever that stands among those
/// that come with it, and with no other. Without it what came is kept.
pub proof fn only_the_end_segment_ends_a_set(
    state: CompositorView,
    pid: u16,
    pts: Option<u64>,
    before: Seq<SegmentView>,
    after: Seq<SegmentView>,
)
    ensures
        ends_display_set(before + seq![SegmentView::EndOfDisplaySet] + after),
        (forall|i: int| 0 <= i < before.len() ==> !(#[trigger] before[i] is EndOfDisplaySet)) ==> {
            &&& !ends_display_set(before)
            &&& fed(state, pid, pts, before) == Outcome::Done(with_segments(state, before))
        },
{
    let all = before + seq![SegmentView::EndOfDisplaySet] + after;
    assert(all[before.len() as int] == SegmentView::EndOfDisplaySet);
}

/// The end of a display set queues its cue behind those that wait: with the
/// PID, starting at the time of the data field that ends it, or at zero. A set that makes
/// no cue queues none, and the colours are kept for the next.
pub proof fn display_sets_queue_their_cue(
    state: CompositorView,
    pid: u16,
    pts: Option<u64>,
    segments: Seq<SegmentView>,
    after: CompositorView,
)
    requires
        ends_display_set(segments),
        fed(state, pid, pts, segments) == Outcome::Done(after),
    ensures
        match composite_of(
            with_segments(state, segments),
            pid,
            if pts is Some {
                pts->0
            } else {
                0
            },
        ) {
            Outcome::Done(cue) => {
                &&& after.cues.len() == state.cues.len() + 1
                &&& after.cues.last() == cue
                &&& pts is Some ==> cue.start_pts == pts->0
                &&& pts is None ==> cue.start_pts == 0
                &&& cue.pid == pid
            },
            _ => after.cues.len() == state.cues.len(),
        },
        forall|i: int| 0 <= i < state.cues.len() ==> after.cues[i] == #[trigger] state.cues[i],
        after.clut == with_segments(state, segments).clut,
{
    last_segments_count(state, segments, 0, 0, 0);
}

} // verus!
