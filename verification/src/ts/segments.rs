//! DVB subtitling segments (EN 300 743 §7.2), as the compositor uses them.
//!
//! The segment syntax is read by `dvb_subtitle`; this module holds what comes
//! out of it as plain values.

use broadcast_common::traits::{Parse, Serialize};
use dvb_subtitle::{
    AnySegment, DataType as WireType, ObjectDataPayload as WirePayload, ObjectDataSegment as
    WireObject, PixelDataSubBlock as WireBlock,
};
use std::io::Read;
use vstd::prelude::*;

verus! {

/// A segment of a subtitle PES data field. What the compositor keeps of it is
/// its wire form.
pub enum Segment {
    /// Page composition: which regions make up the page, and its time-out.
    Page { page_time_out: u8, bytes: Vec<u8> },
    /// Region composition: the size of a region and the objects in it.
    Region { region_id: u8, bytes: Vec<u8> },
    /// CLUT definition: the colours.
    Clut { bytes: Vec<u8> },
    /// Object data: the pixels of an object.
    Object { object_id: u16, bytes: Vec<u8> },
    /// End of the display set.
    EndOfDisplaySet,
    /// Anything else.
    Other,
}

/// [`Segment`] as a mathematical value.
pub enum SegmentView {
    Page { page_time_out: u8, bytes: Seq<u8> },
    Region { region_id: u8, bytes: Seq<u8> },
    Clut { bytes: Seq<u8> },
    Object { object_id: u16, bytes: Seq<u8> },
    EndOfDisplaySet,
    Other,
}

impl Segment {
    pub open spec fn view(&self) -> SegmentView {
        match *self {
            Segment::Page { page_time_out, bytes } => SegmentView::Page {
                page_time_out,
                bytes: bytes@,
            },
            Segment::Region { region_id, bytes } => SegmentView::Region { region_id, bytes: bytes@ },
            Segment::Clut { bytes } => SegmentView::Clut { bytes: bytes@ },
            Segment::Object { object_id, bytes } => SegmentView::Object { object_id, bytes: bytes@ },
            Segment::EndOfDisplaySet => SegmentView::EndOfDisplaySet,
            Segment::Other => SegmentView::Other,
        }
    }
}

/// The segments of a list as mathematical values.
pub open spec fn segment_views(segments: Seq<Segment>) -> Seq<SegmentView> {
    Seq::new(segments.len(), |i: int| segments[i].view())
}

/// A parsed subtitle PES data field.
pub struct PesDataField {
    /// Its segments, in order of transmission.
    pub segments: Vec<Segment>,
}

/// The segments that `dvb_subtitle` finds in a PES data field, if it takes the
/// bytes for one and can write every segment back.
pub uninterp spec fn pes_segments(data: Seq<u8>) -> Option<Seq<SegmentView>>;

/// Parses a PES data field with `dvb_subtitle::PesDataField::parse` and hands
/// its segments out, each in the wire form that `to_bytes` gives it. The
/// result is what [`pes_segments`] names; it depends on `data` alone.
#[verifier::external_body]
fn parse_field(data: &[u8]) -> (segments: Option<Vec<Segment>>)
    ensures
        match segments {
            Some(s) => pes_segments(data@) == Some(segment_views(s@)),
            None => pes_segments(data@) is None,
        },
{
    let field = dvb_subtitle::PesDataField::parse(data).ok()?;
    field.segments.iter().map(|segment| Some(match segment {
        AnySegment::PageComposition(s) => Segment::Page { page_time_out: s.page_time_out, bytes: s.try_to_bytes().ok()? },
        AnySegment::RegionComposition(s) => Segment::Region { region_id: s.region_id, bytes: s.try_to_bytes().ok()? },
        AnySegment::ClutDefinition(s) => Segment::Clut { bytes: s.try_to_bytes().ok()? },
        AnySegment::ObjectData(s) => Segment::Object { object_id: s.object_id, bytes: s.try_to_bytes().ok()? },
        AnySegment::EndOfDisplaySet(_) => Segment::EndOfDisplaySet,
        _ => Segment::Other,
    })).collect()
}

impl PesDataField {
    /// Parse a DVB subtitle PES data field.
    pub fn parse(data: &[u8]) -> (field: Option<PesDataField>)
        ensures
            match field {
                Some(f) => pes_segments(data@) == Some(segment_views(f.segments@)),
                None => pes_segments(data@) is None,
            },
    {
        match parse_field(data) {
            Some(segments) => Some(PesDataField { segments }),
            None => None,
        }
    }
}

/// One colour of a CLUT.
#[derive(Debug, Clone, Copy, PartialEq, Eq)]
pub struct ClutEntry {
    pub id: u8,
    pub y: u8,
    pub cr: u8,
    pub cb: u8,
    pub t: u8,
}

/// A region placed on the page.
#[derive(Debug, Clone, Copy, PartialEq, Eq)]
pub struct PageRegion {
    pub region_id: u8,
    pub x: u16,
    pub y: u16,
}

/// An object placed in a region.
#[derive(Debug, Clone, Copy, PartialEq, Eq)]
pub struct RegionObject {
    pub object_id: u16,
    pub x: u16,
    pub y: u16,
}

/// A region: its size and the objects in it.
pub struct RegionDefinition {
    pub width: u16,
    pub height: u16,
    pub objects: Vec<RegionObject>,
}

/// [`RegionDefinition`] as a mathematical value.
pub struct RegionView {
    pub width: u16,
    pub height: u16,
    pub objects: Seq<RegionObject>,
}

impl RegionDefinition {
    pub open spec fn view(&self) -> RegionView {
        RegionView { width: self.width, height: self.height, objects: self.objects@ }
    }
}

/// How the bytes of a pixel-data sub-block are to be read.
#[derive(Debug, Clone, Copy, PartialEq, Eq, Structural)]
pub enum DataType {
    CodeString2Bit,
    CodeString4Bit,
    CodeString8Bit,
    EndOfLine,
    Other,
}

/// A pixel-data sub-block.
pub struct PixelDataSubBlock {
    pub data_type: DataType,
    pub data: Vec<u8>,
}

/// [`PixelDataSubBlock`] as a mathematical value.
pub struct SubBlockView {
    pub data_type: DataType,
    pub data: Seq<u8>,
}

impl PixelDataSubBlock {
    pub open spec fn view(&self) -> SubBlockView {
        SubBlockView { data_type: self.data_type, data: self.data@ }
    }
}

/// The sub-blocks of a list as mathematical values.
pub open spec fn block_views(blocks: Seq<PixelDataSubBlock>) -> Seq<SubBlockView> {
    Seq::new(blocks.len(), |i: int| blocks[i].view())
}

/// What an object-data segment holds, by its coding method.
pub enum ObjectDataPayload {
    /// Two interlaced fields of sub-blocks.
    InterlacedPixels { top: Vec<PixelDataSubBlock>, bottom: Vec<PixelDataSubBlock> },
    /// A zlib-compressed 8-bit/pixel code string.
    ProgressivePixels { bitmap_width: u16, bitmap_height: u16, compressed_data: Vec<u8> },
    /// Characters, or a reserved coding: nothing that is drawn.
    NotPixels,
}

/// [`ObjectDataPayload`] as a mathematical value.
pub enum PayloadView {
    InterlacedPixels { top: Seq<SubBlockView>, bottom: Seq<SubBlockView> },
    ProgressivePixels { bitmap_width: u16, bitmap_height: u16, compressed_data: Seq<u8> },
    NotPixels,
}

impl ObjectDataPayload {
    pub open spec fn view(&self) -> PayloadView {
        match *self {
            ObjectDataPayload::InterlacedPixels { top, bottom } => PayloadView::InterlacedPixels {
                top: block_views(top@),
                bottom: block_views(bottom@),
            },
            ObjectDataPayload::ProgressivePixels {
                bitmap_width,
                bitmap_height,
                compressed_data,
            } => PayloadView::ProgressivePixels {
                bitmap_width,
                bitmap_height,
                compressed_data: compressed_data@,
            },
            ObjectDataPayload::NotPixels => PayloadView::NotPixels,
        }
    }
}

/// The colours that `dvb_subtitle` reads from a CLUT-definition segment.
pub uninterp spec fn clut_entries(bytes: Seq<u8>) -> Option<Seq<ClutEntry>>;

/// Parses a CLUT-definition segment with
/// `dvb_subtitle::ClutDefinitionSegment::parse`. The result is what
/// [`clut_entries`] names; it depends on `bytes` alone.
#[verifier::external_body]
pub(crate) fn parse_clut(bytes: &[u8]) -> (entries: Option<Vec<ClutEntry>>)
    ensures
        match entries {
            Some(e) => clut_entries(bytes@) == Some(e@),
            None => clut_entries(bytes@) is None,
        },
{
    let clut = dvb_subtitle::ClutDefinitionSegment::parse(bytes).ok()?;
    Some(clut.entries.iter().map(|e| ClutEntry {
        id: e.clut_entry_id,
        y: e.y_value,
        cr: e.cr_value,
        cb: e.cb_value,
        t: e.t_value,
    }).collect())
}

/// The regions that `dvb_subtitle` reads from a page-composition segment.
pub uninterp spec fn page_regions(bytes: Seq<u8>) -> Option<Seq<PageRegion>>;

/// Parses a page-composition segment with
/// `dvb_subtitle::PageCompositionSegment::parse`. The result is what
/// [`page_regions`] names; it depends on `bytes` alone.
#[verifier::external_body]
pub(crate) fn parse_page(bytes: &[u8]) -> (regions: Option<Vec<PageRegion>>)
    ensures
        match regions {
            Some(r) => page_regions(bytes@) == Some(r@),
            None => page_regions(bytes@) is None,
        },
{
    let page = dvb_subtitle::PageCompositionSegment::parse(bytes).ok()?;
    Some(page.regions.iter().map(|r| PageRegion {
        region_id: r.region_id,
        x: r.region_horizontal_address,
        y: r.region_vertical_address,
    }).collect())
}

/// The region that `dvb_subtitle` reads from a region-composition segment.
pub uninterp spec fn region_definition(bytes: Seq<u8>) -> Option<RegionView>;

/// Parses a region-composition segment with
/// `dvb_subtitle::RegionCompositionSegment::parse`. The result is what
/// [`region_definition`] names; it depends on `bytes` alone.
#[verifier::external_body]
pub(crate) fn parse_region(bytes: &[u8]) -> (region: Option<RegionDefinition>)
    ensures
        match region {
            Some(r) => region_definition(bytes@) == Some(r.view()),
            None => region_definition(bytes@) is None,
        },
{
    let region = dvb_subtitle::RegionCompositionSegment::parse(bytes).ok()?;
    let objects = region.objects.iter().map(|o| RegionObject {
        object_id: o.object_id,
        x: o.object_horizontal_position,
        y: o.object_vertical_position,
    }).collect();
    Some(RegionDefinition { width: region.region_width, height: region.region_height, objects })
}

/// The object that `dvb_subtitle` reads from an object-data segment.
pub uninterp spec fn object_payload(bytes: Seq<u8>) -> Option<PayloadView>;

/// Parses an object-data segment with
/// `dvb_subtitle::ObjectDataSegment::parse`, whose payload follows from the
/// coding method. The result is what [`object_payload`] names; it depends on
/// `bytes` alone.
#[verifier::external_body]
pub(crate) fn parse_object(bytes: &[u8]) -> (object: Option<ObjectDataPayload>)
    ensures
        match object {
            Some(o) => object_payload(bytes@) == Some(o.view()),
            None => object_payload(bytes@) is None,
        },
{
    let kind = |t| match t {
        WireType::CodeString2Bit => DataType::CodeString2Bit,
        WireType::CodeString4Bit => DataType::CodeString4Bit,
        WireType::CodeString8Bit => DataType::CodeString8Bit,
        WireType::EndOfLine => DataType::EndOfLine,
        _ => DataType::Other,
    };
    let block = |b: &WireBlock| PixelDataSubBlock { data_type: kind(b.data_type), data: b.data.to_vec() };
    Some(match WireObject::parse(bytes).ok()?.payload {
        WirePayload::InterlacedPixels(p) => ObjectDataPayload::InterlacedPixels { top: p.top_sub_blocks.iter().map(block).collect(), bottom: p.bottom_sub_blocks.iter().map(block).collect() },
        WirePayload::ProgressivePixels(p) => ObjectDataPayload::ProgressivePixels { bitmap_width: p.bitmap_width, bitmap_height: p.bitmap_height, compressed_data: p.compressed_data.to_vec() },
        _ => ObjectDataPayload::NotPixels,
    })
}

/// What zlib decompression makes of `data`, if it is a complete zlib stream.
pub uninterp spec fn zlib_inflated(data: Seq<u8>) -> Option<Seq<u8>>;

/// Decompresses a zlib stream with `flate2::read::ZlibDecoder`. The result is
/// what [`zlib_inflated`] names; it depends on `data` alone.
#[verifier::external_body]
pub(crate) fn inflate(data: &[u8]) -> (inflated: Option<Vec<u8>>)
    ensures
        match inflated {
            Some(v) => zlib_inflated(data@) == Some(v@),
            None => zlib_inflated(data@) is None,
        },
{
    let mut out: Vec<u8> = Vec::new();
    flate2::read::ZlibDecoder::new(data).read_to_end(&mut out).ok()?;
    Some(out)
}

} // verus!
