//! The decoded segments of a PGS stream, their models, and the decoding of
//! segments and display sets from bytes.

use vstd::prelude::*;

use crate::error::DecodeError;
use crate::wire;
use crate::wire::Wire;

verus! {

#[derive(Debug, Clone, Copy, PartialEq, Eq, Hash, Structural)]
pub enum CompositionState {
    Normal,
    AcquisitionPoint,
    EpochStart,
}

#[derive(Debug, Clone, Copy, PartialEq, Eq, Structural)]
pub enum LastInSequenceFlag {
    Last,
    First,
    FirstAndLast,
}

#[derive(Debug, Clone, Copy, PartialEq, Eq, Structural)]
pub struct CompositionObjectCropping {
    pub width: u16,
    pub height: u16,
    pub horizontal_position: u16,
    pub vertical_position: u16,
}

#[derive(Debug, Clone, Copy, PartialEq, Eq, Structural)]
pub struct CompositionObject {
    pub object_id: u16,
    pub window_id: u8,
    pub horizontal_position: u16,
    pub vertical_position: u16,
    pub cropping: Option<CompositionObjectCropping>,
}

#[derive(Debug, Clone, Copy, PartialEq, Eq, Structural)]
pub struct Window {
    /// uniquely identifies the window in the epoch
    pub window_id: u8,
    /// range of 1 to (video width)-(window horizontal position)
    pub width: u16,
    /// range of 1 to (video height)-(window vertical position)
    pub height: u16,
    /// top left pixel position
    pub horizontal_position: u16,
    /// top left pixel position
    pub vertical_position: u16,
}

#[derive(Debug, Default, Clone, Copy, PartialEq, Eq, Structural)]
pub struct PaletteEntry {
    pub entry_id: u8,
    pub luminance: u8,
    pub color_diff_red: u8,
    pub color_diff_blue: u8,
    pub transparency: u8,
}

#[derive(Debug, Clone, Copy, PartialEq, Eq, Structural)]
pub struct Header {
    /// presentation time stamp (measured in ticks of 90khz clock)
    pub pts: u32,
    /// decoding time stamp (measured in ticks of 90khz clock)
    pub dts: u32,
}

impl From<wire::SegmentHeader> for Header {
    fn from(value: wire::SegmentHeader) -> (r: Self)
        ensures
            r.pts == value.pts && r.dts == value.dts,
    {
        Header { pts: value.pts, dts: value.dts }
    }
}

impl vstd::std_specs::convert::FromSpecImpl<wire::SegmentHeader> for Header {
    open spec fn obeys_from_spec() -> bool {
        true
    }

    open spec fn from_spec(v: wire::SegmentHeader) -> Self {
        Header { pts: v.pts, dts: v.dts }
    }
}

/// Presentation Composition Segment
#[derive(Debug, Clone)]
pub struct PCS {
    pub header: Header,
    pub width: u16,
    pub height: u16,
    /// identifies this Graphics Update in the current Display Segment.
    pub composition_number: u16,
    pub composition_state: CompositionState,
    /// indicates if this PCS describes a Palette only Display Update
    pub palette_update: bool,
    /// identifies the palette used by the objects of this display set
    pub palette_id: u8,
    pub composition_objects: Vec<CompositionObject>,
}

/// Window Definition Segment
#[derive(Debug, Clone)]
pub struct WDS {
    pub header: Header,
    pub windows: Vec<Window>,
}

/// Palette Definition Segment
#[derive(Debug, Clone)]
pub struct PDS {
    pub header: Header,
    /// uniquely identifies the palette in the epoch
    pub palette_id: u8,
    /// version of the palette within the epoch
    pub palette_version: u8,
    pub entries: [PaletteEntry; 256],
}

/// Object Definition Segment
#[derive(Debug, Clone)]
pub struct ODS {
    pub header: Header,
    /// uniquely identifies this object in the epoch.
    pub object_id: u16,
    /// version of the object within the epoch
    pub object_version: u8,
    pub last_in_sequence: LastInSequenceFlag,
    /// the width for an object id should always be the same for a given epoch.
    pub width: u16,
    /// the height for an object id should always be the same for a given epoch.
    pub height: u16,
    /// run-length image data
    pub data: Vec<u8>,
}

/// END of display set segment
#[derive(Debug, Clone, Copy, PartialEq, Eq, Structural)]
pub struct END {
    pub header: Header,
}

#[derive(Debug, Clone)]
pub enum Segment {
    PCS(PCS),
    WDS(WDS),
    PDS(PDS),
    ODS(ODS),
    END(END),
}

#[derive(Debug, Clone)]
pub struct DisplaySet {
    pub pcs: PCS,
    pub wds: Vec<WDS>,
    pub pds: Vec<PDS>,
    pub ods: Vec<ODS>,
    pub end: END,
}

/// The model of a [`PCS`], its vectors as sequences.
pub struct PCSView {
    pub header: Header,
    pub width: u16,
    pub height: u16,
    pub composition_number: u16,
    pub composition_state: CompositionState,
    pub palette_update: bool,
    pub palette_id: u8,
    pub composition_objects: Seq<CompositionObject>,
}

/// The model of a [`WDS`], its vectors as sequences.
pub struct WDSView {
    pub header: Header,
    pub windows: Seq<Window>,
}

/// The model of a [`PDS`], its vectors as sequences.
pub struct PDSView {
    pub header: Header,
    pub palette_id: u8,
    pub palette_version: u8,
    pub entries: Seq<PaletteEntry>,
}

/// The model of a [`ODS`], its vectors as sequences.
pub struct ODSView {
    pub header: Header,
    pub object_id: u16,
    pub object_version: u8,
    pub last_in_sequence: LastInSequenceFlag,
    pub width: u16,
    pub height: u16,
    pub data: Seq<u8>,
}

/// The model of a [`Segment`], its vectors as sequences.
pub enum SegmentView {
    PCS(PCSView),
    WDS(WDSView),
    PDS(PDSView),
    ODS(ODSView),
    END(END),
}

/// The model of a [`DisplaySet`], its vectors as sequences.
pub struct DisplaySetView {
    pub pcs: PCSView,
    pub wds: Seq<WDSView>,
    pub pds: Seq<PDSView>,
    pub ods: Seq<ODSView>,
    pub end: END,
}

impl View for PCS {
    type V = PCSView;

    open spec fn view(&self) -> PCSView {
        PCSView {
            header: self.header,
            width: self.width,
            height: self.height,
            composition_number: self.composition_number,
            composition_state: self.composition_state,
            palette_update: self.palette_update,
            palette_id: self.palette_id,
            composition_objects: self.composition_objects@,
        }
    }
}

impl View for WDS {
    type V = WDSView;

    open spec fn view(&self) -> WDSView {
        WDSView { header: self.header, windows: self.windows@ }
    }
}

impl View for PDS {
    type V = PDSView;

    open spec fn view(&self) -> PDSView {
        PDSView {
            header: self.header,
            palette_id: self.palette_id,
            palette_version: self.palette_version,
            entries: self.entries@,
        }
    }
}

impl View for ODS {
    type V = ODSView;

    open spec fn view(&self) -> ODSView {
        ODSView {
            header: self.header,
            object_id: self.object_id,
            object_version: self.object_version,
            last_in_sequence: self.last_in_sequence,
            width: self.width,
            height: self.height,
            data: self.data@,
        }
    }
}

impl View for Segment {
    type V = SegmentView;

    open spec fn view(&self) -> SegmentView {
        match self {
            Segment::PCS(s) => SegmentView::PCS(s@),
            Segment::WDS(s) => SegmentView::WDS(s@),
            Segment::PDS(s) => SegmentView::PDS(s@),
            Segment::ODS(s) => SegmentView::ODS(s@),
            Segment::END(s) => SegmentView::END(*s),
        }
    }
}

impl View for DisplaySet {
    type V = DisplaySetView;

    open spec fn view(&self) -> DisplaySetView {
        DisplaySetView {
            pcs: self.pcs@,
            wds: self.wds@.map_values(|w: WDS| w@),
            pds: self.pds@.map_values(|p: PDS| p@),
            ods: self.ods@.map_values(|o: ODS| o@),
            end: self.end,
        }
    }
}

/// A palette entry that no palette definition has set.
pub open spec fn blank_entry() -> PaletteEntry {
    PaletteEntry { entry_id: 0, luminance: 0, color_diff_red: 0, color_diff_blue: 0, transparency: 0 }
}

/// The composition object that a raw one stands for, or the error for its cropped flag.
pub open spec fn composition_object_of(o: wire::CompositionObject) -> Result<CompositionObject, DecodeError> {
    let cropping = CompositionObjectCropping {
        width: o.object_cropping_width,
        height: o.object_cropping_height,
        horizontal_position: o.object_cropping_horizontal_position,
        vertical_position: o.object_cropping_vertical_position,
    };
    if o.object_cropped_flag == wire::OBJECT_CROPPED_FLAG_OFF {
        Ok(CompositionObject {
            object_id: o.object_id,
            window_id: o.window_id,
            horizontal_position: o.object_horizontal_position,
            vertical_position: o.object_vertical_position,
            cropping: None,
        })
    } else if o.object_cropped_flag == wire::OBJECT_CROPPED_FLAG_FORCE {
        Ok(CompositionObject {
            object_id: o.object_id,
            window_id: o.window_id,
            horizontal_position: o.object_horizontal_position,
            vertical_position: o.object_vertical_position,
            cropping: Some(cropping),
        })
    } else {
        Err(DecodeError::InvalidCroppedFlag)
    }
}

/// The `count` composition objects from `pos` in `b`, appended to `acc`.
pub open spec fn parse_objects(b: Seq<u8>, pos: int, count: nat, acc: Seq<CompositionObject>) -> Result<
    Seq<CompositionObject>,
    DecodeError,
>
    decreases count,
{
    if count == 0 {
        Ok(acc)
    } else {
        match wire::CompositionObject::parse(b.skip(pos)) {
            None => Err(DecodeError::UnexpectedEof),
            Some((o, n)) => match composition_object_of(o) {
                Err(e) => Err(e),
                Ok(co) => parse_objects(b, pos + n, (count - 1) as nat, acc.push(co)),
            },
        }
    }
}

/// The `count` windows from `pos` in `b`, appended to `acc`.
pub open spec fn parse_windows(b: Seq<u8>, pos: int, count: nat, acc: Seq<Window>) -> Result<
    Seq<Window>,
    DecodeError,
>
    decreases count,
{
    if count == 0 {
        Ok(acc)
    } else {
        match wire::Window::parse(b.skip(pos)) {
            None => Err(DecodeError::UnexpectedEof),
            Some((w, n)) => parse_windows(
                b,
                pos + n,
                (count - 1) as nat,
                acc.push(
                    Window {
                        window_id: w.window_id,
                        width: w.window_width,
                        height: w.window_height,
                        horizontal_position: w.window_horizontal_position,
                        vertical_position: w.window_vertical_position,
                    },
                ),
            ),
        }
    }
}

/// The table `table` with the palette entries from `pos` to the end of `b` written
/// into it, each at its own id; a later entry for an id replaces an earlier one.
/// Each entry takes five bytes.
pub open spec fn fill_palette(b: Seq<u8>, pos: int, table: Seq<PaletteEntry>) -> Result<
    Seq<PaletteEntry>,
    DecodeError,
>
    decreases b.len() - pos,
{
    if pos >= b.len() {
        Ok(table)
    } else if b.len() - pos < 5 {
        Err(DecodeError::UnexpectedEof)
    } else {
        fill_palette(
            b,
            pos + 5,
            table.update(
                b[pos] as int,
                PaletteEntry {
                    entry_id: b[pos],
                    luminance: b[pos + 1],
                    color_diff_red: b[pos + 2],
                    color_diff_blue: b[pos + 3],
                    transparency: b[pos + 4],
                },
            ),
        )
    }
}

/// The number of run-length bytes of an object definition: its data length less
/// the four bytes of width and height, and none when it is shorter than that.
pub open spec fn ods_data_len(object_data_length: u32) -> nat {
    if object_data_length < 4 { 0 } else { (object_data_length - 4) as nat }
}

pub open spec fn parse_pcs(h: Header, b: Seq<u8>) -> Result<PCSView, DecodeError> {
    match wire::SegmentPCS::parse(b) {
        None => Err(DecodeError::UnexpectedEof),
        Some((p, n)) => match parse_objects(b, n as int, p.number_of_composition_objects as nat, seq![]) {
            Err(e) => Err(e),
            Ok(objects) => {
                if p.palette_update_flag != wire::PALETTE_UPDATE_FLAG_TRUE
                    && p.palette_update_flag != wire::PALETTE_UPDATE_FLAG_FALSE {
                    Err(DecodeError::InvalidPaletteUpdateFlag)
                } else if p.composition_state != wire::COMPOSITION_STATE_EPOCH_START
                    && p.composition_state != wire::COMPOSITION_STATE_ACQUISITION_POINT
                    && p.composition_state != wire::COMPOSITION_STATE_NORMAL {
                    Err(DecodeError::InvalidCompositionState)
                } else {
                    Ok(PCSView {
                        header: h,
                        width: p.width,
                        height: p.height,
                        composition_number: p.composition_number,
                        composition_state: if p.composition_state == wire::COMPOSITION_STATE_EPOCH_START {
                            CompositionState::EpochStart
                        } else if p.composition_state == wire::COMPOSITION_STATE_ACQUISITION_POINT {
                            CompositionState::AcquisitionPoint
                        } else {
                            CompositionState::Normal
                        },
                        palette_update: p.palette_update_flag == wire::PALETTE_UPDATE_FLAG_TRUE,
                        palette_id: p.palette_id,
                        composition_objects: objects,
                    })
                }
            },
        },
    }
}

pub open spec fn parse_wds(h: Header, b: Seq<u8>) -> Result<WDSView, DecodeError> {
    match wire::SegmentWDS::parse(b) {
        None => Err(DecodeError::UnexpectedEof),
        Some((w, n)) => match parse_windows(b, n as int, w.number_of_windows as nat, seq![]) {
            Err(e) => Err(e),
            Ok(windows) => Ok(WDSView { header: h, windows }),
        },
    }
}

pub open spec fn parse_pds(h: Header, b: Seq<u8>) -> Result<PDSView, DecodeError> {
    match wire::SegmentPDS::parse(b) {
        None => Err(DecodeError::UnexpectedEof),
        Some((p, n)) => match fill_palette(b, n as int, Seq::new(256, |i: int| blank_entry())) {
            Err(e) => Err(e),
            Ok(entries) => Ok(
                PDSView { header: h, palette_id: p.palette_id, palette_version: p.palette_version, entries },
            ),
        },
    }
}

pub open spec fn parse_ods(h: Header, b: Seq<u8>) -> Result<ODSView, DecodeError> {
    match wire::SegmentODS::parse(b) {
        None => Err(DecodeError::UnexpectedEof),
        Some((o, n)) => {
            let len = ods_data_len(o.object_data_length);
            if b.len() < n + len {
                Err(DecodeError::UnexpectedEof)
            } else if o.last_in_sequence_flag != wire::LAST_IN_SEQUENCE_FLAG_FIRST_IN_SEQ
                && o.last_in_sequence_flag != wire::LAST_IN_SEQUENCE_FLAG_LAST_IN_SEQ
                && o.last_in_sequence_flag != wire::LAST_IN_SEQUENCE_FLAG_FIRST_AND_LAST_IN_SEQ {
                Err(DecodeError::InvalidLastInSequenceFlag)
            } else {
                Ok(ODSView {
                    header: h,
                    object_id: o.object_id,
                    object_version: o.object_version,
                    last_in_sequence: if o.last_in_sequence_flag == wire::LAST_IN_SEQUENCE_FLAG_FIRST_IN_SEQ {
                        LastInSequenceFlag::First
                    } else if o.last_in_sequence_flag == wire::LAST_IN_SEQUENCE_FLAG_LAST_IN_SEQ {
                        LastInSequenceFlag::Last
                    } else {
                        LastInSequenceFlag::FirstAndLast
                    },
                    width: o.width,
                    height: o.height,
                    data: b.subrange(n as int, n + len as int),
                })
            }
        },
    }
}

/// The segment body `b` of a segment with header `h`, by the header's type.
pub open spec fn parse_body(h: wire::SegmentHeader, b: Seq<u8>) -> Result<SegmentView, DecodeError> {
    let header = Header { pts: h.pts, dts: h.dts };
    if h.segment_type == wire::SEGMENT_TYPE_PCS {
        match parse_pcs(header, b) {
            Ok(v) => Ok(SegmentView::PCS(v)),
            Err(e) => Err(e),
        }
    } else if h.segment_type == wire::SEGMENT_TYPE_WDS {
        match parse_wds(header, b) {
            Ok(v) => Ok(SegmentView::WDS(v)),
            Err(e) => Err(e),
        }
    } else if h.segment_type == wire::SEGMENT_TYPE_PDS {
        match parse_pds(header, b) {
            Ok(v) => Ok(SegmentView::PDS(v)),
            Err(e) => Err(e),
        }
    } else if h.segment_type == wire::SEGMENT_TYPE_ODS {
        match parse_ods(header, b) {
            Ok(v) => Ok(SegmentView::ODS(v)),
            Err(e) => Err(e),
        }
    } else if h.segment_type == wire::SEGMENT_TYPE_END {
        Ok(SegmentView::END(END { header }))
    } else {
        Err(DecodeError::InvalidSegmentType)
    }
}

/// The segment at the front of `b` and the number of bytes it takes: a 13-byte
/// header, then as many payload bytes as the header declares.
pub open spec fn parse_segment(b: Seq<u8>) -> Result<(SegmentView, nat), DecodeError> {
    match wire::SegmentHeader::parse(b) {
        None => Err(DecodeError::UnexpectedEof),
        Some((h, n)) => {
            if h.magic_number != wire::MAGIC_NUMBER {
                Err(DecodeError::InvalidMagic)
            } else if b.len() < n + h.segment_size {
                Err(DecodeError::UnexpectedEof)
            } else {
                match parse_body(h, b.subrange(n as int, n + h.segment_size as int)) {
                    Ok(s) => Ok((s, (n + h.segment_size) as nat)),
                    Err(e) => Err(e),
                }
            }
        },
    }
}

/// A decoded segment takes its 13 header bytes and its payload, and no more than `b`.
pub proof fn lemma_segment_len(b: Seq<u8>)
    ensures
        parse_segment(b) is Ok ==> 13 <= parse_segment(b)->Ok_0.1 <= b.len(),
{
}

/// The rest of a display set from `pos` in `b`, given its composition segment and
/// the definition segments met so far: segments up to the end segment, with
/// another composition segment an error.
pub open spec fn parse_set_rest(
    b: Seq<u8>,
    pos: int,
    pcs: PCSView,
    wds: Seq<WDSView>,
    pds: Seq<PDSView>,
    ods: Seq<ODSView>,
) -> Result<(DisplaySetView, nat), DecodeError>
    decreases b.len() - pos,
{
    if !(0 <= pos <= b.len()) {
        // never reached from a display set's start; keeps the definition total
        Err(DecodeError::UnexpectedEof)
    } else {
        proof {
            lemma_segment_len(b.skip(pos));
        }
        match parse_segment(b.skip(pos)) {
            Err(e) => Err(e),
            Ok((seg, n)) => match seg {
                SegmentView::PCS(_) => Err(DecodeError::UnexpectedPcs),
                SegmentView::WDS(w) => parse_set_rest(b, pos + n, pcs, wds.push(w), pds, ods),
                SegmentView::PDS(p) => parse_set_rest(b, pos + n, pcs, wds, pds.push(p), ods),
                SegmentView::ODS(o) => parse_set_rest(b, pos + n, pcs, wds, pds, ods.push(o)),
                SegmentView::END(end) => Ok((DisplaySetView { pcs, wds, pds, ods, end }, (pos + n) as nat)),
            },
        }
    }
}

/// The display set at the front of `b` and the number of bytes it takes: a
/// composition segment, window, palette and object definitions, and an end segment.
pub open spec fn parse_display_set(b: Seq<u8>) -> Result<(DisplaySetView, nat), DecodeError> {
    match parse_segment(b) {
        Err(e) => Err(e),
        Ok((SegmentView::PCS(pcs), n)) => parse_set_rest(b, n as int, pcs, seq![], seq![], seq![]),
        Ok(_) => Err(DecodeError::ExpectedPcs),
    }
}

proof fn lemma_set_rest_len(
    b: Seq<u8>,
    pos: int,
    pcs: PCSView,
    wds: Seq<WDSView>,
    pds: Seq<PDSView>,
    ods: Seq<ODSView>,
)
    ensures
        parse_set_rest(b, pos, pcs, wds, pds, ods) is Ok ==> pos
            < parse_set_rest(b, pos, pcs, wds, pds, ods)->Ok_0.1 <= b.len(),
    decreases b.len() - pos,
{
    if 0 <= pos <= b.len() {
        lemma_segment_len(b.skip(pos));
        match parse_segment(b.skip(pos)) {
            Err(e) => {},
            Ok((seg, n)) => match seg {
                SegmentView::WDS(w) => lemma_set_rest_len(b, pos + n, pcs, wds.push(w), pds, ods),
                SegmentView::PDS(p) => lemma_set_rest_len(b, pos + n, pcs, wds, pds.push(p), ods),
                SegmentView::ODS(o) => lemma_set_rest_len(b, pos + n, pcs, wds, pds, ods.push(o)),
                _ => {},
            },
        }
    }
}

/// A decoded display set takes at least one byte and no more than `b`.
pub proof fn lemma_display_set_len(b: Seq<u8>)
    ensures
        parse_display_set(b) is Ok ==> 0 < parse_display_set(b)->Ok_0.1 <= b.len(),
{
    lemma_segment_len(b);
    match parse_segment(b) {
        Ok((SegmentView::PCS(pcs), n)) => lemma_set_rest_len(b, n as int, pcs, seq![], seq![], seq![]),
        _ => {},
    }
}

/// The display sets from `pos` to the end of `b`, appended to `acc`. The stream
/// may end only where a display set does.
pub open spec fn parse_display_sets(b: Seq<u8>, pos: int, acc: Seq<DisplaySetView>) -> Result<
    Seq<DisplaySetView>,
    DecodeError,
>
    decreases b.len() - pos,
{
    if !(0 <= pos < b.len()) {
        Ok(acc)
    } else {
        proof {
            lemma_display_set_len(b.skip(pos));
        }
        match parse_display_set(b.skip(pos)) {
            Err(e) => Err(e),
            Ok((ds, n)) => parse_display_sets(b, pos + n, acc.push(ds)),
        }
    }
}

fn composition_object_from_wire(o: wire::CompositionObject) -> (r: Result<CompositionObject, DecodeError>)
    ensures
        r == composition_object_of(o),
{
    let cropping = CompositionObjectCropping {
        width: o.object_cropping_width,
        height: o.object_cropping_height,
        horizontal_position: o.object_cropping_horizontal_position,
        vertical_position: o.object_cropping_vertical_position,
    };
    let cropping = if o.object_cropped_flag == wire::OBJECT_CROPPED_FLAG_OFF {
        None
    } else if o.object_cropped_flag == wire::OBJECT_CROPPED_FLAG_FORCE {
        Some(cropping)
    } else {
        return Err(DecodeError::InvalidCroppedFlag);
    };
    Ok(CompositionObject {
        object_id: o.object_id,
        window_id: o.window_id,
        horizontal_position: o.object_horizontal_position,
        vertical_position: o.object_vertical_position,
        cropping,
    })
}

fn decode_pcs(header: Header, b: &[u8]) -> (r: Result<PCS, DecodeError>)
    ensures
        match parse_pcs(header, b@) {
            Ok(v) => r is Ok && r->Ok_0@ == v,
            Err(e) => r is Err && r->Err_0 == e,
        },
{
    proof {
        assert(b@.skip(0) =~= b@);
    }
    let (pcs, p) = match wire::SegmentPCS::read(b, 0) {
        Ok(v) => v,
        Err(e) => return Err(e),
    };
    let count = pcs.number_of_composition_objects;
    let mut objects: Vec<CompositionObject> = Vec::new();
    let mut pos = p;
    let mut i: u8 = 0;
    while i < count
        invariant
            pos <= b@.len(),
            i <= count,
            count == pcs.number_of_composition_objects,
            wire::SegmentPCS::parse(b@) == Some((pcs, 11nat)),
            parse_objects(b@, 11, count as nat, seq![]) == parse_objects(
                b@,
                pos as int,
                (count - i) as nat,
                objects@,
            ),
        decreases count - i,
    {
        let (o, np) = match wire::CompositionObject::read(b, pos) {
            Ok(v) => v,
            Err(e) => return Err(e),
        };
        let co = match composition_object_from_wire(o) {
            Ok(co) => co,
            Err(e) => return Err(e),
        };
        objects.push(co);
        pos = np;
        i = i + 1;
    }
    let palette_update = if pcs.palette_update_flag == wire::PALETTE_UPDATE_FLAG_TRUE {
        true
    } else if pcs.palette_update_flag == wire::PALETTE_UPDATE_FLAG_FALSE {
        false
    } else {
        return Err(DecodeError::InvalidPaletteUpdateFlag);
    };
    let composition_state = if pcs.composition_state == wire::COMPOSITION_STATE_EPOCH_START {
        CompositionState::EpochStart
    } else if pcs.composition_state == wire::COMPOSITION_STATE_ACQUISITION_POINT {
        CompositionState::AcquisitionPoint
    } else if pcs.composition_state == wire::COMPOSITION_STATE_NORMAL {
        CompositionState::Normal
    } else {
        return Err(DecodeError::InvalidCompositionState);
    };
    Ok(PCS {
        header,
        width: pcs.width,
        height: pcs.height,
        composition_number: pcs.composition_number,
        composition_state,
        palette_update,
        palette_id: pcs.palette_id,
        composition_objects: objects,
    })
}

fn decode_wds(header: Header, b: &[u8]) -> (r: Result<WDS, DecodeError>)
    ensures
        match parse_wds(header, b@) {
            Ok(v) => r is Ok && r->Ok_0@ == v,
            Err(e) => r is Err && r->Err_0 == e,
        },
{
    proof {
        assert(b@.skip(0) =~= b@);
    }
    let (wds, p) = match wire::SegmentWDS::read(b, 0) {
        Ok(v) => v,
        Err(e) => return Err(e),
    };
    let count = wds.number_of_windows;
    let mut windows: Vec<Window> = Vec::new();
    let mut pos = p;
    let mut i: u8 = 0;
    while i < count
        invariant
            pos <= b@.len(),
            i <= count,
            count == wds.number_of_windows,
            wire::SegmentWDS::parse(b@) == Some((wds, 1nat)),
            parse_windows(b@, 1, count as nat, seq![]) == parse_windows(
                b@,
                pos as int,
                (count - i) as nat,
                windows@,
            ),
        decreases count - i,
    {
        let (w, np) = match wire::Window::read(b, pos) {
            Ok(v) => v,
            Err(e) => return Err(e),
        };
        windows.push(
            Window {
                window_id: w.window_id,
                width: w.window_width,
                height: w.window_height,
                horizontal_position: w.window_horizontal_position,
                vertical_position: w.window_vertical_position,
            },
        );
        pos = np;
        i = i + 1;
    }
    Ok(WDS { header, windows })
}

fn decode_pds(header: Header, b: &[u8]) -> (r: Result<PDS, DecodeError>)
    ensures
        match parse_pds(header, b@) {
            Ok(v) => r is Ok && r->Ok_0@ == v,
            Err(e) => r is Err && r->Err_0 == e,
        },
{
    proof {
        assert(b@.skip(0) =~= b@);
    }
    let (pds, p) = match wire::SegmentPDS::read(b, 0) {
        Ok(v) => v,
        Err(e) => return Err(e),
    };
    let blank = PaletteEntry {
        entry_id: 0,
        luminance: 0,
        color_diff_red: 0,
        color_diff_blue: 0,
        transparency: 0,
    };
    let mut entries = [blank; 256];
    proof {
        assert(entries@ =~= Seq::new(256, |i: int| blank_entry()));
    }
    let mut pos = p;
    while pos < b.len()
        invariant
            2 <= pos <= b@.len(),
            entries@.len() == 256,
            fill_palette(b@, 2, Seq::new(256, |i: int| blank_entry())) == fill_palette(
                b@,
                pos as int,
                entries@,
            ),
        decreases b@.len() - pos,
    {
        let (e, np) = match wire::PaletteEntry::read(b, pos) {
            Ok(v) => v,
            Err(e) => return Err(e),
        };
        entries[e.palette_entry_id as usize] = PaletteEntry {
            entry_id: e.palette_entry_id,
            luminance: e.luminance,
            color_diff_red: e.color_diff_red,
            color_diff_blue: e.color_diff_blue,
            transparency: e.transparency,
        };
        pos = np;
    }
    Ok(PDS { header, palette_id: pds.palette_id, palette_version: pds.palette_version, entries })
}

fn decode_ods(header: Header, b: &[u8]) -> (r: Result<ODS, DecodeError>)
    ensures
        match parse_ods(header, b@) {
            Ok(v) => r is Ok && r->Ok_0@ == v,
            Err(e) => r is Err && r->Err_0 == e,
        },
{
    proof {
        assert(b@.skip(0) =~= b@);
    }
    let (ods, p) = match wire::SegmentODS::read(b, 0) {
        Ok(v) => v,
        Err(e) => return Err(e),
    };
    let len: usize = if ods.object_data_length < 4 {
        0
    } else {
        (ods.object_data_length - 4) as usize
    };
    if b.len() - p < len {
        return Err(DecodeError::UnexpectedEof);
    }
    let data = vstd::slice::slice_to_vec(vstd::slice::slice_subrange(b, p, p + len));
    let last_in_sequence = if ods.last_in_sequence_flag == wire::LAST_IN_SEQUENCE_FLAG_FIRST_IN_SEQ {
        LastInSequenceFlag::First
    } else if ods.last_in_sequence_flag == wire::LAST_IN_SEQUENCE_FLAG_LAST_IN_SEQ {
        LastInSequenceFlag::Last
    } else if ods.last_in_sequence_flag == wire::LAST_IN_SEQUENCE_FLAG_FIRST_AND_LAST_IN_SEQ {
        LastInSequenceFlag::FirstAndLast
    } else {
        return Err(DecodeError::InvalidLastInSequenceFlag);
    };
    Ok(ODS {
        header,
        object_id: ods.object_id,
        object_version: ods.object_version,
        last_in_sequence,
        width: ods.width,
        height: ods.height,
        data,
    })
}

/// Decodes the segment that starts at `pos`, returning it with the position just
/// after its payload.
pub fn decode_segment(buf: &[u8], pos: usize) -> (r: Result<(Segment, usize), DecodeError>)
    requires
        pos <= buf@.len(),
    ensures
        match parse_segment(buf@.skip(pos as int)) {
            Ok((s, n)) => r is Ok && r->Ok_0.0@ == s && r->Ok_0.1 == pos + n,
            Err(e) => r is Err && r->Err_0 == e,
        },
{
    let (header, p) = match wire::SegmentHeader::read(buf, pos) {
        Ok(v) => v,
        Err(e) => return Err(e),
    };
    if header.magic_number != wire::MAGIC_NUMBER {
        return Err(DecodeError::InvalidMagic);
    }
    let size = header.segment_size as usize;
    if buf.len() - p < size {
        return Err(DecodeError::UnexpectedEof);
    }
    let payload = vstd::slice::slice_subrange(buf, p, p + size);
    proof {
        assert(payload@ =~= buf@.skip(pos as int).subrange(13, 13 + size));
    }
    let h = Header::from(header);
    let end = p + size;
    if header.segment_type == wire::SEGMENT_TYPE_PCS {
        match decode_pcs(h, payload) {
            Ok(v) => Ok((Segment::PCS(v), end)),
            Err(e) => Err(e),
        }
    } else if header.segment_type == wire::SEGMENT_TYPE_WDS {
        match decode_wds(h, payload) {
            Ok(v) => Ok((Segment::WDS(v), end)),
            Err(e) => Err(e),
        }
    } else if header.segment_type == wire::SEGMENT_TYPE_PDS {
        match decode_pds(h, payload) {
            Ok(v) => Ok((Segment::PDS(v), end)),
            Err(e) => Err(e),
        }
    } else if header.segment_type == wire::SEGMENT_TYPE_ODS {
        match decode_ods(h, payload) {
            Ok(v) => Ok((Segment::ODS(v), end)),
            Err(e) => Err(e),
        }
    } else if header.segment_type == wire::SEGMENT_TYPE_END {
        Ok((Segment::END(END { header: h }), end))
    } else {
        Err(DecodeError::InvalidSegmentType)
    }
}

/// Decodes the display set that starts at `pos`, returning it with the position
/// just after its end segment.
pub fn decode_display_set(buf: &[u8], pos: usize) -> (r: Result<(DisplaySet, usize), DecodeError>)
    requires
        pos <= buf@.len(),
    ensures
        match parse_display_set(buf@.skip(pos as int)) {
            Ok((ds, n)) => r is Ok && r->Ok_0.0@ == ds && r->Ok_0.1 == pos + n,
            Err(e) => r is Err && r->Err_0 == e,
        },
{
    let ghost b = buf@.skip(pos as int);
    let (first, p) = match decode_segment(buf, pos) {
        Ok(v) => v,
        Err(e) => return Err(e),
    };
    let pcs = match first {
        Segment::PCS(pcs) => pcs,
        _ => return Err(DecodeError::ExpectedPcs),
    };
    let mut vwds: Vec<WDS> = Vec::new();
    let mut vpds: Vec<PDS> = Vec::new();
    let mut vods: Vec<ODS> = Vec::new();
    let mut p = p;
    proof {
        lemma_segment_len(b);
        assert(vwds@.map_values(|w: WDS| w@) =~= seq![]);
        assert(vpds@.map_values(|d: PDS| d@) =~= seq![]);
        assert(vods@.map_values(|o: ODS| o@) =~= seq![]);
    }
    loop
        invariant
            pos <= p <= buf@.len(),
            b == buf@.skip(pos as int),
            parse_display_set(b) == parse_set_rest(
                b,
                p - pos,
                pcs@,
                vwds@.map_values(|w: WDS| w@),
                vpds@.map_values(|d: PDS| d@),
                vods@.map_values(|o: ODS| o@),
            ),
        decreases buf@.len() - p,
    {
        proof {
            assert(b.skip(p - pos) =~= buf@.skip(p as int));
            lemma_segment_len(buf@.skip(p as int));
        }
        let (seg, np) = match decode_segment(buf, p) {
            Ok(v) => v,
            Err(e) => return Err(e),
        };
        match seg {
            Segment::PCS(_) => return Err(DecodeError::UnexpectedPcs),
            Segment::WDS(w) => {
                proof {
                    assert(vwds@.push(w).map_values(|w: WDS| w@) =~= vwds@.map_values(|w: WDS| w@).push(w@));
                }
                vwds.push(w);
            },
            Segment::PDS(d) => {
                proof {
                    assert(vpds@.push(d).map_values(|d: PDS| d@) =~= vpds@.map_values(|d: PDS| d@).push(d@));
                }
                vpds.push(d);
            },
            Segment::ODS(o) => {
                proof {
                    assert(vods@.push(o).map_values(|o: ODS| o@) =~= vods@.map_values(|o: ODS| o@).push(o@));
                }
                vods.push(o);
            },
            Segment::END(end) => {
                let ds = DisplaySet { pcs, wds: vwds, pds: vpds, ods: vods, end };
                return Ok((ds, np));
            },
        }
        p = np;
    }
}

/// Decodes every display set of `buf`. The stream must end where a display set
/// ends; a stream cut inside a display set is an error.
pub fn decode_display_sets(buf: &[u8]) -> (r: Result<Vec<DisplaySet>, DecodeError>)
    ensures
        match parse_display_sets(buf@, 0, seq![]) {
            Ok(sets) => r is Ok && r->Ok_0@.map_values(|d: DisplaySet| d@) == sets,
            Err(e) => r is Err && r->Err_0 == e,
        },
{
    let mut display_sets: Vec<DisplaySet> = Vec::new();
    let mut pos: usize = 0;
    proof {
        assert(display_sets@.map_values(|d: DisplaySet| d@) =~= seq![]);
    }
    while pos < buf.len()
        invariant
            pos <= buf@.len(),
            parse_display_sets(buf@, 0, seq![]) == parse_display_sets(
                buf@,
                pos as int,
                display_sets@.map_values(|d: DisplaySet| d@),
            ),
        decreases buf@.len() - pos,
    {
        proof {
            lemma_display_set_len(buf@.skip(pos as int));
        }
        let (ds, np) = match decode_display_set(buf, pos) {
            Ok(v) => v,
            Err(e) => return Err(e),
        };
        proof {
            assert(display_sets@.push(ds).map_values(|d: DisplaySet| d@) =~= display_sets@.map_values(
                |d: DisplaySet| d@,
            ).push(ds@));
        }
        display_sets.push(ds);
        pos = np;
    }
    Ok(display_sets)
}

} // verus!
