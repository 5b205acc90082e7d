//! The byte form of a segment, and the proof that decoding it gives the segment back.

use vstd::prelude::*;

use crate::segment::{
    blank_entry, composition_object_of, fill_palette, parse_body, parse_objects, parse_segment,
    parse_windows, CompositionObject, CompositionState, Header, LastInSequenceFlag, PCSView,
    PDSView, PaletteEntry, SegmentView, Window, ODSView, WDSView,
};
use crate::error::DecodeError;
use crate::wire;
use crate::wire::Wire;

verus! {

/// The high byte of a 16-bit value.
pub open spec fn hi(v: u16) -> u8 {
    (v / 0x100) as u8
}

/// The low byte of a 16-bit value.
pub open spec fn lo(v: u16) -> u8 {
    (v % 0x100) as u8
}

/// The four big-endian bytes of a 32-bit value.
pub open spec fn be32_bytes(v: u32) -> Seq<u8> {
    seq![
        (v / 0x1000000) as u8,
        ((v / 0x10000) % 0x100) as u8,
        ((v / 0x100) % 0x100) as u8,
        (v % 0x100) as u8,
    ]
}

pub open spec fn state_byte(s: CompositionState) -> u8 {
    match s {
        CompositionState::Normal => wire::COMPOSITION_STATE_NORMAL,
        CompositionState::AcquisitionPoint => wire::COMPOSITION_STATE_ACQUISITION_POINT,
        CompositionState::EpochStart => wire::COMPOSITION_STATE_EPOCH_START,
    }
}

pub open spec fn sequence_byte(f: LastInSequenceFlag) -> u8 {
    match f {
        LastInSequenceFlag::First => wire::LAST_IN_SEQUENCE_FLAG_FIRST_IN_SEQ,
        LastInSequenceFlag::Last => wire::LAST_IN_SEQUENCE_FLAG_LAST_IN_SEQ,
        LastInSequenceFlag::FirstAndLast => wire::LAST_IN_SEQUENCE_FLAG_FIRST_AND_LAST_IN_SEQ,
    }
}

/// A composition object: eight bytes, and eight more for a cropping rectangle.
pub open spec fn encode_object(c: CompositionObject) -> Seq<u8> {
    let head = seq![
        hi(c.object_id),
        lo(c.object_id),
        c.window_id,
        if c.cropping is Some { wire::OBJECT_CROPPED_FLAG_FORCE } else { wire::OBJECT_CROPPED_FLAG_OFF },
        hi(c.horizontal_position),
        lo(c.horizontal_position),
        hi(c.vertical_position),
        lo(c.vertical_position),
    ];
    match c.cropping {
        None => head,
        Some(cr) => head + seq![
            hi(cr.horizontal_position),
            lo(cr.horizontal_position),
            hi(cr.vertical_position),
            lo(cr.vertical_position),
            hi(cr.width),
            lo(cr.width),
            hi(cr.height),
            lo(cr.height),
        ],
    }
}

pub open spec fn encode_objects(cs: Seq<CompositionObject>) -> Seq<u8>
    decreases cs.len(),
{
    if cs.len() == 0 {
        seq![]
    } else {
        encode_object(cs[0]) + encode_objects(cs.drop_first())
    }
}

pub open spec fn encode_window(w: Window) -> Seq<u8> {
    seq![
        w.window_id,
        hi(w.horizontal_position),
        lo(w.horizontal_position),
        hi(w.vertical_position),
        lo(w.vertical_position),
        hi(w.width),
        lo(w.width),
        hi(w.height),
        lo(w.height),
    ]
}

pub open spec fn encode_windows(ws: Seq<Window>) -> Seq<u8>
    decreases ws.len(),
{
    if ws.len() == 0 {
        seq![]
    } else {
        encode_window(ws[0]) + encode_windows(ws.drop_first())
    }
}

/// The palette entries from index `from` on that differ from a blank entry, five
/// bytes each, in index order.
pub open spec fn encode_entries(entries: Seq<PaletteEntry>, from: nat) -> Seq<u8>
    decreases 256 - from,
{
    if from >= 256 {
        seq![]
    } else {
        let e = entries[from as int];
        (if e == blank_entry() {
            seq![]
        } else {
            seq![from as u8, e.luminance, e.color_diff_red, e.color_diff_blue, e.transparency]
        }) + encode_entries(entries, from + 1)
    }
}

pub open spec fn encode_body(s: SegmentView) -> Seq<u8> {
    match s {
        SegmentView::PCS(p) => seq![
            hi(p.width),
            lo(p.width),
            hi(p.height),
            lo(p.height),
            wire::FRAME_RATE,
            hi(p.composition_number),
            lo(p.composition_number),
            state_byte(p.composition_state),
            if p.palette_update { wire::PALETTE_UPDATE_FLAG_TRUE } else { wire::PALETTE_UPDATE_FLAG_FALSE },
            p.palette_id,
            p.composition_objects.len() as u8,
        ] + encode_objects(p.composition_objects),
        SegmentView::WDS(w) => seq![w.windows.len() as u8] + encode_windows(w.windows),
        SegmentView::PDS(p) => seq![p.palette_id, p.palette_version] + encode_entries(p.entries, 0),
        SegmentView::ODS(o) => {
            let len = (o.data.len() + 4) as u32;
            seq![
                hi(o.object_id),
                lo(o.object_id),
                o.object_version,
                sequence_byte(o.last_in_sequence),
                (len / 0x10000) as u8,
                ((len / 0x100) % 0x100) as u8,
                (len % 0x100) as u8,
                hi(o.width),
                lo(o.width),
                hi(o.height),
                lo(o.height),
            ] + o.data
        },
        SegmentView::END(_) => seq![],
    }
}

pub open spec fn header_of(s: SegmentView) -> Header {
    match s {
        SegmentView::PCS(p) => p.header,
        SegmentView::WDS(w) => w.header,
        SegmentView::PDS(p) => p.header,
        SegmentView::ODS(o) => o.header,
        SegmentView::END(e) => e.header,
    }
}

pub open spec fn segment_type_of(s: SegmentView) -> u8 {
    match s {
        SegmentView::PCS(_) => wire::SEGMENT_TYPE_PCS,
        SegmentView::WDS(_) => wire::SEGMENT_TYPE_WDS,
        SegmentView::PDS(_) => wire::SEGMENT_TYPE_PDS,
        SegmentView::ODS(_) => wire::SEGMENT_TYPE_ODS,
        SegmentView::END(_) => wire::SEGMENT_TYPE_END,
    }
}

/// A segment as it stands in a stream: the header, then the body.
pub open spec fn encode_segment(s: SegmentView) -> Seq<u8> {
    let h = header_of(s);
    let body = encode_body(s);
    let n = body.len() as u16;
    seq![0x50u8, 0x47u8] + be32_bytes(h.pts) + be32_bytes(h.dts) + seq![segment_type_of(s), hi(n), lo(n)]
        + body
}

/// A segment that has a byte form: its body fits a 16-bit length, its counts fit a
/// byte, and a palette has 256 entries, each blank or carrying its own index.
pub open spec fn encodable(s: SegmentView) -> bool {
    &&& encode_body(s).len() <= 0xFFFF
    &&& match s {
        SegmentView::PCS(p) => p.composition_objects.len() <= 255,
        SegmentView::WDS(w) => w.windows.len() <= 255,
        SegmentView::PDS(p) => p.entries.len() == 256 && forall|i: int|
            0 <= i < 256 ==> #[trigger] p.entries[i] == blank_entry() || p.entries[i].entry_id == i,
        _ => true,
    }
}

/// Whether `b` holds `e` from position `pos` on.
pub open spec fn holds_at(b: Seq<u8>, pos: int, e: Seq<u8>) -> bool {
    &&& 0 <= pos
    &&& pos + e.len() <= b.len()
    &&& forall|k: int| 0 <= k < e.len() ==> #[trigger] b[pos + k] == e[k]
}

proof fn lemma_holds_split(b: Seq<u8>, pos: int, e1: Seq<u8>, e2: Seq<u8>)
    requires
        holds_at(b, pos, e1 + e2),
    ensures
        holds_at(b, pos, e1),
        holds_at(b, pos + e1.len(), e2),
{
    assert forall|k: int| 0 <= k < e1.len() implies #[trigger] b[pos + k] == e1[k] by {
        assert((e1 + e2)[k] == e1[k]);
    }
    assert forall|k: int| 0 <= k < e2.len() implies #[trigger] b[pos + e1.len() + k] == e2[k] by {
        assert((e1 + e2)[e1.len() + k] == e2[k]);
        assert(b[pos + (e1.len() + k)] == (e1 + e2)[e1.len() + k]);
    }
}

proof fn lemma_be16(b: Seq<u8>, i: int, v: u16)
    requires
        0 <= i,
        i + 2 <= b.len(),
        b[i] == hi(v),
        b[i + 1] == lo(v),
    ensures
        wire::be16(b, i) == v,
{
}

proof fn lemma_be32(b: Seq<u8>, i: int, v: u32)
    requires
        0 <= i,
        i + 4 <= b.len(),
        b[i] == be32_bytes(v)[0],
        b[i + 1] == be32_bytes(v)[1],
        b[i + 2] == be32_bytes(v)[2],
        b[i + 3] == be32_bytes(v)[3],
    ensures
        wire::be32(b, i) == v,
{
}

proof fn lemma_object_round_trip(b: Seq<u8>, pos: int, c: CompositionObject)
    requires
        holds_at(b, pos, encode_object(c)),
    ensures
        wire::CompositionObject::parse(b.skip(pos)) is Some,
        wire::CompositionObject::parse(b.skip(pos))->Some_0.1 == encode_object(c).len(),
        composition_object_of(wire::CompositionObject::parse(b.skip(pos))->Some_0.0) == Ok::<
            CompositionObject,
            DecodeError,
        >(c),
{
    let t = b.skip(pos);
    let e = encode_object(c);
    assert forall|k: int| 0 <= k < e.len() implies #[trigger] t[k] == e[k] by {
        assert(b[pos + k] == e[k]);
    }
    lemma_be16(t, 0, c.object_id);
    lemma_be16(t, 4, c.horizontal_position);
    lemma_be16(t, 6, c.vertical_position);
    match c.cropping {
        None => {},
        Some(cr) => {
            lemma_be16(t, 8, cr.horizontal_position);
            lemma_be16(t, 10, cr.vertical_position);
            lemma_be16(t, 12, cr.width);
            lemma_be16(t, 14, cr.height);
        },
    }
}

proof fn lemma_objects_round_trip(b: Seq<u8>, pos: int, cs: Seq<CompositionObject>, acc: Seq<CompositionObject>)
    requires
        holds_at(b, pos, encode_objects(cs)),
    ensures
        parse_objects(b, pos, cs.len(), acc) == Ok::<Seq<CompositionObject>, DecodeError>(acc + cs),
    decreases cs.len(),
{
    if cs.len() == 0 {
        assert(acc + cs =~= acc);
    } else {
        lemma_holds_split(b, pos, encode_object(cs[0]), encode_objects(cs.drop_first()));
        lemma_object_round_trip(b, pos, cs[0]);
        lemma_objects_round_trip(b, pos + encode_object(cs[0]).len(), cs.drop_first(), acc.push(cs[0]));
        assert(acc.push(cs[0]) + cs.drop_first() =~= acc + cs);
    }
}

proof fn lemma_windows_round_trip(b: Seq<u8>, pos: int, ws: Seq<Window>, acc: Seq<Window>)
    requires
        holds_at(b, pos, encode_windows(ws)),
    ensures
        parse_windows(b, pos, ws.len(), acc) == Ok::<Seq<Window>, DecodeError>(acc + ws),
    decreases ws.len(),
{
    if ws.len() == 0 {
        assert(acc + ws =~= acc);
    } else {
        let w = ws[0];
        let e = encode_window(w);
        lemma_holds_split(b, pos, e, encode_windows(ws.drop_first()));
        let t = b.skip(pos);
        assert forall|k: int| 0 <= k < e.len() implies #[trigger] t[k] == e[k] by {
            assert(b[pos + k] == e[k]);
        }
        lemma_be16(t, 1, w.horizontal_position);
        lemma_be16(t, 3, w.vertical_position);
        lemma_be16(t, 5, w.width);
        lemma_be16(t, 7, w.height);
        lemma_windows_round_trip(b, pos + 9, ws.drop_first(), acc.push(w));
        assert(acc.push(w) + ws.drop_first() =~= acc + ws);
    }
}

proof fn lemma_entries_round_trip(b: Seq<u8>, pos: int, entries: Seq<PaletteEntry>, from: nat, table: Seq<PaletteEntry>)
    requires
        from <= 256,
        entries.len() == 256,
        forall|i: int| 0 <= i < 256 ==> #[trigger] entries[i] == blank_entry() || entries[i].entry_id == i,
        holds_at(b, pos, encode_entries(entries, from)),
        b.len() == pos + encode_entries(entries, from).len(),
        table.len() == 256,
        forall|i: int| 0 <= i < from ==> #[trigger] table[i] == entries[i],
        forall|i: int| from <= i < 256 ==> #[trigger] table[i] == blank_entry(),
    ensures
        fill_palette(b, pos, table) == Ok::<Seq<PaletteEntry>, DecodeError>(entries),
    decreases 256 - from,
{
    if from >= 256 {
        assert(table =~= entries);
    } else {
        let e = entries[from as int];
        let rest = encode_entries(entries, from + 1);
        if e == blank_entry() {
            assert(encode_entries(entries, from) =~= rest);
            lemma_entries_round_trip(b, pos, entries, from + 1, table);
        } else {
            let head = seq![from as u8, e.luminance, e.color_diff_red, e.color_diff_blue, e.transparency];
            assert(encode_entries(entries, from) == head + rest);
            lemma_holds_split(b, pos, head, rest);
            assert(b[pos + 0] == head[0]);
            assert(b[pos + 1] == head[1]);
            assert(b[pos + 2] == head[2]);
            assert(b[pos + 3] == head[3]);
            assert(b[pos + 4] == head[4]);
            let entry = PaletteEntry {
                entry_id: b[pos],
                luminance: b[pos + 1],
                color_diff_red: b[pos + 2],
                color_diff_blue: b[pos + 3],
                transparency: b[pos + 4],
            };
            assert(entry == e);
            lemma_entries_round_trip(b, pos + 5, entries, from + 1, table.update(from as int, e));
        }
    }
}

proof fn lemma_body_round_trip(s: SegmentView)
    requires
        encodable(s),
    ensures
        parse_body(
            wire::SegmentHeader {
                magic_number: wire::MAGIC_NUMBER,
                pts: header_of(s).pts,
                dts: header_of(s).dts,
                segment_type: segment_type_of(s),
                segment_size: encode_body(s).len() as u16,
            },
            encode_body(s),
        ) == Ok::<SegmentView, DecodeError>(s),
{
    let b = encode_body(s);
    assert(holds_at(b, 0, b));
    match s {
        SegmentView::PCS(p) => {
            let head = seq![
                hi(p.width),
                lo(p.width),
                hi(p.height),
                lo(p.height),
                wire::FRAME_RATE,
                hi(p.composition_number),
                lo(p.composition_number),
                state_byte(p.composition_state),
                if p.palette_update { wire::PALETTE_UPDATE_FLAG_TRUE } else { wire::PALETTE_UPDATE_FLAG_FALSE },
                p.palette_id,
                p.composition_objects.len() as u8,
            ];
            lemma_holds_split(b, 0, head, encode_objects(p.composition_objects));
            assert(b.skip(0) =~= b);
            lemma_be16(b, 0, p.width);
            lemma_be16(b, 2, p.height);
            lemma_be16(b, 5, p.composition_number);
            lemma_objects_round_trip(b, 11, p.composition_objects, seq![]);
            assert(seq![] + p.composition_objects =~= p.composition_objects);
        },
        SegmentView::WDS(w) => {
            lemma_holds_split(b, 0, seq![w.windows.len() as u8], encode_windows(w.windows));
            lemma_windows_round_trip(b, 1, w.windows, seq![]);
            assert(seq![] + w.windows =~= w.windows);
        },
        SegmentView::PDS(p) => {
            let head = seq![p.palette_id, p.palette_version];
            lemma_holds_split(b, 0, head, encode_entries(p.entries, 0));
            lemma_entries_round_trip(b, 2, p.entries, 0, Seq::new(256, |i: int| blank_entry()));
        },
        SegmentView::ODS(o) => {
            let len = (o.data.len() + 4) as u32;
            let head = seq![
                hi(o.object_id),
                lo(o.object_id),
                o.object_version,
                sequence_byte(o.last_in_sequence),
                (len / 0x10000) as u8,
                ((len / 0x100) % 0x100) as u8,
                (len % 0x100) as u8,
                hi(o.width),
                lo(o.width),
                hi(o.height),
                lo(o.height),
            ];
            lemma_holds_split(b, 0, head, o.data);
            lemma_be16(b, 0, o.object_id);
            lemma_be16(b, 7, o.width);
            lemma_be16(b, 9, o.height);
            assert(wire::be24(b, 4) == len);
            assert(b.subrange(11, 11 + o.data.len() as int) =~= o.data);
        },
        SegmentView::END(_) => {},
    }
}

/// Decoding the byte form of a segment, with any bytes after it, gives the same
/// segment back, header fields, flags and cropping included, and takes exactly
/// the bytes of that form.
pub proof fn lemma_segment_round_trip(s: SegmentView, rest: Seq<u8>)
    requires
        encodable(s),
    ensures
        parse_segment(encode_segment(s) + rest) == Ok::<(SegmentView, nat), DecodeError>(
            (s, encode_segment(s).len()),
        ),
{
    let h = header_of(s);
    let body = encode_body(s);
    let n = body.len() as u16;
    let head = seq![0x50u8, 0x47u8] + be32_bytes(h.pts) + be32_bytes(h.dts) + seq![segment_type_of(s), hi(n), lo(n)];
    let b = encode_segment(s) + rest;
    assert(b == head + body + rest);
    assert(head.len() == 13);
    assert(b.subrange(13, 13 + n as int) =~= body);
    lemma_be16(b, 0, wire::MAGIC_NUMBER);
    lemma_be32(b, 2, h.pts);
    lemma_be32(b, 6, h.dts);
    lemma_be16(b, 11, n);
    lemma_body_round_trip(s);
}

} // verus!
