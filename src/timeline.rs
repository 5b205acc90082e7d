//! The epoch state machine: palettes, windows and objects of the current epoch,
//! fragments joined into objects, and the timed subtitles that each display set
//! opens and closes.

use std::collections::HashMap;

use vstd::prelude::*;

use crate::error::DecodeError;
use crate::image::{crop_rows, object_bitmap, Bitmap, BitmapView};
use crate::segment::{
    parse_display_sets, CompositionObject, CompositionObjectCropping, CompositionState,
    DisplaySet, DisplaySetView, LastInSequenceFlag, ODSView, PDSView, PaletteEntry, WDSView,
    Window, ODS, PDS, WDS,
};

verus! {

broadcast use vstd::std_specs::hash::group_hash_axioms;

/// Ticks of the presentation clock in one second.
pub const TICKS_PER_SECOND: u32 = 90_000;

/// Nanoseconds in one tick of the presentation clock, rounded down.
pub const NANOS_PER_TICK: u32 = 11_111;

/// A span of time in whole seconds and nanoseconds.
#[derive(Debug, Clone, Copy, PartialEq, Eq, Hash, Structural)]
pub struct Duration {
    pub secs: u64,
    /// below one second
    pub nanos: u32,
}

/// The end of a subtitle that no later display set has closed.
pub open spec fn open_end() -> Duration {
    Duration { secs: u64::MAX, nanos: 999_999_999 }
}

impl Duration {
    /// The nanoseconds are below one second.
    pub open spec fn wf(self) -> bool {
        self.nanos < 1_000_000_000
    }

    /// The longest duration there is, which stands for a subtitle end that is still open.
    pub fn max_value() -> (r: Duration)
        ensures
            r == open_end(),
    {
        Duration { secs: u64::MAX, nanos: 999_999_999 }
    }
}

/// The duration of `ticks` ticks of the 90 kHz clock: whole seconds, and the
/// remaining ticks at 11111 ns each.
pub open spec fn duration_of(ticks: u32) -> Duration {
    Duration { secs: (ticks / 90_000) as u64, nanos: ((ticks % 90_000) * 11_111) as u32 }
}

/// Converts a timestamp of the 90 kHz clock to a duration.
pub fn clock_to_duration(timestamp: u32) -> (r: Duration)
    ensures
        r == duration_of(timestamp),
        r.wf(),
{
    let seconds = timestamp / TICKS_PER_SECOND;
    let remain = timestamp % TICKS_PER_SECOND;
    let nanos = remain * NANOS_PER_TICK;
    Duration { secs: seconds as u64, nanos }
}

#[derive(Debug, Clone, Copy, PartialEq, Eq, Structural)]
pub struct TimeRange {
    pub begin: Duration,
    pub end: Duration,
}

impl TimeRange {
    pub fn new(begin: Duration, end: Duration) -> (r: Self)
        ensures
            r.begin == begin && r.end == end,
    {
        TimeRange { begin, end }
    }
}

/// A bitmap shown from `range.begin` until `range.end`.
#[derive(Debug, Clone)]
pub struct BitmapSubtitle {
    pub range: TimeRange,
    pub bitmap: Bitmap,
}

/// The model of a [`BitmapSubtitle`].
pub struct SubtitleView {
    pub range: TimeRange,
    pub bitmap: BitmapView,
}

impl View for BitmapSubtitle {
    type V = SubtitleView;

    open spec fn view(&self) -> SubtitleView {
        SubtitleView { range: self.range, bitmap: self.bitmap@ }
    }
}

/// An object of the current epoch, built from one or more fragments.
pub struct ObjectView {
    pub width: u16,
    pub height: u16,
    pub finished: bool,
    pub data: Seq<u8>,
    pub bitmap: BitmapView,
}

/// The state carried from one display set to the next.
pub struct DecoderView {
    /// whether a display set has been taken
    pub started: bool,
    pub palettes: Map<u8, Seq<PaletteEntry>>,
    pub windows: Map<u8, Window>,
    pub objects: Map<u16, ObjectView>,
    pub subtitles: Seq<SubtitleView>,
    /// the subtitles from this index on were opened by the last display set
    pub open_from: nat,
}

impl DecoderView {
    pub open spec fn wf(&self) -> bool {
        &&& self.open_from <= self.subtitles.len()
        &&& forall|k: u16| #[trigger] self.objects.contains_key(k) ==> self.objects[k].bitmap.wf()
        &&& forall|k: u8| #[trigger] self.palettes.contains_key(k) ==> self.palettes[k].len() == 256
    }
}

pub open spec fn initial_state() -> DecoderView {
    DecoderView {
        started: false,
        palettes: Map::empty(),
        windows: Map::empty(),
        objects: Map::empty(),
        subtitles: seq![],
        open_from: 0,
    }
}

/// `subs` with every subtitle from index `from` on ended at `t`.
pub open spec fn close_from(subs: Seq<SubtitleView>, from: nat, t: Duration) -> Seq<SubtitleView> {
    Seq::new(
        subs.len(),
        |i: int|
            if i >= from {
                SubtitleView { range: TimeRange { begin: subs[i].range.begin, end: t }, bitmap: subs[i].bitmap }
            } else {
                subs[i]
            },
    )
}

/// `m` with the windows `ws` defined in order.
pub open spec fn add_windows(m: Map<u8, Window>, ws: Seq<Window>) -> Map<u8, Window>
    decreases ws.len(),
{
    if ws.len() == 0 {
        m
    } else {
        add_windows(m, ws.drop_last()).insert(ws.last().window_id, ws.last())
    }
}

/// `m` with the windows of each window definition defined in order.
pub open spec fn add_wds(m: Map<u8, Window>, wds: Seq<WDSView>) -> Map<u8, Window>
    decreases wds.len(),
{
    if wds.len() == 0 {
        m
    } else {
        add_windows(add_wds(m, wds.drop_last()), wds.last().windows)
    }
}

/// `m` with each palette definition replacing the palette of its id, in order.
pub open spec fn add_pds(m: Map<u8, Seq<PaletteEntry>>, pds: Seq<PDSView>) -> Map<u8, Seq<PaletteEntry>>
    decreases pds.len(),
{
    if pds.len() == 0 {
        m
    } else {
        add_pds(m, pds.drop_last()).insert(pds.last().palette_id, pds.last().entries)
    }
}

pub open spec fn empty_bitmap() -> BitmapView {
    BitmapView { width: 0, height: 0, pixels: seq![] }
}

/// The object that the first fragment seen of an id starts, with its size.
pub open spec fn new_object(o: ODSView) -> ObjectView {
    ObjectView { width: o.width, height: o.height, finished: false, data: seq![], bitmap: empty_bitmap() }
}

/// The objects after the object definition `o`, with `palette` the palette of the
/// display set. A first fragment starts the object's data afresh; a last fragment
/// appends to it, and is an error when the object is already finished; a last or
/// only fragment finishes the object and decodes its bitmap. The size stays the
/// one that the object had when it was first seen in the epoch.
pub open spec fn ods_step(m: Map<u16, ObjectView>, o: ODSView, palette: Seq<PaletteEntry>) -> Result<
    Map<u16, ObjectView>,
    DecodeError,
> {
    let cur = if m.contains_key(o.object_id) {
        m[o.object_id]
    } else {
        new_object(o)
    };
    match o.last_in_sequence {
        LastInSequenceFlag::First => Ok(
            m.insert(
                o.object_id,
                ObjectView {
                    width: cur.width,
                    height: cur.height,
                    finished: false,
                    data: o.data,
                    bitmap: cur.bitmap,
                },
            ),
        ),
        LastInSequenceFlag::FirstAndLast => match object_bitmap(o.data, cur.width, cur.height, palette) {
            Err(e) => Err(e),
            Ok(bm) => Ok(
                m.insert(
                    o.object_id,
                    ObjectView { width: cur.width, height: cur.height, finished: true, data: o.data, bitmap: bm },
                ),
            ),
        },
        LastInSequenceFlag::Last => {
            if cur.finished {
                Err(DecodeError::ObjectAlreadyFinished)
            } else {
                let data = cur.data + o.data;
                match object_bitmap(data, cur.width, cur.height, palette) {
                    Err(e) => Err(e),
                    Ok(bm) => Ok(
                        m.insert(
                            o.object_id,
                            ObjectView { width: cur.width, height: cur.height, finished: true, data, bitmap: bm },
                        ),
                    ),
                }
            }
        },
    }
}

/// The objects after the object definitions `ods` in order, or the first error.
pub open spec fn apply_ods(m: Map<u16, ObjectView>, ods: Seq<ODSView>, palette: Seq<PaletteEntry>) -> Result<
    Map<u16, ObjectView>,
    DecodeError,
>
    decreases ods.len(),
{
    if ods.len() == 0 {
        Ok(m)
    } else {
        match apply_ods(m, ods.drop_last(), palette) {
            Err(e) => Err(e),
            Ok(m1) => ods_step(m1, ods.last(), palette),
        }
    }
}

/// The part of `bm` that a cropping rectangle selects.
pub open spec fn crop_view(bm: BitmapView, c: CompositionObjectCropping) -> BitmapView {
    BitmapView {
        width: c.width as u32,
        height: c.height as u32,
        pixels: crop_rows(
            bm.pixels,
            bm.width as int,
            c.horizontal_position as int,
            c.vertical_position as int,
            c.width as int,
            c.height as nat,
        ),
    }
}

/// Whether a cropping rectangle lies inside a bitmap.
pub open spec fn crop_fits(bm: BitmapView, c: CompositionObjectCropping) -> bool {
    c.horizontal_position + c.width <= bm.width && c.vertical_position + c.height <= bm.height
}

/// The bitmap that a composition object shows: none when its object is unknown
/// or unfinished, else the object's bitmap, cropped when the composition asks.
pub open spec fn placement(m: Map<u16, ObjectView>, c: CompositionObject) -> Result<
    Option<BitmapView>,
    DecodeError,
> {
    if !m.contains_key(c.object_id) || !m[c.object_id].finished {
        Ok(None)
    } else {
        let bm = m[c.object_id].bitmap;
        match c.cropping {
            None => Ok(Some(bm)),
            Some(cr) => if crop_fits(bm, cr) {
                Ok(Some(crop_view(bm, cr)))
            } else {
                Err(DecodeError::InvalidCropping)
            },
        }
    }
}

/// The subtitles that the composition objects `comps` open at `t`, in order.
pub open spec fn compose(m: Map<u16, ObjectView>, comps: Seq<CompositionObject>, t: Duration) -> Result<
    Seq<SubtitleView>,
    DecodeError,
>
    decreases comps.len(),
{
    if comps.len() == 0 {
        Ok(seq![])
    } else {
        match compose(m, comps.drop_last(), t) {
            Err(e) => Err(e),
            Ok(subs) => match placement(m, comps.last()) {
                Err(e) => Err(e),
                Ok(None) => Ok(subs),
                Ok(Some(bm)) => Ok(
                    subs.push(SubtitleView { range: TimeRange { begin: t, end: open_end() }, bitmap: bm }),
                ),
            },
        }
    }
}

/// The state after the display set `ds`. The first display set must start an
/// epoch. Its timestamp closes the subtitles that the previous set opened; an
/// epoch start forgets every palette, window and object; then windows, palettes
/// and objects are defined, and each composition object that shows a finished
/// object opens a subtitle.
#[verifier::opaque]
pub open spec fn step(s: DecoderView, ds: DisplaySetView) -> Result<DecoderView, DecodeError> {
    if !s.started && ds.pcs.composition_state != CompositionState::EpochStart {
        Err(DecodeError::MissingEpochStart)
    } else {
        let t = duration_of(ds.pcs.header.pts);
        let reset = ds.pcs.composition_state == CompositionState::EpochStart;
        let windows = add_wds(if reset { Map::empty() } else { s.windows }, ds.wds);
        let palettes = add_pds(if reset { Map::empty() } else { s.palettes }, ds.pds);
        if !palettes.contains_key(ds.pcs.palette_id) {
            Err(DecodeError::UnknownPalette)
        } else {
            match apply_ods(
                if reset { Map::empty() } else { s.objects },
                ds.ods,
                palettes[ds.pcs.palette_id],
            ) {
                Err(e) => Err(e),
                Ok(objects) => match compose(objects, ds.pcs.composition_objects, t) {
                    Err(e) => Err(e),
                    Ok(opened) => Ok(
                        DecoderView {
                            started: true,
                            palettes,
                            windows,
                            objects,
                            subtitles: close_from(s.subtitles, s.open_from, t) + opened,
                            open_from: s.subtitles.len(),
                        },
                    ),
                },
            }
        }
    }
}

/// The state after the display sets `sets` in order, or the first error.
pub open spec fn run(s: DecoderView, sets: Seq<DisplaySetView>) -> Result<DecoderView, DecodeError>
    decreases sets.len(),
{
    if sets.len() == 0 {
        Ok(s)
    } else {
        match run(s, sets.drop_last()) {
            Err(e) => Err(e),
            Ok(s1) => step(s1, sets.last()),
        }
    }
}

/// The subtitles of the PGS stream `b`.
pub open spec fn extract(b: Seq<u8>) -> Result<Seq<SubtitleView>, DecodeError> {
    match parse_display_sets(b, 0, seq![]) {
        Err(e) => Err(e),
        Ok(sets) => match run(initial_state(), sets) {
            Err(e) => Err(e),
            Ok(s) => Ok(s.subtitles),
        },
    }
}

pub open spec fn objects_wf(m: Map<u16, ObjectView>) -> bool {
    forall|k: u16| #[trigger] m.contains_key(k) ==> m[k].bitmap.wf()
}

struct ObjectAccumulator {
    width: u16,
    height: u16,
    finished: bool,
    data: Vec<u8>,
    bitmap: Bitmap,
}

impl View for ObjectAccumulator {
    type V = ObjectView;

    closed spec fn view(&self) -> ObjectView {
        ObjectView {
            width: self.width,
            height: self.height,
            finished: self.finished,
            data: self.data@,
            bitmap: self.bitmap@,
        }
    }
}

spec fn objects_view(m: Map<u16, ObjectAccumulator>) -> Map<u16, ObjectView> {
    m.map_values(|o: ObjectAccumulator| o@)
}

spec fn palettes_view(m: Map<u8, [PaletteEntry; 256]>) -> Map<u8, Seq<PaletteEntry>> {
    m.map_values(|p: [PaletteEntry; 256]| p@)
}

pub open spec fn subtitles_view(s: Seq<BitmapSubtitle>) -> Seq<SubtitleView> {
    s.map_values(|b: BitmapSubtitle| b@)
}

fn append_bytes(dst: &mut Vec<u8>, src: &[u8])
    ensures
        final(dst)@ == old(dst)@ + src@,
{
    let ghost before = dst@;
    let mut i: usize = 0;
    while i < src.len()
        invariant
            i <= src@.len(),
            dst@ == before + src@.take(i as int),
        decreases src@.len() - i,
    {
        dst.push(src[i]);
        i = i + 1;
        proof {
            assert(dst@ =~= before + src@.take(i as int));
        }
    }
    proof {
        assert(src@.take(i as int) =~= src@);
    }
}

fn copy_bitmap(b: &Bitmap) -> (r: Bitmap)
    ensures
        r@ == b@,
{
    Bitmap { width: b.width, height: b.height, pixels: vstd::slice::slice_to_vec(b.pixels.as_slice()) }
}

fn add_windows_exec(m: &mut HashMap<u8, Window>, ws: &Vec<Window>)
    ensures
        final(m)@ == add_windows(old(m)@, ws@),
{
    let ghost m0 = m@;
    let mut i: usize = 0;
    proof {
        assert(ws@.take(0) =~= seq![]);
    }
    while i < ws.len()
        invariant
            i <= ws@.len(),
            m@ == add_windows(m0, ws@.take(i as int)),
        decreases ws@.len() - i,
    {
        let w = ws[i];
        proof {
            assert(ws@.take(i + 1).drop_last() =~= ws@.take(i as int));
        }
        m.insert(w.window_id, w);
        i = i + 1;
    }
    proof {
        assert(ws@.take(i as int) =~= ws@);
    }
}

/// Applies one object definition to the objects of the epoch.
fn apply_object(objects: &mut HashMap<u16, ObjectAccumulator>, o: &ODS, palette: &[PaletteEntry; 256]) -> (r:
    Result<(), DecodeError>)
    requires
        objects_wf(objects_view(old(objects)@)),
    ensures
        match ods_step(objects_view(old(objects)@), o@, palette@) {
            Ok(m) => r is Ok && objects_view(final(objects)@) == m && objects_wf(m),
            Err(e) => r is Err && r->Err_0 == e,
        },
{
    let ghost m0 = objects_view(objects@);
    let id = o.object_id;
    let removed = objects.remove(&id);
    let mut cur = match removed {
        Some(c) => c,
        None => ObjectAccumulator {
            width: o.width,
            height: o.height,
            finished: false,
            data: Vec::new(),
            bitmap: Bitmap { width: 0, height: 0, pixels: Vec::new() },
        },
    };
    proof {
        assert(cur@ == (if m0.contains_key(id) { m0[id] } else { new_object(o@) }));
        assert(cur@.bitmap.wf());
    }
    match o.last_in_sequence {
        LastInSequenceFlag::First => {
            cur.finished = false;
            cur.data = vstd::slice::slice_to_vec(o.data.as_slice());
        },
        LastInSequenceFlag::FirstAndLast => {
            let bm = match crate::image::bitmap_from_object(o.data.as_slice(), cur.width, cur.height, palette) {
                Ok(bm) => bm,
                Err(e) => return Err(e),
            };
            cur.finished = true;
            cur.data = vstd::slice::slice_to_vec(o.data.as_slice());
            cur.bitmap = bm;
        },
        LastInSequenceFlag::Last => {
            if cur.finished {
                return Err(DecodeError::ObjectAlreadyFinished);
            }
            append_bytes(&mut cur.data, o.data.as_slice());
            let bm = match crate::image::bitmap_from_object(cur.data.as_slice(), cur.width, cur.height, palette) {
                Ok(bm) => bm,
                Err(e) => return Err(e),
            };
            cur.finished = true;
            cur.bitmap = bm;
        },
    }
    let ghost v = cur@;
    objects.insert(id, cur);
    proof {
        assert(objects_view(objects@) =~= m0.insert(id, v));
    }
    Ok(())
}

/// The bitmap that a composition object shows, if any.
fn place(objects: &HashMap<u16, ObjectAccumulator>, c: &CompositionObject) -> (r: Result<Option<Bitmap>, DecodeError>)
    requires
        objects_wf(objects_view(objects@)),
    ensures
        match placement(objects_view(objects@), *c) {
            Ok(None) => r is Ok && r->Ok_0 is None,
            Ok(Some(bm)) => r is Ok && r->Ok_0 is Some && r->Ok_0->Some_0@ == bm,
            Err(e) => r is Err && r->Err_0 == e,
        },
{
    let obj = match objects.get(&c.object_id) {
        None => return Ok(None),
        Some(obj) => obj,
    };
    proof {
        assert(objects_view(objects@).contains_key(c.object_id));
        assert(objects_view(objects@)[c.object_id] == obj@);
    }
    if !obj.finished {
        return Ok(None);
    }
    match c.cropping {
        None => Ok(Some(copy_bitmap(&obj.bitmap))),
        Some(cr) => {
            if cr.horizontal_position as u64 + cr.width as u64 <= obj.bitmap.width as u64
                && cr.vertical_position as u64 + cr.height as u64 <= obj.bitmap.height as u64 {
                Ok(
                    Some(
                        obj.bitmap.sub_image(
                            cr.horizontal_position as u32,
                            cr.vertical_position as u32,
                            cr.width as u32,
                            cr.height as u32,
                        ),
                    ),
                )
            } else {
                Err(DecodeError::InvalidCropping)
            }
        },
    }
}

proof fn lemma_apply_ods_err(m: Map<u16, ObjectView>, ods: Seq<ODSView>, palette: Seq<PaletteEntry>, k: int)
    requires
        0 <= k <= ods.len(),
        apply_ods(m, ods.take(k), palette) is Err,
    ensures
        apply_ods(m, ods, palette) == apply_ods(m, ods.take(k), palette),
    decreases ods.len(),
{
    if k == ods.len() {
        assert(ods.take(k) =~= ods);
    } else {
        assert(ods.drop_last().take(k) =~= ods.take(k));
        lemma_apply_ods_err(m, ods.drop_last(), palette, k);
    }
}

proof fn lemma_compose_err(m: Map<u16, ObjectView>, comps: Seq<CompositionObject>, t: Duration, k: int)
    requires
        0 <= k <= comps.len(),
        compose(m, comps.take(k), t) is Err,
    ensures
        compose(m, comps, t) == compose(m, comps.take(k), t),
    decreases comps.len(),
{
    if k == comps.len() {
        assert(comps.take(k) =~= comps);
    } else {
        assert(comps.drop_last().take(k) =~= comps.take(k));
        lemma_compose_err(m, comps.drop_last(), t, k);
    }
}

proof fn lemma_run_err(s: DecoderView, sets: Seq<DisplaySetView>, k: int)
    requires
        0 <= k <= sets.len(),
        run(s, sets.take(k)) is Err,
    ensures
        run(s, sets) == run(s, sets.take(k)),
    decreases sets.len(),
{
    if k == sets.len() {
        assert(sets.take(k) =~= sets);
    } else {
        assert(sets.drop_last().take(k) =~= sets.take(k));
        lemma_run_err(s, sets.drop_last(), k);
    }
}

/// The state of an epoch and the subtitles decoded so far, taken from one display
/// set to the next.
pub struct SubtitleDecoder {
    started: bool,
    palettes: HashMap<u8, [PaletteEntry; 256]>,
    windows: HashMap<u8, Window>,
    objects: HashMap<u16, ObjectAccumulator>,
    subtitles: Vec<BitmapSubtitle>,
    open_from: usize,
}

impl View for SubtitleDecoder {
    type V = DecoderView;

    closed spec fn view(&self) -> DecoderView {
        DecoderView {
            started: self.started,
            palettes: palettes_view(self.palettes@),
            windows: self.windows@,
            objects: objects_view(self.objects@),
            subtitles: subtitles_view(self.subtitles@),
            open_from: self.open_from as nat,
        }
    }
}

impl SubtitleDecoder {
    pub fn new() -> (r: Self)
        ensures
            r@ == initial_state(),
            r@.wf(),
    {
        let r = SubtitleDecoder {
            started: false,
            palettes: HashMap::new(),
            windows: HashMap::new(),
            objects: HashMap::new(),
            subtitles: Vec::new(),
            open_from: 0,
        };
        proof {
            assert(r@.palettes =~= Map::empty());
            assert(r@.objects =~= Map::empty());
            assert(r@.subtitles =~= seq![]);
        }
        r
    }

    /// The subtitles decoded so far; the ones that the last display set opened
    /// still end at [`Duration::max_value`].
    pub fn subtitles(&self) -> (r: &Vec<BitmapSubtitle>)
        ensures
            subtitles_view(r@) == self@.subtitles,
    {
        &self.subtitles
    }

    /// Takes the subtitles decoded so far.
    pub fn into_subtitles(self) -> (r: Vec<BitmapSubtitle>)
        ensures
            subtitles_view(r@) == self@.subtitles,
    {
        self.subtitles
    }

    /// Takes the next display set of the stream.
    pub fn process_display_set(self, ds: &DisplaySet) -> (r: Result<SubtitleDecoder, DecodeError>)
        requires
            self@.wf(),
        ensures
            match step(self@, ds@) {
                Ok(v) => r is Ok && r->Ok_0@ == v && v.wf(),
                Err(e) => r is Err && r->Err_0 == e,
            },
    {
        let ghost s0 = self@;
        proof {
            reveal(step);
        }
        let SubtitleDecoder { started, mut palettes, mut windows, mut objects, mut subtitles, open_from } =
            self;
        if !started && ds.pcs.composition_state != CompositionState::EpochStart {
            return Err(DecodeError::MissingEpochStart);
        }
        let t = clock_to_duration(ds.pcs.header.pts);
        let len0 = subtitles.len();
        close_subtitles(&mut subtitles, open_from, t);
        if ds.pcs.composition_state == CompositionState::EpochStart {
            palettes = HashMap::new();
            windows = HashMap::new();
            objects = HashMap::new();
            proof {
                assert(palettes_view(palettes@) =~= Map::empty());
                assert(objects_view(objects@) =~= Map::empty());
            }
        }
        add_wds_exec(&mut windows, &ds.wds);
        add_pds_exec(&mut palettes, &ds.pds);
        let palette: [PaletteEntry; 256] = match palettes.get(&ds.pcs.palette_id) {
            Some(p) => *p,
            None => return Err(DecodeError::UnknownPalette),
        };
        proof {
            assert(palettes_view(palettes@)[ds.pcs.palette_id] == palette@);
        }
        match apply_objects(&mut objects, &ds.ods, &palette) {
            Ok(()) => {},
            Err(e) => return Err(e),
        }
        match open_subtitles(&objects, &ds.pcs.composition_objects, t, &mut subtitles) {
            Ok(()) => {},
            Err(e) => return Err(e),
        }
        let r = SubtitleDecoder { started: true, palettes, windows, objects, subtitles, open_from: len0 };
        proof {
            assert(r@.wf()) by {
                assert forall|id: u8| #[trigger] r@.palettes.contains_key(id) implies r@.palettes[id].len()
                    == 256 by {
                    assert(palettes@.contains_key(id));
                }
            }
        }
        Ok(r)
    }
}

/// Ends at `t` every subtitle from index `from` on.
fn close_subtitles(subtitles: &mut Vec<BitmapSubtitle>, from: usize, t: Duration)
    requires
        from <= old(subtitles)@.len(),
    ensures
        subtitles_view(final(subtitles)@) == close_from(subtitles_view(old(subtitles)@), from as nat, t),
{
    let ghost s0 = subtitles_view(subtitles@);
    let len0 = subtitles.len();
    let mut i = from;
    while i < subtitles.len()
        invariant
            from <= i <= len0,
            subtitles@.len() == len0,
            s0.len() == len0,
            forall|j: int|
                0 <= j < len0 ==> #[trigger] subtitles@[j]@ == (if from <= j < i {
                    SubtitleView { range: TimeRange { begin: s0[j].range.begin, end: t }, bitmap: s0[j].bitmap }
                } else {
                    s0[j]
                }),
        decreases len0 - i,
    {
        let ghost before = subtitles@;
        subtitles[i].range.end = t;
        proof {
            assert forall|j: int| 0 <= j < len0 implies #[trigger] subtitles@[j]@ == (if from <= j < i + 1 {
                SubtitleView { range: TimeRange { begin: s0[j].range.begin, end: t }, bitmap: s0[j].bitmap }
            } else {
                s0[j]
            }) by {
                if j != i {
                    assert(subtitles@[j] == before[j]);
                    assert(before[j]@ == (if from <= j < i {
                        SubtitleView { range: TimeRange { begin: s0[j].range.begin, end: t }, bitmap: s0[j].bitmap }
                    } else {
                        s0[j]
                    }));
                } else {
                    assert(before[j]@ == s0[j]);
                }
            }
        }
        i = i + 1;
    }
    proof {
        assert(subtitles_view(subtitles@) =~= close_from(s0, from as nat, t));
    }
}

fn add_wds_exec(windows: &mut HashMap<u8, Window>, wds: &Vec<WDS>)
    ensures
        final(windows)@ == add_wds(old(windows)@, wds@.map_values(|w: WDS| w@)),
{
    let ghost w0 = windows@;
    let ghost v = wds@.map_values(|w: WDS| w@);
    let mut k: usize = 0;
    proof {
        assert(v.take(0) =~= seq![]);
    }
    while k < wds.len()
        invariant
            k <= wds@.len(),
            v == wds@.map_values(|w: WDS| w@),
            windows@ == add_wds(w0, v.take(k as int)),
        decreases wds@.len() - k,
    {
        add_windows_exec(windows, &wds[k].windows);
        proof {
            assert(v.take(k + 1).drop_last() =~= v.take(k as int));
        }
        k = k + 1;
    }
    proof {
        assert(v.take(k as int) =~= v);
    }
}

fn add_pds_exec(palettes: &mut HashMap<u8, [PaletteEntry; 256]>, pds: &Vec<PDS>)
    ensures
        palettes_view(final(palettes)@) == add_pds(palettes_view(old(palettes)@), pds@.map_values(|p: PDS| p@)),
{
    let ghost p0 = palettes_view(palettes@);
    let ghost v = pds@.map_values(|p: PDS| p@);
    let mut k: usize = 0;
    proof {
        assert(v.take(0) =~= seq![]);
    }
    while k < pds.len()
        invariant
            k <= pds@.len(),
            v == pds@.map_values(|p: PDS| p@),
            palettes_view(palettes@) == add_pds(p0, v.take(k as int)),
        decreases pds@.len() - k,
    {
        let entries = pds[k].entries;
        let ghost before = palettes@;
        palettes.insert(pds[k].palette_id, entries);
        proof {
            assert(v.take(k + 1).drop_last() =~= v.take(k as int));
            assert(palettes_view(palettes@) =~= palettes_view(before).insert(pds[k as int].palette_id, entries@));
        }
        k = k + 1;
    }
    proof {
        assert(v.take(k as int) =~= v);
    }
}

fn apply_objects(objects: &mut HashMap<u16, ObjectAccumulator>, ods: &Vec<ODS>, palette: &[PaletteEntry; 256]) -> (r:
    Result<(), DecodeError>)
    requires
        objects_wf(objects_view(old(objects)@)),
    ensures
        match apply_ods(objects_view(old(objects)@), ods@.map_values(|o: ODS| o@), palette@) {
            Ok(m) => r is Ok && objects_view(final(objects)@) == m && objects_wf(m),
            Err(e) => r is Err && r->Err_0 == e,
        },
{
    let ghost o0 = objects_view(objects@);
    let ghost v = ods@.map_values(|o: ODS| o@);
    let mut k: usize = 0;
    proof {
        assert(v.take(0) =~= seq![]);
    }
    while k < ods.len()
        invariant
            k <= ods@.len(),
            v == ods@.map_values(|o: ODS| o@),
            o0 == objects_view(old(objects)@),
            apply_ods(o0, v.take(k as int), palette@) == Ok::<Map<u16, ObjectView>, DecodeError>(
                objects_view(objects@),
            ),
            objects_wf(objects_view(objects@)),
        decreases ods@.len() - k,
    {
        proof {
            assert(v.take(k + 1).drop_last() =~= v.take(k as int));
        }
        let ghost cur = objects_view(objects@);
        match apply_object(objects, &ods[k], palette) {
            Ok(()) => {},
            Err(e) => {
                proof {
                    assert(v.take(k + 1).last() == ods@[k as int]@);
                    assert(ods_step(cur, ods@[k as int]@, palette@) == Err::<Map<u16, ObjectView>, DecodeError>(e));
                    assert(apply_ods(o0, v.take(k + 1), palette@) == Err::<Map<u16, ObjectView>, DecodeError>(e));
                    lemma_apply_ods_err(o0, v, palette@, k + 1);
                }
                return Err(e);
            },
        }
        k = k + 1;
    }
    proof {
        assert(v.take(k as int) =~= v);
    }
    Ok(())
}

fn open_subtitles(
    objects: &HashMap<u16, ObjectAccumulator>,
    comps: &Vec<CompositionObject>,
    t: Duration,
    subtitles: &mut Vec<BitmapSubtitle>,
) -> (r: Result<(), DecodeError>)
    requires
        objects_wf(objects_view(objects@)),
    ensures
        match compose(objects_view(objects@), comps@, t) {
            Ok(opened) => r is Ok && subtitles_view(final(subtitles)@) == subtitles_view(old(subtitles)@)
                + opened,
            Err(e) => r is Err && r->Err_0 == e,
        },
{
    let ghost closed = subtitles_view(subtitles@);
    let ghost opened: Seq<SubtitleView> = seq![];
    let mut k: usize = 0;
    proof {
        assert(comps@.take(0) =~= seq![]);
        assert(closed + opened =~= closed);
    }
    while k < comps.len()
        invariant
            k <= comps@.len(),
            compose(objects_view(objects@), comps@.take(k as int), t) == Ok::<Seq<SubtitleView>, DecodeError>(
                opened,
            ),
            subtitles_view(subtitles@) == closed + opened,
            objects_wf(objects_view(objects@)),
        decreases comps@.len() - k,
    {
        proof {
            assert(comps@.take(k + 1).drop_last() =~= comps@.take(k as int));
        }
        match place(objects, &comps[k]) {
            Err(e) => {
                proof {
                    lemma_compose_err(objects_view(objects@), comps@, t, k + 1);
                }
                return Err(e);
            },
            Ok(None) => {},
            Ok(Some(bitmap)) => {
                let sub = BitmapSubtitle { range: TimeRange::new(t, Duration::max_value()), bitmap };
                let ghost before = subtitles@;
                subtitles.push(sub);
                proof {
                    assert(subtitles_view(subtitles@) =~= subtitles_view(before).push(sub@));
                    assert(closed + opened.push(sub@) =~= (closed + opened).push(sub@));
                    opened = opened.push(sub@);
                }
            },
        }
        k = k + 1;
    }
    proof {
        assert(comps@.take(k as int) =~= comps@);
    }
    Ok(())
}

/// Decodes every display set of a PGS stream and runs them through a
/// [`SubtitleDecoder`], returning the subtitles in the order they were opened.
pub fn subtitles_extract(pgs: &[u8]) -> (r: Result<Vec<BitmapSubtitle>, DecodeError>)
    ensures
        match extract(pgs@) {
            Ok(subs) => r is Ok && subtitles_view(r->Ok_0@) == subs,
            Err(e) => r is Err && r->Err_0 == e,
        },
{
    let display_sets = match crate::segment::decode_display_sets(pgs) {
        Ok(v) => v,
        Err(e) => return Err(e),
    };
    let ghost sets = display_sets@.map_values(|d: DisplaySet| d@);
    let mut decoder = SubtitleDecoder::new();
    let mut k: usize = 0;
    proof {
        assert(sets.take(0) =~= seq![]);
    }
    while k < display_sets.len()
        invariant
            k <= display_sets@.len(),
            sets == display_sets@.map_values(|d: DisplaySet| d@),
            parse_display_sets(pgs@, 0, seq![]) == Ok::<Seq<DisplaySetView>, DecodeError>(sets),
            run(initial_state(), sets.take(k as int)) == Ok::<DecoderView, DecodeError>(decoder@),
            decoder@.wf(),
        decreases display_sets@.len() - k,
    {
        proof {
            assert(sets.take(k + 1).drop_last() =~= sets.take(k as int));
        }
        decoder = match decoder.process_display_set(&display_sets[k]) {
            Ok(d) => d,
            Err(e) => {
                proof {
                    lemma_run_err(initial_state(), sets, k + 1);
                }
                return Err(e);
            },
        };
        k = k + 1;
    }
    proof {
        assert(sets.take(k as int) =~= sets);
    }
    Ok(decoder.into_subtitles())
}

proof fn lemma_apply_ods_keys(m: Map<u16, ObjectView>, ods: Seq<ODSView>, palette: Seq<PaletteEntry>, id: u16)
    requires
        apply_ods(m, ods, palette) is Ok,
        !m.contains_key(id),
        forall|i: int| 0 <= i < ods.len() ==> ods[i].object_id != id,
    ensures
        !apply_ods(m, ods, palette)->Ok_0.contains_key(id),
    decreases ods.len(),
{
    if ods.len() > 0 {
        lemma_apply_ods_keys(m, ods.drop_last(), palette, id);
    }
}

proof fn lemma_add_pds_keys(m: Map<u8, Seq<PaletteEntry>>, pds: Seq<PDSView>, id: u8)
    ensures
        add_pds(m, pds).contains_key(id) ==> m.contains_key(id) || exists|i: int|
            0 <= i < pds.len() && pds[i].palette_id == id,
    decreases pds.len(),
{
    if pds.len() > 0 {
        lemma_add_pds_keys(m, pds.drop_last(), id);
        if add_pds(m, pds.drop_last()).contains_key(id) && !m.contains_key(id) {
            let i = choose|i: int| 0 <= i < pds.drop_last().len() && pds.drop_last()[i].palette_id == id;
            assert(pds[i].palette_id == id);
        }
    }
}

proof fn lemma_add_windows_keys(m: Map<u8, Window>, ws: Seq<Window>, id: u8)
    ensures
        add_windows(m, ws).contains_key(id) ==> m.contains_key(id) || exists|i: int|
            0 <= i < ws.len() && ws[i].window_id == id,
    decreases ws.len(),
{
    if ws.len() > 0 {
        lemma_add_windows_keys(m, ws.drop_last(), id);
        if add_windows(m, ws.drop_last()).contains_key(id) && !m.contains_key(id) {
            let i = choose|i: int| 0 <= i < ws.drop_last().len() && ws.drop_last()[i].window_id == id;
            assert(ws[i].window_id == id);
        }
    }
}

proof fn lemma_add_wds_keys(m: Map<u8, Window>, wds: Seq<WDSView>, id: u8)
    ensures
        add_wds(m, wds).contains_key(id) ==> m.contains_key(id) || exists|i: int, j: int|
            0 <= i < wds.len() && 0 <= j < wds[i].windows.len() && wds[i].windows[j].window_id == id,
    decreases wds.len(),
{
    if wds.len() > 0 {
        let prev = wds.drop_last();
        lemma_add_wds_keys(m, prev, id);
        lemma_add_windows_keys(add_wds(m, prev), wds.last().windows, id);
        if add_wds(m, wds).contains_key(id) && !m.contains_key(id) {
            if add_wds(m, prev).contains_key(id) {
                let (i, j) = choose|i: int, j: int|
                    0 <= i < prev.len() && 0 <= j < prev[i].windows.len() && prev[i].windows[j].window_id == id;
                assert(wds[i].windows[j].window_id == id);
            } else {
                let j = choose|j: int| 0 <= j < wds.last().windows.len() && wds.last().windows[j].window_id == id;
                assert(wds[wds.len() - 1].windows[j].window_id == id);
            }
        }
    }
}

/// An epoch start forgets the epoch before it: afterwards the state knows only
/// the palettes, windows and objects that the display set itself defines, so a
/// composition of an object that only the earlier epoch defined shows nothing.
pub proof fn lemma_epoch_start_forgets(s: DecoderView, ds: DisplaySetView, id: u16)
    requires
        ds.pcs.composition_state == CompositionState::EpochStart,
        step(s, ds) is Ok,
        forall|i: int| 0 <= i < ds.ods.len() ==> ds.ods[i].object_id != id,
    ensures
        !step(s, ds)->Ok_0.objects.contains_key(id),
        forall|c: CompositionObject|
            c.object_id == id ==> #[trigger] placement(step(s, ds)->Ok_0.objects, c) == Ok::<
                Option<BitmapView>,
                DecodeError,
            >(None),
        forall|p: u8|
            #[trigger] step(s, ds)->Ok_0.palettes.contains_key(p) ==> exists|i: int|
                0 <= i < ds.pds.len() && ds.pds[i].palette_id == p,
        forall|w: u8|
            #[trigger] step(s, ds)->Ok_0.windows.contains_key(w) ==> exists|i: int, j: int|
                0 <= i < ds.wds.len() && 0 <= j < ds.wds[i].windows.len() && ds.wds[i].windows[j].window_id
                    == w,
{
    reveal(step);
    let palettes = add_pds(Map::empty(), ds.pds);
    lemma_apply_ods_keys(Map::empty(), ds.ods, palettes[ds.pcs.palette_id], id);
    assert forall|p: u8| #[trigger] step(s, ds)->Ok_0.palettes.contains_key(p) implies exists|i: int|
        0 <= i < ds.pds.len() && ds.pds[i].palette_id == p by {
        lemma_add_pds_keys(Map::empty(), ds.pds, p);
    }
    assert forall|w: u8| #[trigger] step(s, ds)->Ok_0.windows.contains_key(w) implies exists|i: int, j: int|
        0 <= i < ds.wds.len() && 0 <= j < ds.wds[i].windows.len() && ds.wds[i].windows[j].window_id
            == w by {
        lemma_add_wds_keys(Map::empty(), ds.wds, w);
    }
}

/// A first fragment with data `A` followed by a last fragment with data `B` leaves
/// the objects exactly as one only fragment with data `A ‖ B` does, given the same
/// object id, size and palette.
pub proof fn lemma_fragments_concatenate(
    m: Map<u16, ObjectView>,
    first: ODSView,
    last: ODSView,
    whole: ODSView,
    palette: Seq<PaletteEntry>,
)
    requires
        first.last_in_sequence == LastInSequenceFlag::First,
        last.last_in_sequence == LastInSequenceFlag::Last,
        whole.last_in_sequence == LastInSequenceFlag::FirstAndLast,
        last.object_id == first.object_id,
        whole.object_id == first.object_id,
        whole.width == first.width,
        whole.height == first.height,
        whole.data == first.data + last.data,
    ensures
        ods_step(m, first, palette) is Ok,
        ods_step(ods_step(m, first, palette)->Ok_0, last, palette) == ods_step(m, whole, palette),
{
    let id = first.object_id;
    let m1 = ods_step(m, first, palette)->Ok_0;
    assert(m1.contains_key(id));
    let cur = if m.contains_key(id) { m[id] } else { new_object(first) };
    match object_bitmap(whole.data, cur.width, cur.height, palette) {
        Ok(bm) => {
            let v = ObjectView { width: cur.width, height: cur.height, finished: true, data: whole.data, bitmap: bm };
            assert(m1.insert(id, v) =~= m.insert(id, v));
        },
        Err(_) => {},
    }
}

/// A last fragment for an object that is already finished is rejected.
pub proof fn lemma_last_after_finished_rejected(m: Map<u16, ObjectView>, o: ODSView, palette: Seq<PaletteEntry>)
    requires
        m.contains_key(o.object_id),
        m[o.object_id].finished,
        o.last_in_sequence == LastInSequenceFlag::Last,
    ensures
        ods_step(m, o, palette) == Err::<Map<u16, ObjectView>, DecodeError>(DecodeError::ObjectAlreadyFinished),
{
}

proof fn lemma_compose_opens_at(m: Map<u16, ObjectView>, comps: Seq<CompositionObject>, t: Duration)
    requires
        compose(m, comps, t) is Ok,
    ensures
        forall|i: int|
            0 <= i < compose(m, comps, t)->Ok_0.len() ==> (#[trigger] compose(m, comps, t)->Ok_0[i]).range
                == (TimeRange { begin: t, end: open_end() }),
    decreases comps.len(),
{
    if comps.len() > 0 {
        lemma_compose_opens_at(m, comps.drop_last(), t);
    }
}

/// Each display set ends, at its own timestamp, exactly the subtitles that the
/// display set before it opened, leaves older ones as they were, and opens its
/// own subtitles at that timestamp with no end yet.
pub proof fn lemma_step_timeline(s: DecoderView, ds: DisplaySetView)
    requires
        s.open_from <= s.subtitles.len(),
        step(s, ds) is Ok,
    ensures
        ({
            let s2 = step(s, ds)->Ok_0;
            let t = duration_of(ds.pcs.header.pts);
            &&& s2.open_from == s.subtitles.len()
            &&& s.subtitles.len() <= s2.subtitles.len()
            &&& forall|i: int| 0 <= i < s.open_from ==> #[trigger] s2.subtitles[i] == s.subtitles[i]
            &&& forall|i: int|
                s.open_from <= i < s.subtitles.len() ==> (#[trigger] s2.subtitles[i]).range == (TimeRange {
                    begin: s.subtitles[i].range.begin,
                    end: t,
                }) && s2.subtitles[i].bitmap == s.subtitles[i].bitmap
            &&& forall|i: int|
                s.subtitles.len() <= i < s2.subtitles.len() ==> (#[trigger] s2.subtitles[i]).range == (TimeRange {
                    begin: t,
                    end: open_end(),
                })
        }),
{
    reveal(step);
    let t = duration_of(ds.pcs.header.pts);
    let reset = ds.pcs.composition_state == CompositionState::EpochStart;
    let palettes = add_pds(if reset { Map::empty() } else { s.palettes }, ds.pds);
    let objects = apply_ods(if reset { Map::empty() } else { s.objects }, ds.ods, palettes[ds.pcs.palette_id])->Ok_0;
    lemma_compose_opens_at(objects, ds.pcs.composition_objects, t);
    let opened = compose(objects, ds.pcs.composition_objects, t)->Ok_0;
    let s2 = step(s, ds)->Ok_0;
    assert forall|i: int| s.subtitles.len() <= i < s2.subtitles.len() implies (#[trigger] s2.subtitles[i]).range
        == TimeRange { begin: t, end: open_end() } by {
        assert(s2.subtitles[i] == opened[i - s.subtitles.len()]);
    }
}

proof fn lemma_run_step(s: DecoderView, sets: Seq<DisplaySetView>, n: int)
    requires
        0 <= n < sets.len(),
        run(s, sets.take(n)) is Ok,
    ensures
        run(s, sets.take(n + 1)) == step(run(s, sets.take(n))->Ok_0, sets[n]),
{
    assert(sets.take(n + 1).drop_last() =~= sets.take(n));
}

proof fn lemma_run_prefix_ok(s: DecoderView, sets: Seq<DisplaySetView>, n: int)
    requires
        0 <= n <= sets.len(),
        run(s, sets) is Ok,
    ensures
        run(s, sets.take(n)) is Ok,
{
    if run(s, sets.take(n)) is Err {
        lemma_run_err(s, sets, n);
    }
}

proof fn lemma_run_whole(s: DecoderView, sets: Seq<DisplaySetView>)
    ensures
        run(s, sets.take(sets.len() as int)) == run(s, sets),
{
    assert(sets.take(sets.len() as int) =~= sets);
}

/// The state after the first `n` display sets of a run from the initial state.
pub open spec fn state_after(sets: Seq<DisplaySetView>, n: int) -> DecoderView {
    run(initial_state(), sets.take(n))->Ok_0
}

proof fn lemma_run_open_from(sets: Seq<DisplaySetView>, n: int)
    requires
        0 <= n <= sets.len(),
        run(initial_state(), sets.take(n)) is Ok,
    ensures
        state_after(sets, n).open_from <= state_after(sets, n).subtitles.len(),
        n > 0 ==> state_after(sets, n).started,
    decreases n,
{
    if n > 0 {
        assert(sets.take(n).drop_last() =~= sets.take(n - 1));
        lemma_run_open_from(sets, n - 1);
        lemma_run_step(initial_state(), sets, n - 1);
        lemma_step_timeline(state_after(sets, n - 1), sets[n - 1]);
        reveal(step);
    }
}

proof fn lemma_run_keeps_closed(sets: Seq<DisplaySetView>, from: int, n: int, b: int)
    requires
        0 <= from <= n <= sets.len(),
        run(initial_state(), sets.take(n)) is Ok,
        b <= state_after(sets, from).open_from,
    ensures
        b <= state_after(sets, n).open_from,
        forall|i: int| 0 <= i < b ==> #[trigger] state_after(sets, n).subtitles[i] == state_after(sets, from).subtitles[i],
    decreases n - from,
{
    if n > from {
        assert(sets.take(n).drop_last() =~= sets.take(n - 1));
        lemma_run_keeps_closed(sets, from, n - 1, b);
        lemma_run_open_from(sets, n - 1);
        lemma_run_step(initial_state(), sets, n - 1);
        lemma_step_timeline(state_after(sets, n - 1), sets[n - 1]);
    }
}

/// Over a whole run, the subtitles that display set `k` opens begin at its
/// timestamp and end at the timestamp of display set `k + 1`, or stay open when
/// set `k` is the last one.
pub proof fn lemma_run_timeline(sets: Seq<DisplaySetView>, k: int)
    requires
        0 <= k < sets.len(),
        run(initial_state(), sets) is Ok,
    ensures
        ({
            let a = state_after(sets, k).subtitles.len();
            let b = state_after(sets, k + 1).subtitles.len();
            let end = if k + 1 < sets.len() {
                duration_of(sets[k + 1].pcs.header.pts)
            } else {
                open_end()
            };
            &&& a <= b
            &&& b <= run(initial_state(), sets)->Ok_0.subtitles.len()
            &&& forall|i: int|
                a <= i < b ==> (#[trigger] run(initial_state(), sets)->Ok_0.subtitles[i]).range == (TimeRange {
                    begin: duration_of(sets[k].pcs.header.pts),
                    end,
                })
        }),
{
    let n = sets.len() as int;
    lemma_run_whole(initial_state(), sets);
    lemma_run_prefix_ok(initial_state(), sets, k);
    lemma_run_prefix_ok(initial_state(), sets, k + 1);
    lemma_run_open_from(sets, k);
    lemma_run_step(initial_state(), sets, k);
    lemma_step_timeline(state_after(sets, k), sets[k]);
    let a = state_after(sets, k).subtitles.len() as int;
    let b = state_after(sets, k + 1).subtitles.len() as int;
    if k + 1 < n {
        lemma_run_prefix_ok(initial_state(), sets, k + 2);
        lemma_run_open_from(sets, k + 1);
        lemma_run_step(initial_state(), sets, k + 1);
        lemma_step_timeline(state_after(sets, k + 1), sets[k + 1]);
        lemma_run_keeps_closed(sets, k + 2, n, b);
        assert forall|i: int| a <= i < b implies (#[trigger] run(initial_state(), sets)->Ok_0.subtitles[i]).range
            == (TimeRange { begin: duration_of(sets[k].pcs.header.pts), end: duration_of(sets[k + 1].pcs.header.pts) }) by {
            assert(state_after(sets, n).subtitles[i] == state_after(sets, k + 2).subtitles[i]);
        }
        lemma_run_keeps_len(sets, k + 2, n);
    }
}

proof fn lemma_run_keeps_len(sets: Seq<DisplaySetView>, from: int, n: int)
    requires
        0 <= from <= n <= sets.len(),
        run(initial_state(), sets.take(n)) is Ok,
    ensures
        state_after(sets, from).subtitles.len() <= state_after(sets, n).subtitles.len(),
    decreases n - from,
{
    if n > from {
        assert(sets.take(n).drop_last() =~= sets.take(n - 1));
        lemma_run_keeps_len(sets, from, n - 1);
        lemma_run_open_from(sets, n - 1);
        lemma_run_step(initial_state(), sets, n - 1);
        lemma_step_timeline(state_after(sets, n - 1), sets[n - 1]);
    }
}

proof fn lemma_step_keeps_object_absent(s: DecoderView, ds: DisplaySetView, o: u16)
    requires
        step(s, ds) is Ok,
        ds.pcs.composition_state == CompositionState::EpochStart || !s.objects.contains_key(o),
        forall|k: int| 0 <= k < ds.ods.len() ==> (#[trigger] ds.ods[k]).object_id != o,
    ensures
        !step(s, ds)->Ok_0.objects.contains_key(o),
{
    reveal(step);
    let reset = ds.pcs.composition_state == CompositionState::EpochStart;
    let palettes = add_pds(if reset { Map::empty() } else { s.palettes }, ds.pds);
    lemma_apply_ods_keys(
        if reset { Map::empty() } else { s.objects },
        ds.ods,
        palettes[ds.pcs.palette_id],
        o,
    );
}

proof fn lemma_step_keeps_palette_absent(s: DecoderView, ds: DisplaySetView, p: u8)
    requires
        step(s, ds) is Ok,
        ds.pcs.composition_state == CompositionState::EpochStart || !s.palettes.contains_key(p),
        forall|k: int| 0 <= k < ds.pds.len() ==> (#[trigger] ds.pds[k]).palette_id != p,
    ensures
        !step(s, ds)->Ok_0.palettes.contains_key(p),
{
    reveal(step);
    let reset = ds.pcs.composition_state == CompositionState::EpochStart;
    lemma_add_pds_keys(if reset { Map::empty() } else { s.palettes }, ds.pds, p);
}

proof fn lemma_run_keeps_object_absent(sets: Seq<DisplaySetView>, j: int, n: int, o: u16)
    requires
        0 <= j < n <= sets.len(),
        sets[j].pcs.composition_state == CompositionState::EpochStart,
        run(initial_state(), sets.take(n)) is Ok,
        forall|i: int, k: int|
            j <= i < n && 0 <= k < sets[i].ods.len() ==> (#[trigger] sets[i].ods[k]).object_id != o,
    ensures
        !state_after(sets, n).objects.contains_key(o),
    decreases n - j,
{
    assert(sets.take(n).drop_last() =~= sets.take(n - 1));
    lemma_run_step(initial_state(), sets, n - 1);
    if n - 1 > j {
        lemma_run_keeps_object_absent(sets, j, n - 1, o);
    }
    let ds = sets[n - 1];
    assert forall|k: int| 0 <= k < ds.ods.len() implies (#[trigger] ds.ods[k]).object_id != o by {
        assert(sets[n - 1].ods[k].object_id != o);
    }
    lemma_step_keeps_object_absent(state_after(sets, n - 1), ds, o);
}

proof fn lemma_run_keeps_palette_absent(sets: Seq<DisplaySetView>, j: int, n: int, p: u8)
    requires
        0 <= j < n <= sets.len(),
        sets[j].pcs.composition_state == CompositionState::EpochStart,
        run(initial_state(), sets.take(n)) is Ok,
        forall|i: int, k: int|
            j <= i < n && 0 <= k < sets[i].pds.len() ==> (#[trigger] sets[i].pds[k]).palette_id != p,
    ensures
        !state_after(sets, n).palettes.contains_key(p),
    decreases n - j,
{
    assert(sets.take(n).drop_last() =~= sets.take(n - 1));
    lemma_run_step(initial_state(), sets, n - 1);
    if n - 1 > j {
        lemma_run_keeps_palette_absent(sets, j, n - 1, p);
    }
    let ds = sets[n - 1];
    assert forall|k: int| 0 <= k < ds.pds.len() implies (#[trigger] ds.pds[k]).palette_id != p by {
        assert(sets[n - 1].pds[k].palette_id != p);
    }
    lemma_step_keeps_palette_absent(state_after(sets, n - 1), ds, p);
}

/// An epoch start forgets the objects of the epoch before it, over a whole run:
/// when display set `j` starts an epoch and no object definition of sets `j`
/// to `m` has id `o`, a composition of `o` in set `m` shows nothing and opens
/// no subtitle.
pub proof fn lemma_run_epoch_forgets_object(sets: Seq<DisplaySetView>, j: int, m: int, o: u16)
    requires
        0 <= j <= m < sets.len(),
        sets[j].pcs.composition_state == CompositionState::EpochStart,
        run(initial_state(), sets.take(m + 1)) is Ok,
        forall|i: int, k: int|
            j <= i <= m && 0 <= k < sets[i].ods.len() ==> (#[trigger] sets[i].ods[k]).object_id != o,
    ensures
        !state_after(sets, m + 1).objects.contains_key(o),
        forall|c: CompositionObject|
            c.object_id == o ==> #[trigger] placement(state_after(sets, m + 1).objects, c) == Ok::<
                Option<BitmapView>,
                DecodeError,
            >(None),
{
    lemma_run_keeps_object_absent(sets, j, m + 1, o);
}

/// An epoch start forgets the palettes of the epoch before it, over a whole run:
/// when display set `j` starts an epoch, no palette definition of sets `j` to `m`
/// has id `p`, and set `m` selects palette `p`, the run fails at set `m` with an
/// unknown palette, unless it failed earlier.
pub proof fn lemma_run_epoch_forgets_palette(sets: Seq<DisplaySetView>, j: int, m: int, p: u8)
    requires
        0 <= j <= m < sets.len(),
        sets[j].pcs.composition_state == CompositionState::EpochStart,
        run(initial_state(), sets.take(m)) is Ok,
        forall|i: int, k: int|
            j <= i <= m && 0 <= k < sets[i].pds.len() ==> (#[trigger] sets[i].pds[k]).palette_id != p,
        sets[m].pcs.palette_id == p,
    ensures
        run(initial_state(), sets.take(m + 1)) == Err::<DecoderView, DecodeError>(DecodeError::UnknownPalette),
        run(initial_state(), sets) == Err::<DecoderView, DecodeError>(DecodeError::UnknownPalette),
{
    reveal(step);
    lemma_run_step(initial_state(), sets, m);
    let s = state_after(sets, m);
    let ds = sets[m];
    lemma_run_open_from(sets, m);
    let reset = ds.pcs.composition_state == CompositionState::EpochStart;
    if !reset {
        assert(m > j);
        lemma_run_keeps_palette_absent(sets, j, m, p);
    }
    let p0 = if reset { Map::<u8, Seq<PaletteEntry>>::empty() } else { s.palettes };
    lemma_add_pds_keys(p0, ds.pds, p);
    assert forall|k: int| 0 <= k < ds.pds.len() implies (#[trigger] ds.pds[k]).palette_id != p by {
        assert(sets[m].pds[k].palette_id != p);
    }
    assert(!add_pds(p0, ds.pds).contains_key(p));
    lemma_run_err(initial_state(), sets, m + 1);
}

proof fn lemma_apply_ods_append(
    m: Map<u16, ObjectView>,
    a: Seq<ODSView>,
    b: Seq<ODSView>,
    palette: Seq<PaletteEntry>,
)
    ensures
        apply_ods(m, a + b, palette) == match apply_ods(m, a, palette) {
            Err(e) => Err(e),
            Ok(m1) => apply_ods(m1, b, palette),
        },
    decreases b.len(),
{
    if b.len() == 0 {
        assert(a + b =~= a);
    } else {
        assert((a + b).drop_last() =~= a + b.drop_last());
        lemma_apply_ods_append(m, a, b.drop_last(), palette);
    }
}

proof fn lemma_run_same(s: DecoderView, sets1: Seq<DisplaySetView>, sets2: Seq<DisplaySetView>, j: int)
    requires
        sets1.len() == sets2.len(),
        0 <= j < sets1.len(),
        forall|i: int| 0 <= i < sets1.len() && i != j ==> sets1[i] == sets2[i],
        forall|x: DecoderView| #[trigger] step(x, sets1[j]) == step(x, sets2[j]),
    ensures
        run(s, sets1) == run(s, sets2),
    decreases sets1.len(),
{
    let n = sets1.len() - 1;
    if j < n {
        lemma_run_same(s, sets1.drop_last(), sets2.drop_last(), j);
        assert(sets1[n] == sets2[n]);
    } else {
        assert(sets1.drop_last() =~= sets2.drop_last());
    }
}

proof fn lemma_apply_ods_fragments(
    m: Map<u16, ObjectView>,
    pre: Seq<ODSView>,
    first: ODSView,
    last: ODSView,
    whole: ODSView,
    post: Seq<ODSView>,
    pal: Seq<PaletteEntry>,
)
    requires
        first.last_in_sequence == LastInSequenceFlag::First,
        last.last_in_sequence == LastInSequenceFlag::Last,
        whole.last_in_sequence == LastInSequenceFlag::FirstAndLast,
        last.object_id == first.object_id,
        whole.object_id == first.object_id,
        whole.width == first.width,
        whole.height == first.height,
        whole.data == first.data + last.data,
    ensures
        apply_ods(m, pre + seq![first, last] + post, pal) == apply_ods(m, pre + seq![whole] + post, pal),
{
    lemma_apply_ods_append(m, pre + seq![first, last], post, pal);
    lemma_apply_ods_append(m, pre + seq![whole], post, pal);
    lemma_apply_ods_append(m, pre, seq![first, last], pal);
    lemma_apply_ods_append(m, pre, seq![whole], pal);
    match apply_ods(m, pre, pal) {
        Ok(m1) => lemma_apply_pair(m1, first, last, whole, pal),
        Err(_) => {},
    }
}

proof fn lemma_apply_pair(m1: Map<u16, ObjectView>, first: ODSView, last: ODSView, whole: ODSView, pal: Seq<PaletteEntry>)
    requires
        first.last_in_sequence == LastInSequenceFlag::First,
        last.last_in_sequence == LastInSequenceFlag::Last,
        whole.last_in_sequence == LastInSequenceFlag::FirstAndLast,
        last.object_id == first.object_id,
        whole.object_id == first.object_id,
        whole.width == first.width,
        whole.height == first.height,
        whole.data == first.data + last.data,
    ensures
        apply_ods(m1, seq![first, last], pal) == apply_ods(m1, seq![whole], pal),
{
    lemma_fragments_concatenate(m1, first, last, whole, pal);
    let two = seq![first, last];
    let one = seq![whole];
    assert(two.drop_last() =~= seq![first]);
    assert(seq![first].drop_last() =~= Seq::<ODSView>::empty());
    assert(one.drop_last() =~= Seq::<ODSView>::empty());
    assert(apply_ods(m1, Seq::<ODSView>::empty(), pal) == Ok::<Map<u16, ObjectView>, DecodeError>(m1));
    assert(apply_ods(m1, seq![first], pal) == ods_step(m1, first, pal));
    assert(apply_ods(m1, one, pal) == ods_step(m1, whole, pal));
}

proof fn lemma_step_same_objects(x: DecoderView, ds1: DisplaySetView, ds2: DisplaySetView)
    requires
        ds1.pcs == ds2.pcs,
        ds1.wds == ds2.wds,
        ds1.pds == ds2.pds,
        forall|m: Map<u16, ObjectView>, pal: Seq<PaletteEntry>| #[trigger] apply_ods(m, ds1.ods, pal)
            == apply_ods(m, ds2.ods, pal),
    ensures
        step(x, ds1) == step(x, ds2),
{
    reveal(step);
    let reset = ds1.pcs.composition_state == CompositionState::EpochStart;
    let palettes = add_pds(if reset { Map::empty() } else { x.palettes }, ds1.pds);
    let m = if reset { Map::empty() } else { x.objects };
    assert(apply_ods(m, ds1.ods, palettes[ds1.pcs.palette_id]) == apply_ods(m, ds2.ods, palettes[ds1.pcs.palette_id]));
}

/// Fragments join the same way over a whole run: two runs whose display sets
/// are the same but for one, where the first run has a first fragment with data
/// `A` and then a last fragment with data `B` and the second run has one only
/// fragment with data `A ‖ B` (same object, size and surroundings), both fail
/// with the same error or both give the same state, subtitles included.
pub proof fn lemma_run_fragments_concatenate(
    sets1: Seq<DisplaySetView>,
    sets2: Seq<DisplaySetView>,
    j: int,
    pre: Seq<ODSView>,
    first: ODSView,
    last: ODSView,
    whole: ODSView,
    post: Seq<ODSView>,
)
    requires
        sets1.len() == sets2.len(),
        0 <= j < sets1.len(),
        forall|i: int| 0 <= i < sets1.len() && i != j ==> sets1[i] == sets2[i],
        sets1[j].pcs == sets2[j].pcs,
        sets1[j].wds == sets2[j].wds,
        sets1[j].pds == sets2[j].pds,
        sets1[j].end == sets2[j].end,
        sets1[j].ods == pre + seq![first, last] + post,
        sets2[j].ods == pre + seq![whole] + post,
        first.last_in_sequence == LastInSequenceFlag::First,
        last.last_in_sequence == LastInSequenceFlag::Last,
        whole.last_in_sequence == LastInSequenceFlag::FirstAndLast,
        last.object_id == first.object_id,
        whole.object_id == first.object_id,
        whole.width == first.width,
        whole.height == first.height,
        whole.data == first.data + last.data,
    ensures
        run(initial_state(), sets1) == run(initial_state(), sets2),
{
    assert forall|m: Map<u16, ObjectView>, pal: Seq<PaletteEntry>| #[trigger] apply_ods(m, sets1[j].ods, pal)
        == apply_ods(m, sets2[j].ods, pal) by {
        lemma_apply_ods_fragments(m, pre, first, last, whole, post, pal);
    }
    assert forall|x: DecoderView| #[trigger] step(x, sets1[j]) == step(x, sets2[j]) by {
        lemma_step_same_objects(x, sets1[j], sets2[j]);
    }
    lemma_run_same(initial_state(), sets1, sets2, j);
}

proof fn lemma_apply_ods_keeps(m: Map<u16, ObjectView>, ods: Seq<ODSView>, palette: Seq<PaletteEntry>, o: u16)
    requires
        apply_ods(m, ods, palette) is Ok,
        forall|k: int| 0 <= k < ods.len() ==> (#[trigger] ods[k]).object_id != o,
    ensures
        apply_ods(m, ods, palette)->Ok_0.contains_key(o) == m.contains_key(o),
        m.contains_key(o) ==> apply_ods(m, ods, palette)->Ok_0[o] == m[o],
    decreases ods.len(),
{
    if ods.len() > 0 {
        let prev = ods.drop_last();
        assert forall|k: int| 0 <= k < prev.len() implies (#[trigger] prev[k]).object_id != o by {
            assert(ods[k].object_id != o);
        }
        lemma_apply_ods_keeps(m, prev, palette, o);
        assert(ods[ods.len() - 1].object_id != o);
    }
}

/// A last fragment for an object that is already finished is rejected within a
/// display set: when the state holds object `o` finished, the display set does
/// not start an epoch, and its first object definition for `o` is a last
/// fragment, the display set fails.
pub proof fn lemma_step_rejects_last_after_finished(s: DecoderView, ds: DisplaySetView, k: int)
    requires
        0 <= k < ds.ods.len(),
        ds.pcs.composition_state != CompositionState::EpochStart,
        ds.ods[k].last_in_sequence == LastInSequenceFlag::Last,
        s.objects.contains_key(ds.ods[k].object_id),
        s.objects[ds.ods[k].object_id].finished,
        forall|i: int| 0 <= i < k ==> (#[trigger] ds.ods[i]).object_id != ds.ods[k].object_id,
    ensures
        step(s, ds) is Err,
{
    reveal(step);
    let o = ds.ods[k].object_id;
    let palettes = add_pds(s.palettes, ds.pds);
    if s.started && palettes.contains_key(ds.pcs.palette_id) {
        let pal = palettes[ds.pcs.palette_id];
        let before = ds.ods.take(k);
        if apply_ods(s.objects, before, pal) is Err {
            lemma_apply_ods_err(s.objects, ds.ods, pal, k);
        } else {
            assert forall|i: int| 0 <= i < before.len() implies (#[trigger] before[i]).object_id != o by {
                assert(ds.ods[i].object_id != o);
            }
            lemma_apply_ods_keeps(s.objects, before, pal, o);
            assert(ds.ods.take(k + 1).drop_last() =~= before);
            lemma_last_after_finished_rejected(apply_ods(s.objects, before, pal)->Ok_0, ds.ods[k], pal);
            lemma_apply_ods_err(s.objects, ds.ods, pal, k + 1);
        }
    }
}

/// Over a whole run: when the state after the first `j` display sets holds object
/// `o` finished and display set `j`, which does not start an epoch, brings a last
/// fragment for `o` before any other fragment of it, the run fails.
pub proof fn lemma_run_rejects_last_after_finished(sets: Seq<DisplaySetView>, j: int, k: int)
    requires
        0 <= j < sets.len(),
        run(initial_state(), sets.take(j)) is Ok,
        0 <= k < sets[j].ods.len(),
        sets[j].pcs.composition_state != CompositionState::EpochStart,
        sets[j].ods[k].last_in_sequence == LastInSequenceFlag::Last,
        state_after(sets, j).objects.contains_key(sets[j].ods[k].object_id),
        state_after(sets, j).objects[sets[j].ods[k].object_id].finished,
        forall|i: int| 0 <= i < k ==> (#[trigger] sets[j].ods[i]).object_id != sets[j].ods[k].object_id,
    ensures
        run(initial_state(), sets) is Err,
{
    lemma_run_step(initial_state(), sets, j);
    lemma_step_rejects_last_after_finished(state_after(sets, j), sets[j], k);
    lemma_run_err(initial_state(), sets, j + 1);
}

/// The timeline law for the subtitles of a stream: the subtitles that display
/// set `k` of the stream opens run from its timestamp to that of set `k + 1`, or
/// stay open after the last set.
pub proof fn lemma_extract_timeline(pgs: Seq<u8>, sets: Seq<DisplaySetView>, k: int)
    requires
        parse_display_sets(pgs, 0, seq![]) == Ok::<Seq<DisplaySetView>, DecodeError>(sets),
        extract(pgs) is Ok,
        0 <= k < sets.len(),
    ensures
        ({
            let subs = extract(pgs)->Ok_0;
            let a = state_after(sets, k).subtitles.len();
            let b = state_after(sets, k + 1).subtitles.len();
            let end = if k + 1 < sets.len() {
                duration_of(sets[k + 1].pcs.header.pts)
            } else {
                open_end()
            };
            &&& a <= b <= subs.len()
            &&& forall|i: int|
                a <= i < b ==> (#[trigger] subs[i]).range == (TimeRange {
                    begin: duration_of(sets[k].pcs.header.pts),
                    end,
                })
        }),
{
    lemma_run_timeline(sets, k);
}

/// For a stream: after an epoch start at display set `j`, a palette that only
/// an earlier epoch defined is unknown, so a set `m` that selects it makes the
/// stream fail, unless it failed before set `m`.
pub proof fn lemma_extract_epoch_forgets_palette(pgs: Seq<u8>, sets: Seq<DisplaySetView>, j: int, m: int, p: u8)
    requires
        parse_display_sets(pgs, 0, seq![]) == Ok::<Seq<DisplaySetView>, DecodeError>(sets),
        0 <= j <= m < sets.len(),
        sets[j].pcs.composition_state == CompositionState::EpochStart,
        run(initial_state(), sets.take(m)) is Ok,
        forall|i: int, k: int|
            j <= i <= m && 0 <= k < sets[i].pds.len() ==> (#[trigger] sets[i].pds[k]).palette_id != p,
        sets[m].pcs.palette_id == p,
    ensures
        extract(pgs) == Err::<Seq<SubtitleView>, DecodeError>(DecodeError::UnknownPalette),
{
    lemma_run_epoch_forgets_palette(sets, j, m, p);
}

/// For a stream: a last fragment for an object already finished in the current
/// epoch makes the stream fail.
pub proof fn lemma_extract_rejects_last_after_finished(pgs: Seq<u8>, sets: Seq<DisplaySetView>, j: int, k: int)
    requires
        parse_display_sets(pgs, 0, seq![]) == Ok::<Seq<DisplaySetView>, DecodeError>(sets),
        0 <= j < sets.len(),
        run(initial_state(), sets.take(j)) is Ok,
        0 <= k < sets[j].ods.len(),
        sets[j].pcs.composition_state != CompositionState::EpochStart,
        sets[j].ods[k].last_in_sequence == LastInSequenceFlag::Last,
        state_after(sets, j).objects.contains_key(sets[j].ods[k].object_id),
        state_after(sets, j).objects[sets[j].ods[k].object_id].finished,
        forall|i: int| 0 <= i < k ==> (#[trigger] sets[j].ods[i]).object_id != sets[j].ods[k].object_id,
    ensures
        extract(pgs) is Err,
{
    lemma_run_rejects_last_after_finished(sets, j, k);
}

} // verus!
