//! The byte layout of PGS segments: big-endian fields, the raw header and
//! segment bodies, and the run-length codes of object data.

use vstd::prelude::*;

use crate::error::DecodeError;

verus! {

/// The two bytes `"PG"` that open every segment header.
pub const MAGIC_NUMBER: u16 = 0x5047;

pub const SEGMENT_TYPE_PDS: u8 = 0x14;
pub const SEGMENT_TYPE_ODS: u8 = 0x15;
pub const SEGMENT_TYPE_PCS: u8 = 0x16;
pub const SEGMENT_TYPE_WDS: u8 = 0x17;
pub const SEGMENT_TYPE_END: u8 = 0x80;

pub const FRAME_RATE: u8 = 0x10;

pub const COMPOSITION_STATE_NORMAL: u8 = 0x00;
pub const COMPOSITION_STATE_ACQUISITION_POINT: u8 = 0x40;
pub const COMPOSITION_STATE_EPOCH_START: u8 = 0x80;

pub const PALETTE_UPDATE_FLAG_FALSE: u8 = 0x00;
pub const PALETTE_UPDATE_FLAG_TRUE: u8 = 0x80;

pub const OBJECT_CROPPED_FLAG_OFF: u8 = 0x00;
pub const OBJECT_CROPPED_FLAG_FORCE: u8 = 0x40;

pub const LAST_IN_SEQUENCE_FLAG_LAST_IN_SEQ: u8 = 0x40;
pub const LAST_IN_SEQUENCE_FLAG_FIRST_IN_SEQ: u8 = 0x80;
pub const LAST_IN_SEQUENCE_FLAG_FIRST_AND_LAST_IN_SEQ: u8 = 0xC0;

/// The big-endian 16-bit value of `b[i..i + 2]`.
pub open spec fn be16(b: Seq<u8>, i: int) -> u16 {
    (b[i] as int * 0x100 + b[i + 1] as int) as u16
}

/// The big-endian 24-bit value of `b[i..i + 3]`.
pub open spec fn be24(b: Seq<u8>, i: int) -> u32 {
    (b[i] as int * 0x10000 + b[i + 1] as int * 0x100 + b[i + 2] as int) as u32
}

/// The big-endian 32-bit value of `b[i..i + 4]`.
pub open spec fn be32(b: Seq<u8>, i: int) -> u32 {
    (b[i] as int * 0x1000000 + b[i + 1] as int * 0x10000 + b[i + 2] as int * 0x100
        + b[i + 3] as int) as u32
}

fn read_u8(buf: &[u8], pos: usize) -> (r: Result<(u8, usize), DecodeError>)
    ensures
        pos + 1 <= buf@.len() ==> r == Ok::<(u8, usize), DecodeError>((buf@[pos as int], (pos + 1) as usize)),
        pos + 1 > buf@.len() ==> r == Err::<(u8, usize), DecodeError>(DecodeError::UnexpectedEof),
        r is Ok ==> r->Ok_0.1 == pos + 1,
{
    if pos >= buf.len() {
        return Err(DecodeError::UnexpectedEof);
    }
    Ok((buf[pos], pos + 1))
}

fn read_u16(buf: &[u8], pos: usize) -> (r: Result<(u16, usize), DecodeError>)
    ensures
        pos + 2 <= buf@.len() ==> r == Ok::<(u16, usize), DecodeError>((be16(buf@, pos as int), (pos + 2) as usize)),
        pos + 2 > buf@.len() ==> r == Err::<(u16, usize), DecodeError>(DecodeError::UnexpectedEof),
        r is Ok ==> r->Ok_0.1 == pos + 2,
{
    if pos >= buf.len() || buf.len() - pos < 2 {
        return Err(DecodeError::UnexpectedEof);
    }
    let v = (buf[pos] as u16) * 0x100 + buf[pos + 1] as u16;
    Ok((v, pos + 2))
}

fn read_u24(buf: &[u8], pos: usize) -> (r: Result<(u32, usize), DecodeError>)
    ensures
        pos + 3 <= buf@.len() ==> r == Ok::<(u32, usize), DecodeError>((be24(buf@, pos as int), (pos + 3) as usize)),
        pos + 3 > buf@.len() ==> r == Err::<(u32, usize), DecodeError>(DecodeError::UnexpectedEof),
        r is Ok ==> r->Ok_0.1 == pos + 3,
{
    if pos >= buf.len() || buf.len() - pos < 3 {
        return Err(DecodeError::UnexpectedEof);
    }
    let v = (buf[pos] as u32) * 0x10000 + (buf[pos + 1] as u32) * 0x100 + buf[pos + 2] as u32;
    Ok((v, pos + 3))
}

fn read_u32(buf: &[u8], pos: usize) -> (r: Result<(u32, usize), DecodeError>)
    ensures
        pos + 4 <= buf@.len() ==> r == Ok::<(u32, usize), DecodeError>((be32(buf@, pos as int), (pos + 4) as usize)),
        pos + 4 > buf@.len() ==> r == Err::<(u32, usize), DecodeError>(DecodeError::UnexpectedEof),
        r is Ok ==> r->Ok_0.1 == pos + 4,
{
    if pos >= buf.len() || buf.len() - pos < 4 {
        return Err(DecodeError::UnexpectedEof);
    }
    let v = (buf[pos] as u32) * 0x1000000 + (buf[pos + 1] as u32) * 0x10000
        + (buf[pos + 2] as u32) * 0x100 + buf[pos + 3] as u32;
    Ok((v, pos + 4))
}


/// Whether `r` is what a [`Wire::read`] at `pos` returns when the bytes from `pos` on
/// parse as `p`.
pub open spec fn read_result<T>(r: Result<(T, usize), DecodeError>, p: Option<(T, nat)>, pos: int) -> bool {
    match p {
        None => r == Err::<(T, usize), DecodeError>(DecodeError::UnexpectedEof),
        Some((v, n)) => r is Ok && r->Ok_0.0 == v && r->Ok_0.1 == pos + n,
    }
}

/// A record with a fixed byte layout.
pub trait Wire: Sized {
    /// The record at the front of `b` and its length in bytes, or `None` when `b`
    /// ends before the record does.
    spec fn parse(b: Seq<u8>) -> Option<(Self, nat)>;

    /// Reads the record at `pos`, returning it with the position just after it.
    fn read(buf: &[u8], pos: usize) -> (r: Result<(Self, usize), DecodeError>)
        requires
            pos <= buf@.len(),
        ensures
            read_result(r, Self::parse(buf@.skip(pos as int)), pos as int),
    ;
}

#[derive(Debug, Default, Clone, Copy, PartialEq, Eq, Structural)]
pub struct SegmentHeader {
    pub magic_number: u16,
    pub pts: u32,
    pub dts: u32,
    pub segment_type: u8,
    pub segment_size: u16,
}

/// Presentation Composition Segment
#[derive(Debug, Default, Clone, Copy, PartialEq, Eq, Structural)]
pub struct SegmentPCS {
    pub width: u16,
    pub height: u16,
    pub framerate: u8,
    pub composition_number: u16,
    pub composition_state: u8,
    pub palette_update_flag: u8,
    pub palette_id: u8,
    pub number_of_composition_objects: u8,
}

#[derive(Debug, Default, Clone, Copy, PartialEq, Eq, Structural)]
pub struct CompositionObject {
    pub object_id: u16,
    pub window_id: u8,
    pub object_cropped_flag: u8,
    pub object_horizontal_position: u16,
    pub object_vertical_position: u16,
    pub object_cropping_horizontal_position: u16,
    pub object_cropping_vertical_position: u16,
    pub object_cropping_width: u16,
    pub object_cropping_height: u16,
}

/// Window Definition Segment
#[derive(Debug, Default, Clone, Copy, PartialEq, Eq, Structural)]
pub struct SegmentWDS {
    pub number_of_windows: u8,
}

#[derive(Debug, Default, Clone, Copy, PartialEq, Eq, Structural)]
pub struct Window {
    pub window_id: u8,
    pub window_horizontal_position: u16,
    pub window_vertical_position: u16,
    pub window_width: u16,
    pub window_height: u16,
}

/// Palette Definition Segment
#[derive(Debug, Default, Clone, Copy, PartialEq, Eq, Structural)]
pub struct SegmentPDS {
    pub palette_id: u8,
    pub palette_version: u8,
}

#[derive(Debug, Default, Clone, Copy, PartialEq, Eq, Structural)]
pub struct PaletteEntry {
    pub palette_entry_id: u8,
    pub luminance: u8,
    pub color_diff_red: u8,
    pub color_diff_blue: u8,
    pub transparency: u8,
}

/// Object Definition Segment
#[derive(Debug, Default, Clone, Copy, PartialEq, Eq, Structural)]
pub struct SegmentODS {
    pub object_id: u16,
    pub object_version: u8,
    pub last_in_sequence_flag: u8,
    pub object_data_length: u32,
    pub width: u16,
    pub height: u16,
}

impl Wire for SegmentHeader {
    open spec fn parse(b: Seq<u8>) -> Option<(Self, nat)> {
        if b.len() < 13 {
            None
        } else {
            Some((SegmentHeader {
                magic_number: be16(b, 0),
                pts: be32(b, 2),
                dts: be32(b, 6),
                segment_type: b[10],
                segment_size: be16(b, 11),
            }, 13))
        }
    }

    fn read(buf: &[u8], pos: usize) -> (r: Result<(Self, usize), DecodeError>) {
        let (magic_number, p) = match read_u16(buf, pos) {
            Ok(v) => v,
            Err(e) => return Err(e),
        };
        let (pts, p) = match read_u32(buf, p) {
            Ok(v) => v,
            Err(e) => return Err(e),
        };
        let (dts, p) = match read_u32(buf, p) {
            Ok(v) => v,
            Err(e) => return Err(e),
        };
        let (segment_type, p) = match read_u8(buf, p) {
            Ok(v) => v,
            Err(e) => return Err(e),
        };
        let (segment_size, p) = match read_u16(buf, p) {
            Ok(v) => v,
            Err(e) => return Err(e),
        };
        Ok((SegmentHeader { magic_number, pts, dts, segment_type, segment_size }, p))
    }
}

impl Wire for SegmentPCS {
    open spec fn parse(b: Seq<u8>) -> Option<(Self, nat)> {
        if b.len() < 11 {
            None
        } else {
            Some((SegmentPCS {
                width: be16(b, 0),
                height: be16(b, 2),
                framerate: b[4],
                composition_number: be16(b, 5),
                composition_state: b[7],
                palette_update_flag: b[8],
                palette_id: b[9],
                number_of_composition_objects: b[10],
            }, 11))
        }
    }

    fn read(buf: &[u8], pos: usize) -> (r: Result<(Self, usize), DecodeError>) {
        let (width, p) = match read_u16(buf, pos) {
            Ok(v) => v,
            Err(e) => return Err(e),
        };
        let (height, p) = match read_u16(buf, p) {
            Ok(v) => v,
            Err(e) => return Err(e),
        };
        let (framerate, p) = match read_u8(buf, p) {
            Ok(v) => v,
            Err(e) => return Err(e),
        };
        let (composition_number, p) = match read_u16(buf, p) {
            Ok(v) => v,
            Err(e) => return Err(e),
        };
        let (composition_state, p) = match read_u8(buf, p) {
            Ok(v) => v,
            Err(e) => return Err(e),
        };
        let (palette_update_flag, p) = match read_u8(buf, p) {
            Ok(v) => v,
            Err(e) => return Err(e),
        };
        let (palette_id, p) = match read_u8(buf, p) {
            Ok(v) => v,
            Err(e) => return Err(e),
        };
        let (number_of_composition_objects, p) = match read_u8(buf, p) {
            Ok(v) => v,
            Err(e) => return Err(e),
        };
        Ok((
            SegmentPCS {
                width,
                height,
                framerate,
                composition_number,
                composition_state,
                palette_update_flag,
                palette_id,
                number_of_composition_objects,
            },
            p,
        ))
    }
}

impl Wire for CompositionObject {
    /// The cropping fields are present only when the cropped flag is `0x40`;
    /// otherwise they read as zero.
    open spec fn parse(b: Seq<u8>) -> Option<(Self, nat)> {
        if b.len() < 8 {
            None
        } else if b[3] == OBJECT_CROPPED_FLAG_FORCE {
            if b.len() < 16 {
                None
            } else {
                Some((CompositionObject {
                    object_id: be16(b, 0),
                    window_id: b[2],
                    object_cropped_flag: b[3],
                    object_horizontal_position: be16(b, 4),
                    object_vertical_position: be16(b, 6),
                    object_cropping_horizontal_position: be16(b, 8),
                    object_cropping_vertical_position: be16(b, 10),
                    object_cropping_width: be16(b, 12),
                    object_cropping_height: be16(b, 14),
                }, 16))
            }
        } else {
            Some((CompositionObject {
                object_id: be16(b, 0),
                window_id: b[2],
                object_cropped_flag: b[3],
                object_horizontal_position: be16(b, 4),
                object_vertical_position: be16(b, 6),
                object_cropping_horizontal_position: 0,
                object_cropping_vertical_position: 0,
                object_cropping_width: 0,
                object_cropping_height: 0,
            }, 8))
        }
    }

    fn read(buf: &[u8], pos: usize) -> (r: Result<(Self, usize), DecodeError>) {
        let (object_id, p) = match read_u16(buf, pos) {
            Ok(v) => v,
            Err(e) => return Err(e),
        };
        let (window_id, p) = match read_u8(buf, p) {
            Ok(v) => v,
            Err(e) => return Err(e),
        };
        let (object_cropped_flag, p) = match read_u8(buf, p) {
            Ok(v) => v,
            Err(e) => return Err(e),
        };
        let (object_horizontal_position, p) = match read_u16(buf, p) {
            Ok(v) => v,
            Err(e) => return Err(e),
        };
        let (object_vertical_position, p) = match read_u16(buf, p) {
            Ok(v) => v,
            Err(e) => return Err(e),
        };
        let mut s = CompositionObject {
            object_id,
            window_id,
            object_cropped_flag,
            object_horizontal_position,
            object_vertical_position,
            object_cropping_horizontal_position: 0,
            object_cropping_vertical_position: 0,
            object_cropping_width: 0,
            object_cropping_height: 0,
        };
        if object_cropped_flag == OBJECT_CROPPED_FLAG_FORCE {
            let (h, p) = match read_u16(buf, p) {
            Ok(v) => v,
            Err(e) => return Err(e),
        };
            let (v, p) = match read_u16(buf, p) {
            Ok(v) => v,
            Err(e) => return Err(e),
        };
            let (w, p) = match read_u16(buf, p) {
            Ok(v) => v,
            Err(e) => return Err(e),
        };
            let (ht, p) = match read_u16(buf, p) {
            Ok(v) => v,
            Err(e) => return Err(e),
        };
            s.object_cropping_horizontal_position = h;
            s.object_cropping_vertical_position = v;
            s.object_cropping_width = w;
            s.object_cropping_height = ht;
            return Ok((s, p));
        }
        Ok((s, p))
    }
}

impl Wire for SegmentWDS {
    open spec fn parse(b: Seq<u8>) -> Option<(Self, nat)> {
        if b.len() < 1 {
            None
        } else {
            Some((SegmentWDS { number_of_windows: b[0] }, 1))
        }
    }

    fn read(buf: &[u8], pos: usize) -> (r: Result<(Self, usize), DecodeError>) {
        let (number_of_windows, p) = match read_u8(buf, pos) {
            Ok(v) => v,
            Err(e) => return Err(e),
        };
        Ok((SegmentWDS { number_of_windows }, p))
    }
}

impl Wire for Window {
    open spec fn parse(b: Seq<u8>) -> Option<(Self, nat)> {
        if b.len() < 9 {
            None
        } else {
            Some((Window {
                window_id: b[0],
                window_horizontal_position: be16(b, 1),
                window_vertical_position: be16(b, 3),
                window_width: be16(b, 5),
                window_height: be16(b, 7),
            }, 9))
        }
    }

    fn read(buf: &[u8], pos: usize) -> (r: Result<(Self, usize), DecodeError>) {
        let (window_id, p) = match read_u8(buf, pos) {
            Ok(v) => v,
            Err(e) => return Err(e),
        };
        let (window_horizontal_position, p) = match read_u16(buf, p) {
            Ok(v) => v,
            Err(e) => return Err(e),
        };
        let (window_vertical_position, p) = match read_u16(buf, p) {
            Ok(v) => v,
            Err(e) => return Err(e),
        };
        let (window_width, p) = match read_u16(buf, p) {
            Ok(v) => v,
            Err(e) => return Err(e),
        };
        let (window_height, p) = match read_u16(buf, p) {
            Ok(v) => v,
            Err(e) => return Err(e),
        };
        Ok((
            Window {
                window_id,
                window_horizontal_position,
                window_vertical_position,
                window_width,
                window_height,
            },
            p,
        ))
    }
}

impl Wire for SegmentPDS {
    open spec fn parse(b: Seq<u8>) -> Option<(Self, nat)> {
        if b.len() < 2 {
            None
        } else {
            Some((SegmentPDS { palette_id: b[0], palette_version: b[1] }, 2))
        }
    }

    fn read(buf: &[u8], pos: usize) -> (r: Result<(Self, usize), DecodeError>) {
        let (palette_id, p) = match read_u8(buf, pos) {
            Ok(v) => v,
            Err(e) => return Err(e),
        };
        let (palette_version, p) = match read_u8(buf, p) {
            Ok(v) => v,
            Err(e) => return Err(e),
        };
        Ok((SegmentPDS { palette_id, palette_version }, p))
    }
}

impl Wire for PaletteEntry {
    open spec fn parse(b: Seq<u8>) -> Option<(Self, nat)> {
        if b.len() < 5 {
            None
        } else {
            Some((PaletteEntry {
                palette_entry_id: b[0],
                luminance: b[1],
                color_diff_red: b[2],
                color_diff_blue: b[3],
                transparency: b[4],
            }, 5))
        }
    }

    fn read(buf: &[u8], pos: usize) -> (r: Result<(Self, usize), DecodeError>) {
        let (palette_entry_id, p) = match read_u8(buf, pos) {
            Ok(v) => v,
            Err(e) => return Err(e),
        };
        let (luminance, p) = match read_u8(buf, p) {
            Ok(v) => v,
            Err(e) => return Err(e),
        };
        let (color_diff_red, p) = match read_u8(buf, p) {
            Ok(v) => v,
            Err(e) => return Err(e),
        };
        let (color_diff_blue, p) = match read_u8(buf, p) {
            Ok(v) => v,
            Err(e) => return Err(e),
        };
        let (transparency, p) = match read_u8(buf, p) {
            Ok(v) => v,
            Err(e) => return Err(e),
        };
        Ok((PaletteEntry { palette_entry_id, luminance, color_diff_red, color_diff_blue, transparency }, p))
    }
}

impl Wire for SegmentODS {
    open spec fn parse(b: Seq<u8>) -> Option<(Self, nat)> {
        if b.len() < 11 {
            None
        } else {
            Some((SegmentODS {
                object_id: be16(b, 0),
                object_version: b[2],
                last_in_sequence_flag: b[3],
                object_data_length: be24(b, 4),
                width: be16(b, 7),
                height: be16(b, 9),
            }, 11))
        }
    }

    fn read(buf: &[u8], pos: usize) -> (r: Result<(Self, usize), DecodeError>) {
        let (object_id, p) = match read_u16(buf, pos) {
            Ok(v) => v,
            Err(e) => return Err(e),
        };
        let (object_version, p) = match read_u8(buf, p) {
            Ok(v) => v,
            Err(e) => return Err(e),
        };
        let (last_in_sequence_flag, p) = match read_u8(buf, p) {
            Ok(v) => v,
            Err(e) => return Err(e),
        };
        let (object_data_length, p) = match read_u24(buf, p) {
            Ok(v) => v,
            Err(e) => return Err(e),
        };
        let (width, p) = match read_u16(buf, p) {
            Ok(v) => v,
            Err(e) => return Err(e),
        };
        let (height, p) = match read_u16(buf, p) {
            Ok(v) => v,
            Err(e) => return Err(e),
        };
        Ok((SegmentODS { object_id, object_version, last_in_sequence_flag, object_data_length, width, height }, p))
    }
}

#[derive(Debug, Clone, Copy, PartialEq, Eq, Structural)]
pub enum ImageDataCode {
    Color { color: u8, count: u16 },
    EndOfLine,
}

/// `n - 1`, or `0` when `n` is `0`.
pub open spec fn minus_one(n: int) -> int {
    if n == 0 { 0 } else { n - 1 }
}

/// The run-length code at the front of `b` and the number of bytes it takes.
///
/// With `v0 = b[0]` and, when `v0 == 0`, `v1 = b[1]`:
/// a non-zero `v0` is one pixel of that color; `v1` in `1..=63` is a run of `v1`
/// pixels of color 0; `v1 == 0` ends a line; otherwise the top two bits of `v1`
/// choose a 14-bit run of color 0 shortened by one (`01`), a 6-bit run of color
/// `b[2]` (`10`), or a 14-bit run of color `b[3]` (`11`).
pub open spec fn image_code(b: Seq<u8>) -> Result<(ImageDataCode, nat), DecodeError> {
    if b.len() == 0 {
        Err(DecodeError::UnexpectedEof)
    } else if b[0] != 0 {
        Ok((ImageDataCode::Color { color: b[0], count: 1 }, 1))
    } else if b.len() < 2 {
        Err(DecodeError::InvalidRle)
    } else if 1 <= b[1] <= 63 {
        Ok((ImageDataCode::Color { color: 0, count: b[1] as u16 }, 2))
    } else if b[1] == 0 {
        Ok((ImageDataCode::EndOfLine, 2))
    } else if b.len() < 3 {
        Err(DecodeError::InvalidRle)
    } else if b[1] / 64 == 1 {
        let n = (b[1] % 64) as int * 0x100 + b[2] as int;
        Ok((ImageDataCode::Color { color: 0, count: minus_one(n) as u16 }, 3))
    } else if b[1] / 64 == 2 {
        Ok((ImageDataCode::Color { color: b[2], count: (b[1] % 64) as u16 }, 3))
    } else if b.len() < 4 {
        Err(DecodeError::InvalidRle)
    } else {
        let n = (b[1] % 64) as int * 0x100 + b[2] as int;
        Ok((ImageDataCode::Color { color: b[3], count: n as u16 }, 4))
    }
}

/// The run-length codes that make up all of `b`, or the first error met.
pub open spec fn image_codes(b: Seq<u8>) -> Result<Seq<ImageDataCode>, DecodeError>
    decreases b.len(),
{
    if b.len() == 0 {
        Ok(Seq::empty())
    } else {
        match image_code(b) {
            Err(e) => Err(e),
            Ok((c, n)) => match image_codes(b.skip(n as int)) {
                Err(e) => Err(e),
                Ok(cs) => Ok(seq![c] + cs),
            },
        }
    }
}

/// Decodes the run-length code at the front of `buf`, returning it with its length.
pub fn decode_image_data_code(buf: &[u8]) -> (r: Result<(ImageDataCode, usize), DecodeError>)
    ensures
        match image_code(buf@) {
            Ok((c, n)) => r is Ok && r->Ok_0.0 == c && r->Ok_0.1 == n,
            Err(e) => r == Err::<(ImageDataCode, usize), DecodeError>(e),
        },
{
    if buf.len() == 0 {
        return Err(DecodeError::UnexpectedEof);
    }
    let v0 = buf[0];
    if v0 > 0 {
        return Ok((ImageDataCode::Color { color: v0, count: 1 }, 1));
    }
    if buf.len() < 2 {
        return Err(DecodeError::InvalidRle);
    }
    let v1 = buf[1];
    if v1 >= 1 && v1 <= 63 {
        return Ok((ImageDataCode::Color { color: 0, count: v1 as u16 }, 2));
    }
    if v1 == 0 {
        return Ok((ImageDataCode::EndOfLine, 2));
    }
    if buf.len() < 3 {
        return Err(DecodeError::InvalidRle);
    }
    let v2 = buf[2];
    let top = v1 / 64;
    let low = (v1 % 64) as u16;
    if top == 1 {
        let n = low * 0x100 + v2 as u16;
        let n = if n == 0 { 0 } else { n - 1 };
        return Ok((ImageDataCode::Color { color: 0, count: n }, 3));
    }
    if top == 2 {
        return Ok((ImageDataCode::Color { color: v2, count: low }, 3));
    }
    if buf.len() < 4 {
        return Err(DecodeError::InvalidRle);
    }
    let v3 = buf[3];
    let n = low * 0x100 + v2 as u16;
    Ok((ImageDataCode::Color { color: v3, count: n }, 4))
}

/// Walks the run-length codes of a byte buffer one at a time.
pub struct ImageDataDecoder<'a> {
    buf: &'a [u8],
    offset: usize,
}

impl<'a> ImageDataDecoder<'a> {
    #[verifier::type_invariant]
    spec fn inv(&self) -> bool {
        self.offset <= self.buf@.len()
    }

    /// The bytes not decoded yet.
    pub closed spec fn remaining(&self) -> Seq<u8> {
        self.buf@.skip(self.offset as int)
    }

    pub fn new(buf: &'a [u8]) -> (r: Self)
        ensures
            r.remaining() == buf@,
    {
        let r = ImageDataDecoder { buf, offset: 0 };
        assert(r.remaining() =~= buf@);
        r
    }

    /// The next code, `None` once every byte is decoded. After an error the
    /// decoder stays where it was, so the same error comes again.
    pub fn next(&mut self) -> (r: Option<Result<ImageDataCode, DecodeError>>)
        ensures
            old(self).remaining().len() == 0 ==> r is None && final(self).remaining() == old(self).remaining(),
            old(self).remaining().len() > 0 ==> match image_code(old(self).remaining()) {
                Err(e) => r == Some(Err::<ImageDataCode, DecodeError>(e))
                    && final(self).remaining() == old(self).remaining(),
                Ok((c, n)) => r == Some(Ok::<ImageDataCode, DecodeError>(c))
                    && final(self).remaining() == old(self).remaining().skip(n as int),
            },
    {
        proof {
            use_type_invariant(&*self);
        }
        if self.offset == self.buf.len() {
            return None;
        }
        let rest = vstd::slice::slice_subrange(self.buf, self.offset, self.buf.len());
        match decode_image_data_code(rest) {
            Err(e) => Some(Err(e)),
            Ok((code, n)) => {
                proof {
                    assert(self.buf@.skip(self.offset as int).skip(n as int) =~= self.buf@.skip(
                        self.offset + n,
                    ));
                }
                self.offset = self.offset + n;
                Some(Ok(code))
            },
        }
    }
}

/// A decoder over the run-length codes of `buf`.
pub fn decode_image_data(buf: &[u8]) -> (r: ImageDataDecoder<'_>)
    ensures
        r.remaining() == buf@,
{
    ImageDataDecoder::new(buf)
}

} // verus!
