//! Object images: run-length data expanded to palette indices, indices turned
//! into RGBA bitmaps, and cropping of a bitmap.

use vstd::prelude::*;

use crate::color::rgba_of;
use crate::error::DecodeError;
use crate::segment::PaletteEntry;
use crate::wire::{decode_image_data, image_code, image_codes, ImageDataCode};

verus! {

/// The pixels that one code stands for: a run of one color, or none for an end of line.
pub open spec fn code_pixels(c: ImageDataCode) -> Seq<u8> {
    match c {
        ImageDataCode::Color { color, count } => Seq::new(count as nat, |i: int| color),
        ImageDataCode::EndOfLine => seq![],
    }
}

/// The pixels of a sequence of codes, in order.
pub open spec fn codes_pixels(cs: Seq<ImageDataCode>) -> Seq<u8>
    decreases cs.len(),
{
    if cs.len() == 0 {
        seq![]
    } else {
        codes_pixels(cs.drop_last()) + code_pixels(cs.last())
    }
}

/// The palette indices that the run-length data `b` expands to.
pub open spec fn rle_pixels(b: Seq<u8>) -> Result<Seq<u8>, DecodeError> {
    match image_codes(b) {
        Ok(cs) => Ok(codes_pixels(cs)),
        Err(e) => Err(e),
    }
}

/// What [`decode_rle_data`] gives for data `b` of an object of `width` by `height`
/// pixels: its palette indices when there are exactly `width * height` of them.
pub open spec fn rle_image(b: Seq<u8>, width: u16, height: u16) -> Result<Seq<u8>, DecodeError> {
    match rle_pixels(b) {
        Err(e) => Err(e),
        Ok(px) => if px.len() == width * height {
            Ok(px)
        } else {
            Err(DecodeError::RleLengthMismatch)
        },
    }
}

/// Run-length data that follows the grammar gives an object's pixels exactly when
/// it expands to as many pixels as the object has; any other count is a length
/// mismatch.
pub proof fn lemma_rle_pixel_count(b: Seq<u8>, width: u16, height: u16)
    requires
        rle_pixels(b) is Ok,
    ensures
        rle_pixels(b)->Ok_0.len() == width * height ==> rle_image(b, width, height) == rle_pixels(b),
        rle_pixels(b)->Ok_0.len() != width * height ==> rle_image(b, width, height) == Err::<
            Seq<u8>,
            DecodeError,
        >(DecodeError::RleLengthMismatch),
{
}

spec fn prepend_codes(cs: Seq<ImageDataCode>, r: Result<Seq<ImageDataCode>, DecodeError>) -> Result<
    Seq<ImageDataCode>,
    DecodeError,
> {
    match r {
        Ok(rest) => Ok(cs + rest),
        Err(e) => Err(e),
    }
}

/// Decodes run-length image data into the palette index of each pixel, row by
/// row. The data must expand to exactly `width * height` pixels.
pub fn decode_rle_data(data: &[u8], width: u16, height: u16) -> (r: Result<Vec<u8>, DecodeError>)
    ensures
        match rle_image(data@, width, height) {
            Ok(px) => r is Ok && r->Ok_0@ == px,
            Err(e) => r is Err && r->Err_0 == e,
        },
{
    proof {
        assert(width * height <= 0xFFFF * 0xFFFF) by (nonlinear_arith)
            requires
                width <= 0xFFFF,
                height <= 0xFFFF,
        ;
    }
    let expected_pixel_count = width as u64 * height as u64;
    let mut pixels: Vec<u8> = Vec::new();
    let mut decoder = decode_image_data(data);
    let ghost mut codes: Seq<ImageDataCode> = seq![];
    proof {
        assert(prepend_codes(codes, image_codes(data@)) == image_codes(data@)) by {
            match image_codes(data@) {
                Ok(rest) => assert(codes + rest =~= rest),
                Err(_) => {},
            }
        }
    }
    loop
        invariant
            image_codes(data@) == prepend_codes(codes, image_codes(decoder.remaining())),
            pixels@ == codes_pixels(codes),
        ensures
            rle_pixels(data@) == Ok::<Seq<u8>, DecodeError>(pixels@),
        decreases decoder.remaining().len(),
    {
        let ghost rem = decoder.remaining();
        let code = match decoder.next() {
            None => {
                proof {
                    assert(codes + seq![] =~= codes);
                }
                break;
            },
            Some(Err(e)) => return Err(e),
            Some(Ok(code)) => code,
        };
        proof {
            let n = image_code(rem)->Ok_0.1;
            match image_codes(rem.skip(n as int)) {
                Ok(rest) => assert(codes + (seq![code] + rest) =~= codes.push(code) + rest),
                Err(_) => {},
            }
            assert(codes.push(code).drop_last() =~= codes);
            codes = codes.push(code);
        }
        if let ImageDataCode::Color { color, count } = code {
            let ghost before = pixels@;
            let mut j: u16 = 0;
            while j < count
                invariant
                    j <= count,
                    pixels@ == before + Seq::new(j as nat, |i: int| color),
                decreases count - j,
            {
                pixels.push(color);
                j = j + 1;
                proof {
                    assert(pixels@ =~= before + Seq::new(j as nat, |i: int| color));
                }
            }
        } else {
            proof {
                assert(pixels@ =~= pixels@ + seq![]);
            }
        }
    }
    if pixels.len() as u64 != expected_pixel_count {
        return Err(DecodeError::RleLengthMismatch);
    }
    Ok(pixels)
}

/// An RGBA image, four bytes per pixel, row by row.
#[derive(Debug, Clone)]
pub struct Bitmap {
    pub width: u32,
    pub height: u32,
    /// RGBA 8-bit per channel data
    pub pixels: Vec<u8>,
}

/// The model of a [`Bitmap`].
pub struct BitmapView {
    pub width: u32,
    pub height: u32,
    pub pixels: Seq<u8>,
}

impl View for Bitmap {
    type V = BitmapView;

    open spec fn view(&self) -> BitmapView {
        BitmapView { width: self.width, height: self.height, pixels: self.pixels@ }
    }
}

impl BitmapView {
    /// Four bytes for each of `width * height` pixels.
    pub open spec fn wf(&self) -> bool {
        self.pixels.len() == 4 * self.width * self.height
    }
}

/// The four bytes of an RGBA value.
pub open spec fn rgba_bytes(c: (u8, u8, u8, u8)) -> Seq<u8> {
    seq![c.0, c.1, c.2, c.3]
}

/// The RGBA bytes of the pixels with palette indices `idx`, in order.
pub open spec fn rgba_pixels(idx: Seq<u8>, palette: Seq<PaletteEntry>) -> Seq<u8>
    decreases idx.len(),
{
    if idx.len() == 0 {
        seq![]
    } else {
        rgba_pixels(idx.drop_last(), palette) + rgba_bytes(rgba_of(palette[idx.last() as int]))
    }
}

/// The bitmap that the run-length data `data` of a `width` by `height` object
/// shows in `palette`.
pub open spec fn object_bitmap(data: Seq<u8>, width: u16, height: u16, palette: Seq<PaletteEntry>) -> Result<
    BitmapView,
    DecodeError,
> {
    match rle_image(data, width, height) {
        Err(e) => Err(e),
        Ok(px) => Ok(BitmapView { width: width as u32, height: height as u32, pixels: rgba_pixels(px, palette) }),
    }
}

proof fn lemma_rgba_pixels_len(idx: Seq<u8>, palette: Seq<PaletteEntry>)
    ensures
        rgba_pixels(idx, palette).len() == 4 * idx.len(),
    decreases idx.len(),
{
    if idx.len() > 0 {
        lemma_rgba_pixels_len(idx.drop_last(), palette);
    }
}

/// Decodes the run-length data of a `width` by `height` object and colors each
/// pixel from `palette`.
pub fn bitmap_from_object(data: &[u8], width: u16, height: u16, palette: &[PaletteEntry; 256]) -> (r:
    Result<Bitmap, DecodeError>)
    ensures
        match object_bitmap(data@, width, height, palette@) {
            Ok(bm) => r is Ok && r->Ok_0@ == bm && bm.wf(),
            Err(e) => r is Err && r->Err_0 == e,
        },
{
    let indexed = match decode_rle_data(data, width, height) {
        Ok(v) => v,
        Err(e) => return Err(e),
    };
    let mut pixels: Vec<u8> = Vec::new();
    let mut i: usize = 0;
    while i < indexed.len()
        invariant
            i <= indexed@.len(),
            pixels@ == rgba_pixels(indexed@.take(i as int), palette@),
        decreases indexed@.len() - i,
    {
        let (r, g, b, a) = palette[indexed[i] as usize].to_rgba();
        proof {
            assert(indexed@.take(i + 1).drop_last() =~= indexed@.take(i as int));
        }
        pixels.push(r);
        pixels.push(g);
        pixels.push(b);
        pixels.push(a);
        i = i + 1;
        proof {
            assert(pixels@ =~= rgba_pixels(indexed@.take(i as int), palette@));
        }
    }
    proof {
        assert(indexed@.take(i as int) =~= indexed@);
        lemma_rgba_pixels_len(indexed@, palette@);
        assert(4 * (width * height) == 4 * width * height) by (nonlinear_arith);
    }
    Ok(Bitmap { width: width as u32, height: height as u32, pixels })
}

/// The first `rows` rows of the `width` by `height`-row crop at `(x, y)` of an
/// RGBA image that is `stride` pixels wide.
pub open spec fn crop_rows(p: Seq<u8>, stride: int, x: int, y: int, width: int, rows: nat) -> Seq<u8>
    decreases rows,
{
    if rows == 0 {
        seq![]
    } else {
        let start = 4 * ((y + rows - 1) * stride + x);
        crop_rows(p, stride, x, y, width, (rows - 1) as nat) + p.subrange(start, start + 4 * width)
    }
}

proof fn lemma_crop_bounds(stride: int, height: int, x: int, y: int, w: int, row: int)
    requires
        0 <= x,
        0 <= w,
        x + w <= stride,
        0 <= y,
        0 <= row,
        y + row < height,
    ensures
        0 <= (y + row) * stride,
        0 <= 4 * ((y + row) * stride + x),
        4 * ((y + row) * stride + x) + 4 * w <= 4 * stride * height,
{
    assert((y + row) * stride + x + w <= (y + row + 1) * stride) by (nonlinear_arith)
        requires
            x + w <= stride,
    ;
    assert((y + row + 1) * stride <= height * stride) by (nonlinear_arith)
        requires
            y + row + 1 <= height,
            0 <= stride,
    ;
    assert(0 <= (y + row) * stride) by (nonlinear_arith)
        requires
            0 <= y + row,
            0 <= stride,
    ;
    assert(4 * stride * height == 4 * (height * stride)) by (nonlinear_arith);
}

/// Byte `col` of row `row` of a crop is byte `col` from the crop's left edge in
/// row `y + row` of the image.
pub proof fn lemma_crop_rows_index(
    p: Seq<u8>,
    stride: int,
    height: int,
    x: int,
    y: int,
    width: int,
    rows: nat,
)
    requires
        0 <= x,
        0 <= y,
        0 <= width,
        x + width <= stride,
        y + rows <= height,
        p.len() == 4 * stride * height,
    ensures
        crop_rows(p, stride, x, y, width, rows).len() == rows * 4 * width,
        forall|row: int, col: int|
            0 <= row < rows && 0 <= col < 4 * width ==> #[trigger] crop_rows(
                p,
                stride,
                x,
                y,
                width,
                rows,
            )[row * 4 * width + col] == p[4 * ((y + row) * stride + x) + col],
    decreases rows,
{
    if rows > 0 {
        let n = (rows - 1) as nat;
        lemma_crop_rows_index(p, stride, height, x, y, width, n);
        lemma_crop_bounds(stride, height, x, y, width, n as int);
        let c = crop_rows(p, stride, x, y, width, rows);
        assert(rows * 4 * width == n * 4 * width + 4 * width) by (nonlinear_arith)
            requires
                rows == n + 1,
        ;
        assert forall|row: int, col: int| 0 <= row < rows && 0 <= col < 4 * width implies #[trigger] c[row
            * 4 * width + col] == p[4 * ((y + row) * stride + x) + col] by {
            if row < n {
                assert(row * 4 * width + col < n * 4 * width) by (nonlinear_arith)
                    requires
                        0 <= row,
                        row + 1 <= n,
                        0 <= col < 4 * width,
                        0 <= width,
                ;
            } else {
                assert(row * 4 * width == n * 4 * width) by (nonlinear_arith)
                    requires
                        row == n,
                ;
            }
        }
    }
}

impl Bitmap {
    /// The `width` by `height` part of this bitmap whose top left pixel is at
    /// `(top_left_x, top_left_y)`.
    pub fn sub_image(&self, top_left_x: u32, top_left_y: u32, width: u32, height: u32) -> (r: Bitmap)
        requires
            self@.wf(),
            top_left_x + width <= self.width,
            top_left_y + height <= self.height,
        ensures
            r.width == width,
            r.height == height,
            r@.wf(),
            r.pixels@ == crop_rows(
                self.pixels@,
                self.width as int,
                top_left_x as int,
                top_left_y as int,
                width as int,
                height as nat,
            ),
            forall|row: int, col: int|
                0 <= row < height && 0 <= col < 4 * width ==> #[trigger] r.pixels@[row * 4 * width + col]
                    == self.pixels@[4 * ((top_left_y + row) * self.width + top_left_x) + col],
    {
        let ghost p = self.pixels@;
        let plen = self.pixels.len();
        let mut out: Vec<u8> = Vec::new();
        let mut row: u32 = 0;
        while row < height
            invariant
                row <= height,
                p == self.pixels@,
                p.len() == 4 * self.width * self.height,
                p.len() == plen,
                top_left_x + width <= self.width,
                top_left_y + height <= self.height,
                out@ == crop_rows(p, self.width as int, top_left_x as int, top_left_y as int, width as int, row as nat),
            decreases height - row,
        {
            proof {
                lemma_crop_bounds(
                    self.width as int,
                    self.height as int,
                    top_left_x as int,
                    top_left_y as int,
                    width as int,
                    row as int,
                );
            }
            let ghost before = out@;
            let begin = 4 * ((top_left_y + row) as usize * self.width as usize + top_left_x as usize);
            let row_len = 4 * width as usize;
            let mut col: usize = 0;
            while col < row_len
                invariant
                    col <= row_len,
                    row_len == 4 * width,
                    begin + row_len <= p.len(),
                    p.len() == plen,
                    p == self.pixels@,
                    out@ == before + p.subrange(begin as int, begin + col),
                decreases row_len - col,
            {
                out.push(self.pixels[begin + col]);
                col = col + 1;
                proof {
                    assert(out@ =~= before + p.subrange(begin as int, begin + col));
                }
            }
            row = row + 1;
        }
        proof {
            lemma_crop_rows_index(
                p,
                self.width as int,
                self.height as int,
                top_left_x as int,
                top_left_y as int,
                width as int,
                height as nat,
            );
            assert(height * 4 * width == 4 * width * height) by (nonlinear_arith);
        }
        Bitmap { width, height, pixels: out }
    }
}

impl Bitmap {
    /// The pixels as `0x00RRGGBB` words, alpha dropped, for a frame buffer.
    pub fn to_0rgb(&self) -> (r: Vec<u32>)
        ensures
            r@.len() == self.pixels@.len() / 4,
            forall|i: int|
                0 <= i < r@.len() ==> #[trigger] r@[i] == self.pixels@[4 * i] * 0x10000 + self.pixels@[4 * i
                    + 1] * 0x100 + self.pixels@[4 * i + 2],
    {
        let len = self.pixels.len();
        let n = len / 4;
        let mut out: Vec<u32> = Vec::new();
        let mut i: usize = 0;
        while i < n
            invariant
                i <= n,
                len == self.pixels@.len(),
                n == len / 4,
                out@.len() == i,
                forall|j: int|
                    0 <= j < i ==> #[trigger] out@[j] == self.pixels@[4 * j] * 0x10000 + self.pixels@[4 * j + 1]
                        * 0x100 + self.pixels@[4 * j + 2],
            decreases n - i,
        {
            let v = (self.pixels[4 * i] as u32) * 0x10000 + (self.pixels[4 * i + 1] as u32) * 0x100
                + self.pixels[4 * i + 2] as u32;
            out.push(v);
            i = i + 1;
        }
        out
    }
}

/// The page a viewer of `count` bitmaps shows after the keys of one frame: one
/// back if asked, then one forward if asked, staying on the first and the last page.
pub fn viewer_page(current: usize, count: usize, back: bool, forward: bool) -> (r: usize)
    requires
        current < count,
    ensures
        r < count,
        ({
            let after_back = if back && current > 0 { current - 1 } else { current as int };
            r == if forward && after_back + 1 < count { after_back + 1 } else { after_back }
        }),
{
    let mut page = current;
    if back && page > 0 {
        page = page - 1;
    }
    if forward && page + 1 < count {
        page = page + 1;
    }
    page
}

} // verus!
