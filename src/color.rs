//! Palette colors: YCbCr to RGB conversion and the RGBA value of a palette entry.

use vstd::prelude::*;

use crate::segment::PaletteEntry;

verus! {

/// `num / den` rounded down and clamped to `0..=255`.
pub open spec fn clamp_channel(num: int, den: int) -> u8
    recommends
        den > 0,
{
    if num < 0 {
        0
    } else if num / den > 255 {
        255
    } else {
        (num / den) as u8
    }
}

/// The red channel: `Y + 1.402 (Cr - 128)`, rounded down and clamped.
pub open spec fn red_of(y: u8, cr: u8) -> u8 {
    clamp_channel(1000 * y + 1402 * (cr - 128), 1000)
}

/// The green channel: `Y - 0.344136 (Cb - 128) - 0.714136 (Cr - 128)`, rounded down
/// and clamped.
pub open spec fn green_of(y: u8, cr: u8, cb: u8) -> u8 {
    clamp_channel(1000000 * y - 344136 * (cb - 128) - 714136 * (cr - 128), 1000000)
}

/// The blue channel: `Y + 1.772 (Cb - 128)`, rounded down and clamped.
pub open spec fn blue_of(y: u8, cb: u8) -> u8 {
    clamp_channel(1000 * y + 1772 * (cb - 128), 1000)
}

/// The RGBA value of a palette entry: black and fully transparent when its alpha
/// is zero, else its RGB color with its alpha.
pub open spec fn rgba_of(e: PaletteEntry) -> (u8, u8, u8, u8) {
    if e.transparency == 0 {
        (0, 0, 0, 0)
    } else {
        (
            red_of(e.luminance, e.color_diff_red),
            green_of(e.luminance, e.color_diff_red, e.color_diff_blue),
            blue_of(e.luminance, e.color_diff_blue),
            e.transparency,
        )
    }
}

fn channel(num: i64, den: i64) -> (r: u8)
    requires
        den > 0,
    ensures
        r == clamp_channel(num as int, den as int),
{
    if num < 0 {
        return 0;
    }
    let q = (num as u64) / (den as u64);
    if q > 255 {
        255
    } else {
        q as u8
    }
}

/// Converts a YCbCr color to RGB with the BT.601 coefficients, computed exactly
/// and then rounded down and clamped to `0..=255` in each channel.
pub fn ycbcr_to_rgb(luminance: u8, cr: u8, cb: u8) -> (r: (u8, u8, u8))
    ensures
        r == (red_of(luminance, cr), green_of(luminance, cr, cb), blue_of(luminance, cb)),
{
    let y = luminance as i64;
    let cr = cr as i64 - 128;
    let cb = cb as i64 - 128;
    let r = channel(1000 * y + 1402 * cr, 1000);
    let g = channel(1000000 * y - 344136 * cb - 714136 * cr, 1000000);
    let b = channel(1000 * y + 1772 * cb, 1000);
    (r, g, b)
}

impl PaletteEntry {
    pub fn to_rgb(&self) -> (r: (u8, u8, u8))
        ensures
            r == (
                red_of(self.luminance, self.color_diff_red),
                green_of(self.luminance, self.color_diff_red, self.color_diff_blue),
                blue_of(self.luminance, self.color_diff_blue),
            ),
    {
        ycbcr_to_rgb(self.luminance, self.color_diff_red, self.color_diff_blue)
    }

    /// The RGBA value of this entry; a fully transparent entry is `(0, 0, 0, 0)`
    /// whatever its luminance and chroma.
    pub fn to_rgba(&self) -> (r: (u8, u8, u8, u8))
        ensures
            r == rgba_of(*self),
            self.transparency == 0 ==> r == (0u8, 0u8, 0u8, 0u8),
    {
        if self.transparency == 0 {
            (0, 0, 0, 0)
        } else {
            let (r, g, b) = self.to_rgb();
            (r, g, b, self.transparency)
        }
    }
}

} // verus!
