use pgs::image::bitmap_from_object;
use pgs::{ycbcr_to_rgb, Bitmap, DecodeError, PaletteEntry};

fn entry(entry_id: u8, y: u8, cr: u8, cb: u8, a: u8) -> PaletteEntry {
    PaletteEntry {
        entry_id,
        luminance: y,
        color_diff_red: cr,
        color_diff_blue: cb,
        transparency: a,
    }
}

#[test]
fn gray_stays_gray() {
    assert_eq!(ycbcr_to_rgb(128, 128, 128), (128, 128, 128));
    assert_eq!(ycbcr_to_rgb(255, 128, 128), (255, 255, 255));
    assert_eq!(ycbcr_to_rgb(0, 128, 128), (0, 0, 0));
}

#[test]
fn conversion_rounds_down_and_clamps() {
    // r = 100 + 1.402 * 72, g = 100 + 0.344136 * 78 - 0.714136 * 72, b = 100 - 1.772 * 78
    assert_eq!(ycbcr_to_rgb(100, 200, 50), (200, 75, 0));
    assert_eq!(ycbcr_to_rgb(235, 255, 255), (255, 100, 255));
}

#[test]
fn transparent_entry_is_zero_rgba() {
    assert_eq!(entry(3, 200, 10, 240, 0).to_rgba(), (0, 0, 0, 0));
    assert_eq!(entry(0, 255, 255, 255, 0).to_rgba(), (0, 0, 0, 0));
}

#[test]
fn opaque_entry_keeps_alpha() {
    let e = entry(1, 100, 200, 50, 0x80);
    assert_eq!(e.to_rgb(), (200, 75, 0));
    assert_eq!(e.to_rgba(), (200, 75, 0, 0x80));
}

#[test]
fn object_bitmap_colors_each_pixel() {
    let mut palette = [PaletteEntry::default(); 256];
    palette[1] = entry(1, 255, 128, 128, 255);
    palette[2] = entry(2, 128, 128, 128, 0x40);
    // one row: 1, 2, then a run of two pixels of color 0
    let data = [0x01, 0x02, 0x00, 0x02];
    let bm = bitmap_from_object(&data, 4, 1, &palette).unwrap();
    assert_eq!(bm.width, 4);
    assert_eq!(bm.height, 1);
    assert_eq!(
        bm.pixels,
        vec![255, 255, 255, 255, 128, 128, 128, 0x40, 0, 0, 0, 0, 0, 0, 0, 0]
    );
    assert_eq!(
        bitmap_from_object(&data, 2, 2, &palette).map(|b| b.pixels),
        Ok(vec![255, 255, 255, 255, 128, 128, 128, 0x40, 0, 0, 0, 0, 0, 0, 0, 0])
    );
    assert_eq!(
        bitmap_from_object(&data, 3, 1, &palette).map(|b| b.width),
        Err(DecodeError::RleLengthMismatch)
    );
}

#[test]
fn sub_image_copies_the_selected_rectangle() {
    // 3x3 bitmap whose pixel (x, y) is [x, y, 10 * y + x, 255]
    let mut pixels = Vec::new();
    for y in 0..3u8 {
        for x in 0..3u8 {
            pixels.extend([x, y, 10 * y + x, 255]);
        }
    }
    let bm = Bitmap { width: 3, height: 3, pixels };
    let sub = bm.sub_image(1, 1, 2, 2);
    assert_eq!(sub.width, 2);
    assert_eq!(sub.height, 2);
    assert_eq!(
        sub.pixels,
        vec![1, 1, 11, 255, 2, 1, 12, 255, 1, 2, 21, 255, 2, 2, 22, 255]
    );
    let column = bm.sub_image(2, 0, 1, 3);
    assert_eq!(column.pixels, vec![2, 0, 2, 255, 2, 1, 12, 255, 2, 2, 22, 255]);
    let empty = bm.sub_image(3, 3, 0, 0);
    assert!(empty.pixels.is_empty());
}
