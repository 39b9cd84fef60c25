use musikbar::bitmap::{bounding_box, crop, BBox, Bitmap};
use musikbar::icon::{icon_from_bytes, placeholder, scaled_width, select_icon, normalize};

/// A width x height bitmap whose pixels inside the given inclusive rectangle
/// are opaque white and whose other pixels are fully transparent.
fn rect_bitmap(width: u32, height: u32, min_x: u32, min_y: u32, max_x: u32, max_y: u32) -> Bitmap {
    let mut pixels = vec![0u8; (4 * width * height) as usize];
    for y in min_y..=max_y {
        for x in min_x..=max_x {
            let base = (4 * (y * width + x)) as usize;
            pixels[base] = 255;
            pixels[base + 1] = 255;
            pixels[base + 2] = 255;
            pixels[base + 3] = 255;
        }
    }
    Bitmap { width, height, pixels }
}

fn encode_png(width: u32, height: u32, pixels: Vec<u8>) -> Vec<u8> {
    let img = image::RgbaImage::from_raw(width, height, pixels).unwrap();
    let mut buf = std::io::Cursor::new(Vec::new());
    image::DynamicImage::ImageRgba8(img)
        .write_to(&mut buf, image::ImageFormat::Png)
        .unwrap();
    buf.into_inner()
}

#[test]
fn bounding_box_of_rect_content() {
    let bmp = rect_bitmap(100, 20, 10, 5, 50, 15);
    let b = bounding_box(&bmp).unwrap();
    assert_eq!(
        b,
        BBox { min_x: 10, min_y: 5, max_x: 50, max_y: 15 }
    );
}

#[test]
fn bounding_box_single_pixel() {
    let mut bmp = rect_bitmap(5, 4, 0, 0, 0, 0);
    bmp.pixels = vec![0u8; 4 * 5 * 4];
    let base = 4 * (2 * 5 + 3) as usize;
    bmp.pixels[base] = 7;
    bmp.pixels[base + 1] = 8;
    bmp.pixels[base + 2] = 9;
    bmp.pixels[base + 3] = 1;
    let b = bounding_box(&bmp).unwrap();
    assert_eq!(
        b,
        BBox { min_x: 3, min_y: 2, max_x: 3, max_y: 2 }
    );
    let c = crop(&bmp, b);
    assert_eq!(c.width, 1);
    assert_eq!(c.height, 1);
    assert_eq!(c.pixels, vec![7, 8, 9, 1]);
}

#[test]
fn bounding_box_none_when_transparent() {
    let bmp = Bitmap { width: 10, height: 10, pixels: vec![0u8; 400] };
    assert!(bounding_box(&bmp).is_none());
}

#[test]
fn crop_extracts_exact_rectangle() {
    let bmp = rect_bitmap(100, 20, 10, 5, 50, 15);
    let b = bounding_box(&bmp).unwrap();
    let c = crop(&bmp, b);
    assert_eq!(c.width, 41);
    assert_eq!(c.height, 11);
    assert_eq!(c.pixels.len(), 4 * 41 * 11);
    // the cropped content is all opaque white
    assert!(c.pixels.chunks(4).all(|p| p == [255, 255, 255, 255]));
}

#[test]
fn crops_and_scales_wide_short_image() {
    // content rectangle (10,5)-(50,15) of a 100x20 image: crops to 41x11,
    // then scales by 4 to 164x44 because 11 < 44
    let bmp = rect_bitmap(100, 20, 10, 5, 50, 15);
    let r = normalize(bmp, 44);
    assert_eq!(r.width, 164);
    assert_eq!(r.height, 44);
    assert_eq!(r.pixels.len(), 4 * 164 * 44);
}

#[test]
fn full_bleed_tall_image_not_scaled() {
    // content everywhere in a 60x50 image: the crop is the identity and
    // 50 >= 44, so no scaling happens
    let bmp = rect_bitmap(60, 50, 0, 0, 59, 49);
    let original = bmp.pixels.clone();
    let r = normalize(bmp, 44);
    assert_eq!(r.width, 60);
    assert_eq!(r.height, 50);
    assert_eq!(r.pixels, original);
}

#[test]
fn fully_transparent_returns_original() {
    // a decoded but empty image comes back unchanged, not as the placeholder
    let bmp = Bitmap { width: 10, height: 10, pixels: vec![0u8; 400] };
    let r = normalize(bmp, 44);
    assert_eq!(r.width, 10);
    assert_eq!(r.height, 10);
    assert_eq!(r.pixels, vec![0u8; 400]);
}

#[test]
fn normalize_is_stable_on_its_output() {
    // normalizing a second time finds the content already tight, so nothing
    // changes when no scaling is involved
    let bmp = rect_bitmap(100, 80, 10, 5, 70, 60);
    let r1 = normalize(bmp, 44);
    let copy = Bitmap { width: r1.width, height: r1.height, pixels: r1.pixels.clone() };
    let r2 = normalize(copy, 44);
    assert_eq!(r2.width, r1.width);
    assert_eq!(r2.height, r1.height);
    assert_eq!(r2.pixels, r1.pixels);
}

#[test]
fn scaled_width_rounds_to_nearest() {
    assert_eq!(scaled_width(41, 11, 44), 164);
    assert_eq!(scaled_width(1, 3, 44), 15); // 44/3 = 14.67 rounds up
    assert_eq!(scaled_width(3, 2, 44), 66);
    assert_eq!(scaled_width(7, 5, 22), 31); // 30.8 rounds up
    assert_eq!(scaled_width(1, 1, 44), 44);
}

#[test]
fn scaled_width_keeps_aspect_within_one_pixel() {
    for (cw, ch, mh) in [(41u32, 11u32, 44u32), (7, 5, 22), (13, 9, 44), (1, 3, 44)] {
        let nw = scaled_width(cw, ch, mh) as i64;
        let diff = nw * ch as i64 - (cw as i64) * (mh as i64);
        assert!(diff.abs() <= ch as i64, "aspect off for {cw}x{ch} -> {nw}x{mh}");
    }
}

#[test]
fn placeholder_is_fixed_shape() {
    let p = placeholder();
    assert_eq!(p.width, 22);
    assert_eq!(p.height, 22);
    assert_eq!(p.pixels.len(), 1936);
    assert!(p.pixels.iter().all(|&b| b == 0));
}

#[test]
fn undecodable_bytes_yield_placeholder() {
    let junk = b"definitely not an image, just text bytes".to_vec();
    let r = select_icon(&vec![junk], 44);
    assert_eq!(r.width, 22);
    assert_eq!(r.height, 22);
    assert_eq!(r.pixels, vec![0u8; 1936]);
}

#[test]
fn empty_candidate_list_yields_placeholder() {
    let r = select_icon(&Vec::new(), 44);
    assert_eq!(r.width, 22);
    assert_eq!(r.height, 22);
    assert_eq!(r.pixels, vec![0u8; 1936]);
}

#[test]
fn first_decodable_candidate_wins() {
    let junk = vec![1u8, 2, 3, 4, 5];
    // a 4x4 fully opaque image crops to 4x4 and scales to 44x44
    let png = encode_png(4, 4, vec![255u8; 64]);
    let r = select_icon(&vec![junk, png], 44);
    assert_eq!(r.width, 44);
    assert_eq!(r.height, 44);
}

#[test]
fn decode_roundtrip_preserves_pixels() {
    // distinct channel values, all pixels opaque: the crop is the identity
    // and height 2 >= 1 means no scaling, so the decoded pixels come back
    let pixels: Vec<u8> = (0..24u8).map(|i| if i % 4 == 3 { 255 } else { i }).collect();
    let png = encode_png(3, 2, pixels.clone());
    let r = icon_from_bytes(&png, 1).unwrap();
    assert_eq!(r.width, 3);
    assert_eq!(r.height, 2);
    assert_eq!(r.pixels, pixels);
}

#[test]
fn icon_from_bytes_rejects_junk() {
    assert!(icon_from_bytes(b"not an image", 44).is_none());
    assert!(icon_from_bytes(&[], 44).is_none());
}

#[test]
fn recrop_of_cropped_is_identity() {
    // cropping to the bounding box is a fixed point: the crop's own bounding
    // box is its full extent
    let bmp = rect_bitmap(100, 20, 10, 5, 50, 15);
    let b = bounding_box(&bmp).unwrap();
    let c = crop(&bmp, b);
    let b2 = bounding_box(&c).unwrap();
    assert_eq!(
        b2,
        BBox { min_x: 0, min_y: 0, max_x: c.width - 1, max_y: c.height - 1 }
    );
    let c2 = crop(&c, b2);
    assert_eq!(c2.width, c.width);
    assert_eq!(c2.height, c.height);
    assert_eq!(c2.pixels, c.pixels);
}
