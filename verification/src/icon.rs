//! Icon normalization: decode raw bytes, crop to the alpha bounding box, and
//! upscale short icons to a minimum display height, never downscaling.
//! Decoding and resampling call into the `image` crate through trusted
//! wrappers; everything around them is verified.

use vstd::prelude::*;

use crate::bitmap::{box_height, crop, crop_rel, bounding_box, BBox, Bitmap, BitmapView};

verus! {

/// The RGBA bitmap that the `image` crate decodes from `bytes`, converted to
/// eight bits per channel, or `None` when the bytes are not a decodable
/// image. Decoding depends on the bytes alone.
pub uninterp spec fn decoded_rgba(bytes: Seq<u8>) -> Option<BitmapView>;

/// The pixel buffer that Lanczos3 resampling of the `w` by `h` buffer `src`
/// to `nw` by `nh` produces. It depends on its arguments alone.
pub uninterp spec fn lanczos3_pixels(src: Seq<u8>, w: u32, h: u32, nw: u32, nh: u32) -> Seq<u8>;

/// Relies on `image::load_from_memory` and `image::DynamicImage::to_rgba8`:
/// both are functions of the input bytes alone, and the buffer of the
/// returned `RgbaImage` holds exactly four bytes per pixel of its dimensions.
#[verifier::external_body]
fn decode_rgba(bytes: &[u8]) -> (r: Option<Bitmap>)
    ensures
        r is Some <==> decoded_rgba(bytes@) is Some,
        r matches Some(bmp) ==> decoded_rgba(bytes@) matches Some(v) && bmp@ == v && v.wf(),
{
    match image::load_from_memory(bytes) {
        Ok(img) => {
            let rgba = img.to_rgba8();
            let (width, height) = rgba.dimensions();
            Some(Bitmap { width, height, pixels: rgba.into_raw() })
        },
        Err(_) => None,
    }
}

/// Relies on `image::imageops::resize` with `FilterType::Lanczos3`: the
/// result has exactly the requested dimensions, four bytes per pixel, and
/// depends only on the source pixels and the dimensions; and on
/// `image::RgbaImage::from_raw`, which accepts any buffer of exactly four
/// bytes per pixel. The size bounds keep the resampler's buffers below the
/// largest allocation the process could address.
#[verifier::external_body]
fn resize_lanczos3(bmp: &Bitmap, new_width: u32, new_height: u32) -> (r: Bitmap)
    requires
        bmp@.wf(),
        1 <= bmp@.width,
        1 <= bmp@.height,
        1 <= new_width,
        1 <= new_height,
        16 * (bmp@.width as int) * (new_height as int) <= usize::MAX as int / 2,
        16 * (new_width as int) * (new_height as int) <= usize::MAX as int / 2,
    ensures
        r.width == new_width,
        r.height == new_height,
        r@.wf(),
        r@.pixels == lanczos3_pixels(bmp@.pixels, bmp.width, bmp.height, new_width, new_height),
{
    let img = image::RgbaImage::from_raw(bmp.width, bmp.height, bmp.pixels.clone()).unwrap();
    let out = image::imageops::resize(
        &img,
        new_width,
        new_height,
        image::imageops::FilterType::Lanczos3,
    );
    Bitmap { width: new_width, height: new_height, pixels: out.into_raw() }
}

/// The width a cropped bitmap is given when its height is scaled up to
/// `mh`: `cw * mh / ch` rounded to the nearest integer, saturating at
/// `u32::MAX`.
pub open spec fn spec_scaled_width(cw: u32, ch: u32, mh: u32) -> u32
    recommends
        1 <= ch,
{
    let exact = (2 * (cw as int) * (mh as int) + (ch as int)) / (2 * (ch as int));
    if exact > u32::MAX as int {
        u32::MAX
    } else {
        exact as u32
    }
}

/// The scaled width preserves the aspect ratio to within half an output
/// pixel: `nw * ch` differs from `cw * mh` by at most `ch`, so `nw` differs
/// from the exact `cw * mh / ch` by at most one.
pub proof fn lemma_scaled_width_aspect(cw: u32, ch: u32, mh: u32)
    requires
        1 <= ch,
        (2 * (cw as int) * (mh as int) + (ch as int)) / (2 * (ch as int)) <= u32::MAX as int,
    ensures
        -(ch as int) <= 2 * (cw as int) * (mh as int) - 2 * (ch as int) * (spec_scaled_width(
            cw,
            ch,
            mh,
        ) as int) < (ch as int),
{
    let a = 2 * (cw as int) * (mh as int) + (ch as int);
    let d = 2 * (ch as int);
    let q = a / d;
    vstd::arithmetic::div_mod::lemma_fundamental_div_mod(a, d);
    assert(a == d * q + a % d);
    vstd::arithmetic::div_mod::lemma_mod_bound(a, d);
    assert(2 * (cw as int) * (mh as int) + (ch as int) >= 0) by (nonlinear_arith)
        requires
            cw >= 0 && mh >= 0 && ch >= 1,
    ;
    assert(0 <= a % d < d);
    assert(q >= 0) by (nonlinear_arith)
        requires
            a >= 0 && d >= 2 && a == d * q + a % d && 0 <= a % d < d,
    ;
    assert(spec_scaled_width(cw, ch, mh) as int == q);
}

/// `cw * mh / ch` rounded to nearest, saturating at `u32::MAX`: the width
/// that keeps the aspect ratio when the height is scaled to `mh`.
pub fn scaled_width(cw: u32, ch: u32, mh: u32) -> (r: u32)
    requires
        1 <= ch,
    ensures
        r == spec_scaled_width(cw, ch, mh),
{
    proof {
        assert(2 * (cw as int) * (mh as int) + (ch as int) <= u128::MAX as int
            && 2 * (cw as int) * (mh as int) >= 0) by (nonlinear_arith)
            requires
                0 <= (cw as int) <= u32::MAX as int,
                0 <= (mh as int) <= u32::MAX as int,
                0 <= (ch as int) <= u32::MAX as int,
        ;
    }
    let num: u128 = 2u128 * (cw as u128) * (mh as u128) + (ch as u128);
    let den: u128 = 2u128 * (ch as u128);
    let q: u128 = num / den;
    if q > (u32::MAX as u128) {
        u32::MAX
    } else {
        q as u32
    }
}

/// A fully transparent 22 by 22 icon: the fallback when no candidate source
/// yields a decodable image.
pub open spec fn placeholder_view() -> BitmapView {
    BitmapView { width: 22, height: 22, pixels: Seq::new(1936, |i: int| 0u8) }
}

/// The fixed fallback icon: 22 by 22, every byte zero.
pub fn placeholder() -> (r: Bitmap)
    ensures
        r@ == placeholder_view(),
        r@.wf(),
{
    let pixels: Vec<u8> = vec![0u8; 1936];
    let r = Bitmap { width: 22, height: 22, pixels };
    proof {
        assert(r@ =~= placeholder_view());
    }
    r
}

/// `out` is `c` resampled to height `mh`, width chosen to keep the aspect
/// ratio: the dimensions are fixed by `spec_scaled_width`, the pixels by the
/// Lanczos3 resampler.
pub open spec fn scaled_rel(c: BitmapView, mh: u32, out: BitmapView) -> bool {
    let nw = spec_scaled_width(c.width as u32, c.height as u32, mh);
    &&& out.width == nw as nat
    &&& out.height == mh as nat
    &&& out.pixels == lanczos3_pixels(c.pixels, c.width as u32, c.height as u32, nw, mh)
    &&& out.wf()
}

/// `out` is `v` cropped to `b`, then, only when the cropped height falls
/// short of `mh`, upscaled to height exactly `mh`; never downscaled.
pub open spec fn crop_scale_rel(v: BitmapView, b: BBox, mh: u32, out: BitmapView) -> bool {
    if box_height(b) >= mh as int {
        crop_rel(v, b, out)
    } else {
        exists|c: BitmapView| #[trigger] crop_rel(v, b, c) && scaled_rel(c, mh, out)
    }
}

/// `out` is the normalization of `v`: unchanged when `v` has no content
/// pixel, else cropped to the tight bounding box and upscaled to height `mh`
/// exactly when the cropped height falls short of it.
pub open spec fn normalize_rel(v: BitmapView, mh: u32, out: BitmapView) -> bool {
    if v.has_content() {
        exists|b: BBox| #[trigger] v.is_bounding_box(b) && crop_scale_rel(v, b, mh, out)
    } else {
        out == v
    }
}

/// The rounded scaled width stays at least 1 and at most `cw * mh`.
proof fn lemma_scaled_width_bounds(cw: u32, ch: u32, mh: u32)
    requires
        1 <= cw,
        1 <= ch < mh,
    ensures
        1 <= spec_scaled_width(cw, ch, mh),
        spec_scaled_width(cw, ch, mh) as int <= (cw as int) * (mh as int),
{
    let a = 2 * (cw as int) * (mh as int) + (ch as int);
    let d = 2 * (ch as int);
    let q = a / d;
    let p = (cw as int) * (mh as int);
    vstd::arithmetic::div_mod::lemma_fundamental_div_mod(a, d);
    vstd::arithmetic::div_mod::lemma_mod_bound(a, d);
    assert(p >= mh) by (nonlinear_arith)
        requires
            1 <= (cw as int) && 0 <= (mh as int) && p == (cw as int) * (mh as int),
    ;
    assert(2 * (cw as int) * (mh as int) == 2 * p) by (nonlinear_arith)
        requires
            p == (cw as int) * (mh as int),
    ;
    assert(a >= d);
    assert(q >= 1) by (nonlinear_arith)
        requires
            a == d * q + a % d && 0 <= a % d < d && d >= 2 && a >= d,
    ;
    assert(q <= p) by (nonlinear_arith)
        requires
            a == d * q + a % d && 0 <= a % d && a == 2 * p + (ch as int) && d == 2 * (ch as int)
                && 1 <= (ch as int) && 0 <= p,
    ;
}

/// Normalize a decoded bitmap: crop to the tight bounding box of its
/// non-transparent pixels, then upscale to height `min_height` when the crop
/// falls short of it. A bitmap without any content pixel is returned
/// unchanged. The size bound keeps every intermediate buffer addressable.
pub fn normalize(bmp: Bitmap, min_height: u32) -> (r: Bitmap)
    requires
        bmp@.wf(),
        32 * (bmp@.width as int) * (min_height as int) * (min_height as int) <= usize::MAX as int,
    ensures
        r@.wf(),
        normalize_rel(bmp@, min_height, r@),
        !bmp@.has_content() ==> r@ == bmp@,
{
    match bounding_box(&bmp) {
        None => bmp,
        Some(b) => {
            let cropped = crop(&bmp, b);
            let cw = cropped.width;
            let ch = cropped.height;
            if ch < min_height {
                let nw = scaled_width(cw, ch, min_height);
                proof {
                    lemma_scaled_width_bounds(cw, ch, min_height);
                    assert(16 * (cw as int) * (min_height as int) <= usize::MAX as int / 2 && 16 * (
                    nw as int) * (min_height as int) <= usize::MAX as int / 2) by (nonlinear_arith)
                        requires
                            1 <= (cw as int) <= (bmp@.width as int),
                            2 <= (min_height as int),
                            0 <= (nw as int) <= (cw as int) * (min_height as int),
                            32 * (bmp@.width as int) * (min_height as int) * (min_height as int)
                                <= usize::MAX as int,
                    ;
                }
                let r = resize_lanczos3(&cropped, nw, min_height);
                proof {
                    assert(scaled_rel(cropped@, min_height, r@));
                    assert(crop_scale_rel(bmp@, b, min_height, r@));
                    assert(normalize_rel(bmp@, min_height, r@));
                }
                r
            } else {
                proof {
                    assert(crop_scale_rel(bmp@, b, min_height, cropped@));
                    assert(normalize_rel(bmp@, min_height, cropped@));
                }
                cropped
            }
        },
    }
}

/// Decode `bytes` and normalize the result to minimum height `min_height`;
/// `None` exactly when the bytes are not a decodable image.
pub fn icon_from_bytes(bytes: &[u8], min_height: u32) -> (r: Option<Bitmap>)
    requires
        32 * (u32::MAX as int) * (min_height as int) * (min_height as int) <= usize::MAX as int,
    ensures
        r is Some <==> decoded_rgba(bytes@) is Some,
        r matches Some(bmp) ==> decoded_rgba(bytes@) matches Some(v) && normalize_rel(
            v,
            min_height,
            bmp@,
        ) && bmp@.wf(),
{
    match decode_rgba(bytes) {
        Some(bmp) => {
            proof {
                assert(32 * (bmp@.width as int) * (min_height as int) * (min_height as int)
                    <= usize::MAX as int) by (nonlinear_arith)
                    requires
                        0 <= (bmp@.width as int) <= u32::MAX as int,
                        0 <= (min_height as int),
                        32 * (u32::MAX as int) * (min_height as int) * (min_height as int)
                            <= usize::MAX as int,
                ;
            }
            Some(normalize(bmp, min_height))
        },
        None => None,
    }
}

/// Try each candidate byte buffer in order; the first one that decodes wins
/// and its image is normalized. When none decodes, the fixed fully
/// transparent 22 by 22 placeholder is returned, so a valid icon always
/// comes back.
#[verifier::loop_isolation(false)]
pub fn select_icon(candidates: &Vec<Vec<u8>>, min_height: u32) -> (r: Bitmap)
    requires
        32 * (u32::MAX as int) * (min_height as int) * (min_height as int) <= usize::MAX as int,
    ensures
        r@.wf(),
        (forall|i: int|
            0 <= i < candidates@.len() ==> #[trigger] decoded_rgba(candidates@[i]@) is None)
            ==> r@ == placeholder_view(),
        (exists|i: int|
            0 <= i < candidates@.len() && #[trigger] decoded_rgba(candidates@[i]@) is Some) ==> (
        exists|i: int|
            {
                &&& 0 <= i < candidates@.len()
                &&& (#[trigger] decoded_rgba(candidates@[i]@)) matches Some(v) && normalize_rel(
                    v,
                    min_height,
                    r@,
                )
                &&& forall|j: int| 0 <= j < i ==> #[trigger] decoded_rgba(candidates@[j]@) is None
            }),
{
    let n = candidates.len();
    let mut i: usize = 0;
    while i < n
        invariant
            i <= n,
            forall|j: int| 0 <= j < i ==> #[trigger] decoded_rgba(candidates@[j]@) is None,
        decreases n - i,
    {
        match icon_from_bytes(candidates[i].as_slice(), min_height) {
            Some(bmp) => {
                return bmp;
            },
            None => {},
        }
        i = i + 1;
    }
    placeholder()
}

} // verus!

