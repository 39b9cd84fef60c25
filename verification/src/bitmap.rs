//! RGBA bitmaps as flat byte buffers, with the alpha bounding box and the
//! crop to it: the geometric half of icon normalization.

use vstd::prelude::*;

verus! {

/// An RGBA bitmap: a flat byte buffer with four bytes per pixel (red, green,
/// blue, alpha), rows stored top to bottom, pixels left to right within a row.
pub struct Bitmap {
    pub width: u32,
    pub height: u32,
    pub pixels: Vec<u8>,
}

/// The mathematical content of a `Bitmap`: its dimensions and its byte buffer.
#[verifier::ext_equal]
pub struct BitmapView {
    pub width: nat,
    pub height: nat,
    pub pixels: Seq<u8>,
}

impl View for Bitmap {
    type V = BitmapView;

    open spec fn view(&self) -> BitmapView {
        BitmapView {
            width: self.width as nat,
            height: self.height as nat,
            pixels: self.pixels@,
        }
    }
}

impl BitmapView {
    /// The buffer holds exactly four bytes for each pixel of the grid.
    pub open spec fn wf(self) -> bool {
        self.pixels.len() == 4 * self.width * self.height
    }

    /// The byte of channel `c` (0 red, 1 green, 2 blue, 3 alpha) of the pixel
    /// in column `x` of row `y`.
    pub open spec fn chan(self, x: int, y: int, c: int) -> u8 {
        self.pixels[4 * (y * self.width + x) + c]
    }

    /// The alpha byte of the pixel in column `x` of row `y`.
    pub open spec fn alpha(self, x: int, y: int) -> u8 {
        self.chan(x, y, 3)
    }

    /// `(x, y)` lies on the pixel grid.
    pub open spec fn in_bounds(self, x: int, y: int) -> bool {
        0 <= x < self.width && 0 <= y < self.height
    }

    /// The pixel at `(x, y)` is content: not fully transparent.
    pub open spec fn is_content(self, x: int, y: int) -> bool {
        self.alpha(x, y) > 0
    }

    /// Some pixel of the bitmap is content.
    pub open spec fn has_content(self) -> bool {
        exists|x: int, y: int| self.in_bounds(x, y) && #[trigger] self.is_content(x, y)
    }

    /// The box lies on the pixel grid and is non-degenerate.
    pub open spec fn box_in_bounds(self, b: BBox) -> bool {
        b.min_x <= b.max_x < self.width && b.min_y <= b.max_y < self.height
    }

    /// Every content pixel lies inside the box.
    pub open spec fn covers(self, b: BBox) -> bool {
        forall|x: int, y: int|
            self.in_bounds(x, y) && #[trigger] self.is_content(x, y)
                ==> b.min_x <= x <= b.max_x && b.min_y <= y <= b.max_y
    }

    /// Each of the four edges of the box carries some content pixel.
    pub open spec fn touches(self, b: BBox) -> bool {
        &&& (exists|y: int| 0 <= y < self.height && #[trigger] self.is_content(b.min_x as int, y))
        &&& (exists|y: int| 0 <= y < self.height && #[trigger] self.is_content(b.max_x as int, y))
        &&& (exists|x: int| 0 <= x < self.width && #[trigger] self.is_content(x, b.min_y as int))
        &&& (exists|x: int| 0 <= x < self.width && #[trigger] self.is_content(x, b.max_y as int))
    }

    /// `b` is the tight bounding box of the content pixels: it contains them
    /// all, and shrinking any edge would lose one.
    pub open spec fn is_bounding_box(self, b: BBox) -> bool {
        self.box_in_bounds(b) && self.covers(b) && self.touches(b)
    }
}

/// `(px, py)` comes strictly before `(x, y)` in a row-major scan of the grid.
spec fn scanned_before(px: int, py: int, x: int, y: int) -> bool {
    py < y || (py == y && px < x)
}

impl BitmapView {
    /// Some content pixel lies strictly before `(x, y)` in the scan.
    spec fn content_before(self, x: int, y: int) -> bool {
        exists|px: int, py: int|
            self.in_bounds(px, py) && scanned_before(px, py, x, y)
                && #[trigger] self.is_content(px, py)
    }

    /// Every content pixel scanned before `(x, y)` lies inside `b`.
    spec fn covers_scanned(self, b: BBox, x: int, y: int) -> bool {
        forall|px: int, py: int|
            self.in_bounds(px, py) && scanned_before(px, py, x, y)
                && #[trigger] self.is_content(px, py)
                ==> b.min_x <= px <= b.max_x && b.min_y <= py <= b.max_y
    }

    /// `(wx, wy)` is a content pixel scanned before `(x, y)`.
    spec fn content_witness(self, wx: int, wy: int, x: int, y: int) -> bool {
        self.in_bounds(wx, wy) && scanned_before(wx, wy, x, y) && self.is_content(wx, wy)
    }
}

/// The tight bounding box of the content (alpha > 0) pixels of `bmp`, or
/// `None` when the bitmap is fully transparent.
#[verifier::loop_isolation(false)]
pub fn bounding_box(bmp: &Bitmap) -> (r: Option<BBox>)
    requires
        bmp@.wf(),
    ensures
        r is Some <==> bmp@.has_content(),
        r matches Some(b) ==> bmp@.is_bounding_box(b),
{
    let w = bmp.width;
    let h = bmp.height;
    let n: usize = bmp.pixels.len();
    assert(n == 4 * (w as int) * (h as int));
    let mut found = false;
    let mut min_x: u32 = 0;
    let mut min_y: u32 = 0;
    let mut max_x: u32 = 0;
    let mut max_y: u32 = 0;
    let ghost mut w_minx: (int, int) = (0, 0);
    let ghost mut w_maxx: (int, int) = (0, 0);
    let ghost mut w_miny: (int, int) = (0, 0);
    let ghost mut w_maxy: (int, int) = (0, 0);
    let mut y: u32 = 0;
    while y < h
        invariant
            y <= h,
            found <==> bmp@.content_before(0, y as int),
            found ==> (bmp@.covers_scanned((BBox { min_x, min_y, max_x, max_y }), 0, y as int)),
            found ==> bmp@.content_witness(w_minx.0, w_minx.1, 0, y as int) && w_minx.0 == min_x,
            found ==> bmp@.content_witness(w_maxx.0, w_maxx.1, 0, y as int) && w_maxx.0 == max_x,
            found ==> bmp@.content_witness(w_miny.0, w_miny.1, 0, y as int) && w_miny.1 == min_y,
            found ==> bmp@.content_witness(w_maxy.0, w_maxy.1, 0, y as int) && w_maxy.1 == max_y,
        decreases h - y,
    {
        let mut x: u32 = 0;
        while x < w
            invariant
                x <= w,
                y < h,
                found <==> bmp@.content_before(x as int, y as int),
                found ==> (bmp@.covers_scanned(
                    (BBox { min_x, min_y, max_x, max_y }),
                    x as int,
                    y as int,
                )),
                found ==> bmp@.content_witness(w_minx.0, w_minx.1, x as int, y as int) && w_minx.0
                    == min_x,
                found ==> bmp@.content_witness(w_maxx.0, w_maxx.1, x as int, y as int) && w_maxx.0
                    == max_x,
                found ==> bmp@.content_witness(w_miny.0, w_miny.1, x as int, y as int) && w_miny.1
                    == min_y,
                found ==> bmp@.content_witness(w_maxy.0, w_maxy.1, x as int, y as int) && w_maxy.1
                    == max_y,
            decreases w - x,
        {
            proof {
                assert(4 * ((y as int) * (w as int) + (x as int)) + 3 < 4 * (w as int) * (h
                    as int) && (y as int) * (w as int) + (x as int) >= 0) by (nonlinear_arith)
                    requires
                        0 <= (x as int) < (w as int),
                        0 <= (y as int) < (h as int),
                ;
            }
            let idx: usize = 4 * ((y as usize) * (w as usize) + (x as usize)) + 3;
            let content = bmp.pixels[idx] > 0;
            assert(content == bmp@.is_content(x as int, y as int));
            if content {
                if !found {
                    min_x = x;
                    max_x = x;
                    min_y = y;
                    max_y = y;
                    found = true;
                    proof {
                        w_minx = (x as int, y as int);
                        w_maxx = (x as int, y as int);
                        w_miny = (x as int, y as int);
                        w_maxy = (x as int, y as int);
                    }
                } else {
                    if x < min_x {
                        min_x = x;
                        proof {
                            w_minx = (x as int, y as int);
                        }
                    }
                    if x > max_x {
                        max_x = x;
                        proof {
                            w_maxx = (x as int, y as int);
                        }
                    }
                    if y > max_y {
                        max_y = y;
                        proof {
                            w_maxy = (x as int, y as int);
                        }
                    }
                }
            }
            x = x + 1;
            proof {
                if found && !bmp@.content_before(x as int, y as int) {
                    assert(bmp@.content_witness(w_minx.0, w_minx.1, x as int, y as int));
                    assert(false);
                }
                assert forall|px: int, py: int|
                    bmp@.in_bounds(px, py) && scanned_before(px, py, x as int, y as int)
                        && #[trigger] bmp@.is_content(px, py) implies min_x <= px <= max_x && min_y
                    <= py <= max_y by {
                    if px == x - 1 && py == y as int {
                    } else {
                        assert(scanned_before(px, py, x - 1, y as int));
                        assert(bmp@.content_before(x - 1, y as int));
                    }
                }
            }
        }
        y = y + 1;
        proof {
            assert forall|px: int, py: int|
                bmp@.in_bounds(px, py) && scanned_before(px, py, 0, y as int)
                    && #[trigger] bmp@.is_content(px, py) implies scanned_before(
                px,
                py,
                w as int,
                y - 1,
            ) by {}
        }
    }
    if found {
        let b = BBox { min_x, min_y, max_x, max_y };
        proof {
            assert forall|px: int, py: int|
                bmp@.in_bounds(px, py) && #[trigger] bmp@.is_content(px, py) implies scanned_before(
                px,
                py,
                0,
                h as int,
            ) by {}
            assert(bmp@.covers(b));
            assert(bmp@.touches(b)) by {
                assert(bmp@.is_content(b.min_x as int, w_minx.1) && 0 <= w_minx.1 < bmp@.height);
                assert(bmp@.is_content(b.max_x as int, w_maxx.1) && 0 <= w_maxx.1 < bmp@.height);
                assert(bmp@.is_content(w_miny.0, b.min_y as int) && 0 <= w_miny.0 < bmp@.width);
                assert(bmp@.is_content(w_maxy.0, b.max_y as int) && 0 <= w_maxy.0 < bmp@.width);
            }
            assert(bmp@.box_in_bounds(b)) by {
                assert(bmp@.in_bounds(w_minx.0, w_minx.1) && bmp@.is_content(w_minx.0, w_minx.1));
                assert(bmp@.in_bounds(w_maxx.0, w_maxx.1) && bmp@.is_content(w_maxx.0, w_maxx.1));
                assert(bmp@.in_bounds(w_miny.0, w_miny.1) && bmp@.is_content(w_miny.0, w_miny.1));
                assert(bmp@.in_bounds(w_maxy.0, w_maxy.1) && bmp@.is_content(w_maxy.0, w_maxy.1));
            }
        }
        Some(b)
    } else {
        proof {
            assert forall|px: int, py: int|
                bmp@.in_bounds(px, py) && #[trigger] bmp@.is_content(px, py) implies false by {
                assert(scanned_before(px, py, 0, h as int));
                assert(bmp@.content_before(0, h as int));
            }
        }
        None
    }
}

/// The number of pixel columns spanned by `b`.
pub open spec fn box_width(b: BBox) -> int {
    b.max_x - b.min_x + 1
}

/// The number of pixel rows spanned by `b`.
pub open spec fn box_height(b: BBox) -> int {
    b.max_y - b.min_y + 1
}

/// `out` is `src` cropped to `b`: the box's dimensions, and channel for
/// channel the pixels of `src` inside the box.
pub open spec fn crop_rel(src: BitmapView, b: BBox, out: BitmapView) -> bool {
    &&& out.width == box_width(b)
    &&& out.height == box_height(b)
    &&& out.wf()
    &&& forall|x: int, y: int, c: int|
        0 <= x < out.width && 0 <= y < out.height && 0 <= c < 4
            ==> #[trigger] out.chan(x, y, c) == src.chan(x + b.min_x, y + b.min_y, c)
}

/// The box spanning the whole grid of `v`.
pub open spec fn full_box(v: BitmapView) -> BBox {
    BBox {
        min_x: 0,
        min_y: 0,
        max_x: (v.width - 1) as u32,
        max_y: (v.height - 1) as u32,
    }
}

/// Crop `bmp` to the box `b`, both corners inclusive.
#[verifier::loop_isolation(false)]
pub fn crop(bmp: &Bitmap, b: BBox) -> (r: Bitmap)
    requires
        bmp@.wf(),
        bmp@.box_in_bounds(b),
    ensures
        crop_rel(bmp@, b, r@),
{
    let w = bmp.width;
    let h = bmp.height;
    let n: usize = bmp.pixels.len();
    assert(n == 4 * (w as int) * (h as int));
    let nw: u32 = b.max_x - b.min_x + 1;
    let nh: u32 = b.max_y - b.min_y + 1;
    let mut buf: Vec<u8> = Vec::new();
    proof {
        assert((0 as int) * (nw as int) == 0) by (nonlinear_arith);
    }
    let mut y: u32 = 0;
    while y < nh
        invariant
            y <= nh,
            buf@.len() == 4 * ((y as int) * (nw as int)),
            forall|px: int, py: int, pc: int|
                0 <= px < nw && 0 <= py < y && 0 <= pc < 4
                    ==> #[trigger] buf@[4 * (py * nw + px) + pc] == bmp@.chan(
                    px + b.min_x,
                    py + b.min_y,
                    pc,
                ),
        decreases nh - y,
    {
        let mut x: u32 = 0;
        while x < nw
            invariant
                x <= nw,
                y < nh,
                buf@.len() == 4 * ((y as int) * (nw as int) + (x as int)),
                forall|px: int, py: int, pc: int|
                    0 <= px < nw && 0 <= py < y && 0 <= pc < 4
                        ==> #[trigger] buf@[4 * (py * nw + px) + pc] == bmp@.chan(
                        px + b.min_x,
                        py + b.min_y,
                        pc,
                    ),
                forall|px: int, pc: int|
                    0 <= px < x && 0 <= pc < 4
                        ==> #[trigger] buf@[4 * ((y as int) * nw + px) + pc] == bmp@.chan(
                        px + b.min_x,
                        y + b.min_y,
                        pc,
                    ),
            decreases nw - x,
        {
            let sx: u32 = b.min_x + x;
            let sy: u32 = b.min_y + y;
            proof {
                assert((y as int) * (nw as int) + (x as int) < (nh as int) * (nw as int) && 4 * ((sy
                    as int) * (w as int) + (sx as int)) + 4 <= 4 * (w as int) * (h as int) && (sy
                    as int) * (w as int) + (sx as int) >= 0 && (nh as int) * (nw as int) <= (h
                    as int) * (w as int)) by (nonlinear_arith)
                    requires
                        0 <= (x as int) < (nw as int),
                        0 <= (y as int) < (nh as int),
                        0 <= (sx as int) < (w as int),
                        0 <= (sy as int) < (h as int),
                        (nw as int) <= (w as int),
                        (nh as int) <= (h as int),
                ;
            }
            let base: usize = 4 * ((sy as usize) * (w as usize) + (sx as usize));
            let mut c: usize = 0;
            while c < 4
                invariant
                    c <= 4,
                    buf@.len() == 4 * ((y as int) * (nw as int) + (x as int)) + c,
                    forall|px: int, py: int, pc: int|
                        0 <= px < nw && 0 <= py < y && 0 <= pc < 4
                            ==> #[trigger] buf@[4 * (py * nw + px) + pc] == bmp@.chan(
                            px + b.min_x,
                            py + b.min_y,
                            pc,
                        ),
                    forall|px: int, pc: int|
                        0 <= px < x && 0 <= pc < 4
                            ==> #[trigger] buf@[4 * ((y as int) * nw + px) + pc] == bmp@.chan(
                            px + b.min_x,
                            y + b.min_y,
                            pc,
                        ),
                    forall|pc: int|
                        0 <= pc < c
                            ==> #[trigger] buf@[4 * ((y as int) * nw + (x as int)) + pc]
                            == bmp@.chan(x + b.min_x, y + b.min_y, pc),
                decreases 4 - c,
            {
                buf.push(bmp.pixels[base + c]);
                c = c + 1;
                proof {
                    assert forall|px: int, py: int, pc: int|
                        0 <= px < nw && 0 <= py < y && 0 <= pc < 4 implies #[trigger] buf@[4 * (py
                        * nw + px) + pc] == bmp@.chan(px + b.min_x, py + b.min_y, pc) by {
                        assert(0 <= 4 * (py * (nw as int) + px) + pc && 4 * (py * (nw as int) + px)
                            + pc < 4 * ((y as int) * (nw as int) + (x as int))) by (nonlinear_arith)
                            requires
                                0 <= px < (nw as int),
                                0 <= py < (y as int),
                                0 <= pc < 4,
                                0 <= (x as int),
                        ;
                    }
                }
            }
            x = x + 1;
        }
        y = y + 1;
        proof {
            assert((y as int) * (nw as int) == (y - 1) * (nw as int) + (nw as int))
                by (nonlinear_arith);
            assert forall|px: int, py: int, pc: int|
                0 <= px < nw && 0 <= py < y && 0 <= pc < 4 implies #[trigger] buf@[4 * (py * nw + px)
                + pc] == bmp@.chan(px + b.min_x, py + b.min_y, pc) by {
                if py == y - 1 {
                    assert(buf@[4 * ((y - 1) * nw + px) + pc] == bmp@.chan(
                        px + b.min_x,
                        y - 1 + b.min_y,
                        pc,
                    ));
                }
            }
        }
    }
    let r = Bitmap { width: nw, height: nh, pixels: buf };
    proof {
        assert(r@.wf()) by {
            assert(r@.pixels.len() == 4 * ((nh as int) * (nw as int)));
            assert(4 * ((nh as int) * (nw as int)) == 4 * (nw as int) * (nh as int))
                by (nonlinear_arith);
        }
        assert forall|x: int, yy: int, c: int|
            0 <= x < r@.width && 0 <= yy < r@.height && 0 <= c < 4 implies #[trigger] r@.chan(
            x,
            yy,
            c,
        ) == bmp@.chan(x + b.min_x, yy + b.min_y, c) by {
            assert(r@.chan(x, yy, c) == r@.pixels[4 * (yy * nw + x) + c]);
        }
    }
    r
}

/// A bitmap has at most one tight bounding box: the contract of
/// `bounding_box` pins its result down completely.
pub proof fn lemma_bounding_box_unique(v: BitmapView, b1: BBox, b2: BBox)
    requires
        v.is_bounding_box(b1),
        v.is_bounding_box(b2),
    ensures
        b1 == b2,
{
    let y1 = choose|y: int| 0 <= y < v.height && #[trigger] v.is_content(b1.min_x as int, y);
    assert(b2.min_x <= b1.min_x);
    let y2 = choose|y: int| 0 <= y < v.height && #[trigger] v.is_content(b2.min_x as int, y);
    assert(b1.min_x <= b2.min_x);
    let y3 = choose|y: int| 0 <= y < v.height && #[trigger] v.is_content(b1.max_x as int, y);
    assert(b1.max_x <= b2.max_x);
    let y4 = choose|y: int| 0 <= y < v.height && #[trigger] v.is_content(b2.max_x as int, y);
    assert(b2.max_x <= b1.max_x);
    let x1 = choose|x: int| 0 <= x < v.width && #[trigger] v.is_content(x, b1.min_y as int);
    assert(b2.min_y <= b1.min_y);
    let x2 = choose|x: int| 0 <= x < v.width && #[trigger] v.is_content(x, b2.min_y as int);
    assert(b1.min_y <= b2.min_y);
    let x3 = choose|x: int| 0 <= x < v.width && #[trigger] v.is_content(x, b1.max_y as int);
    assert(b1.max_y <= b2.max_y);
    let x4 = choose|x: int| 0 <= x < v.width && #[trigger] v.is_content(x, b2.max_y as int);
    assert(b2.max_y <= b1.max_y);
}

/// Cropping to the tight bounding box is a fixed point: the cropped bitmap's
/// own bounding box is its full extent, so cropping it again changes nothing.
pub proof fn lemma_crop_fixed_point(src: BitmapView, b: BBox, out: BitmapView)
    requires
        src.wf(),
        src.is_bounding_box(b),
        crop_rel(src, b, out),
    ensures
        out.is_bounding_box(full_box(out)),
{
    let fb = full_box(out);
    assert(out.covers(fb));
    // each content pixel of `src` on an edge of `b` reappears in `out` on the
    // matching edge of the full box
    let y1 = choose|y: int| 0 <= y < src.height && #[trigger] src.is_content(b.min_x as int, y);
    assert(b.min_y <= y1 <= b.max_y);
    assert(out.chan(0, y1 - b.min_y, 3) == src.chan(b.min_x as int, y1, 3));
    assert(out.is_content(fb.min_x as int, y1 - b.min_y));
    let y2 = choose|y: int| 0 <= y < src.height && #[trigger] src.is_content(b.max_x as int, y);
    assert(b.min_y <= y2 <= b.max_y);
    assert(out.chan(b.max_x - b.min_x, y2 - b.min_y, 3) == src.chan(b.max_x as int, y2, 3));
    assert(out.is_content(fb.max_x as int, y2 - b.min_y));
    let x1 = choose|x: int| 0 <= x < src.width && #[trigger] src.is_content(x, b.min_y as int);
    assert(b.min_x <= x1 <= b.max_x);
    assert(out.chan(x1 - b.min_x, 0, 3) == src.chan(x1, b.min_y as int, 3));
    assert(out.is_content(x1 - b.min_x, fb.min_y as int));
    let x2 = choose|x: int| 0 <= x < src.width && #[trigger] src.is_content(x, b.max_y as int);
    assert(b.min_x <= x2 <= b.max_x);
    assert(out.chan(x2 - b.min_x, b.max_y - b.min_y, 3) == src.chan(x2, b.max_y as int, 3));
    assert(out.is_content(x2 - b.min_x, fb.max_y as int));
    assert(out.touches(fb));
}

/// An axis-aligned rectangle of pixels, both corners inclusive.
#[derive(Clone, Copy, PartialEq, Eq, Structural, Debug)]
pub struct BBox {
    pub min_x: u32,
    pub min_y: u32,
    pub max_x: u32,
    pub max_y: u32,
}

} // verus!
