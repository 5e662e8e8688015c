//! Pure raster composition.
//!
//! A raster is a rectangle of RGBA pixels in row-major order. The two
//! operations of the pipeline are [`crop`], which clamps a requested region
//! to the source bounds and extracts it, and [`render`], which composes a
//! padded background canvas, an optional content blur, a corner-radius
//! mask, and an optional drop shadow into one new raster. Every operation
//! leaves its source untouched and returns a new raster; every kernel is
//! integer arithmetic, so identical inputs give identical outputs.

use vstd::prelude::*;

use crate::ShotError;

verus! {

/// One RGBA pixel, straight (non-premultiplied) alpha.
#[derive(Clone, Copy, Debug, PartialEq, Eq, Structural)]
pub struct Pixel {
    pub r: u8,
    pub g: u8,
    pub b: u8,
    pub a: u8,
}

/// A raster: `pixels` holds `height` rows of `width` pixels each, row by
/// row from the top.
#[derive(Debug, PartialEq, Eq)]
pub struct Image {
    pub width: usize,
    pub height: usize,
    pub pixels: Vec<Pixel>,
}

/// The pixel at column `x` of row `y` of a row-major buffer `w` wide.
pub open spec fn pix_at(s: Seq<Pixel>, w: int, x: int, y: int) -> Pixel {
    s[y * w + x]
}

impl Image {
    /// The backing vector holds exactly one pixel per coordinate.
    pub open spec fn wf(self) -> bool {
        self.pixels@.len() == self.width * self.height
    }

    /// The pixel at column `x` of row `y`.
    pub open spec fn pix(self, x: int, y: int) -> Pixel {
        pix_at(self.pixels@, self.width as int, x, y)
    }

    /// Reads the pixel at `(x, y)`.
    pub fn get(&self, x: usize, y: usize) -> (p: Pixel)
        requires
            self.wf(),
            x < self.width,
            y < self.height,
        ensures
            p == self.pix(x as int, y as int),
    {
        let n = self.pixels.len();
        proof {
            lemma_row_major(self.width as int, self.height as int, x as int, y as int);
            assert(n == self.width * self.height);
        }
        self.pixels[y * self.width + x]
    }
}

/// In a `w` by `h` rectangle, the row-major index of an in-bounds
/// coordinate is in bounds.
pub proof fn lemma_row_major(w: int, h: int, x: int, y: int)
    requires
        0 <= x < w,
        0 <= y < h,
    ensures
        0 <= y * w + x < w * h,
        y * w + x < h * w,
{
    assert(0 <= y * w + x < w * h && y * w + x < h * w) by (nonlinear_arith)
        requires
            0 <= x < w,
            0 <= y < h,
    ;
}

/// A raster of the given size with every pixel equal to `fill`.
pub fn new_filled(width: usize, height: usize, fill: Pixel) -> (r: Image)
    requires
        width * height <= usize::MAX,
    ensures
        r.wf(),
        r.width == width,
        r.height == height,
        forall|x: int, y: int|
            0 <= x < width && 0 <= y < height ==> #[trigger] r.pix(x, y) == fill,
{
    let total = width * height;
    let mut pixels: Vec<Pixel> = Vec::new();
    let mut i: usize = 0;
    while i < total
        invariant
            i <= total,
            pixels@.len() == i,
            forall|k: int| 0 <= k < i ==> pixels@[k] == fill,
        decreases total - i,
    {
        pixels.push(fill);
        i = i + 1;
    }
    let img = Image { width, height, pixels };
    assert forall|x: int, y: int|
        0 <= x < width && 0 <= y < height implies #[trigger] img.pix(x, y) == fill by {
        lemma_row_major(width as int, height as int, x, y);
    }
    img
}

/// A rectangle a user drew against a source raster, in that raster's own
/// pixel space.
#[derive(Clone, Copy, Debug, PartialEq, Eq, Structural)]
pub struct CropRegion {
    pub x: usize,
    pub y: usize,
    pub width: usize,
    pub height: usize,
}

/// Left edge of the region clamped into a raster `w` wide.
pub open spec fn clamp_x(r: CropRegion, w: int) -> int {
    if r.x <= w {
        r.x as int
    } else {
        w
    }
}

/// Top edge of the region clamped into a raster `h` high.
pub open spec fn clamp_y(r: CropRegion, h: int) -> int {
    if r.y <= h {
        r.y as int
    } else {
        h
    }
}

/// Width of the intersection of the region with the raster.
pub open spec fn clamp_w(r: CropRegion, w: int) -> int {
    if r.x + r.width <= w {
        r.width as int
    } else {
        w - clamp_x(r, w)
    }
}

/// Height of the intersection of the region with the raster.
pub open spec fn clamp_h(r: CropRegion, h: int) -> int {
    if r.y + r.height <= h {
        r.height as int
    } else {
        h - clamp_y(r, h)
    }
}

/// Extracts the sub-rectangle `region` from `source`.
///
/// The region is clamped to the source bounds — out-of-range parts are
/// dropped, never padded or upscaled. A region whose intersection with the
/// source has zero area is refused with [`ShotError::InvalidRegion`];
/// every other region yields exactly the pixels of the intersection, and
/// the source is never touched.
pub fn crop(source: &Image, region: CropRegion) -> (r: Result<Image, ShotError>)
    requires
        source.wf(),
    ensures
        r is Ok <==> clamp_w(region, source.width as int) > 0 && clamp_h(
            region,
            source.height as int,
        ) > 0,
        r is Err ==> r == Err::<Image, ShotError>(ShotError::InvalidRegion),
        r is Ok ==> {
            let out = r->Ok_0;
            &&& out.wf()
            &&& out.width == clamp_w(region, source.width as int)
            &&& out.height == clamp_h(region, source.height as int)
            &&& forall|i: int, j: int|
                0 <= i < out.width && 0 <= j < out.height ==> #[trigger] out.pix(i, j)
                    == source.pix(
                    clamp_x(region, source.width as int) + i,
                    clamp_y(region, source.height as int) + j,
                )
        },
{
    let w = source.width;
    let h = source.height;
    let cx = if region.x <= w {
        region.x
    } else {
        w
    };
    let cy = if region.y <= h {
        region.y
    } else {
        h
    };
    let cw = if region.width <= w - cx {
        region.width
    } else {
        w - cx
    };
    let ch = if region.height <= h - cy {
        region.height
    } else {
        h - cy
    };
    assert(cw == clamp_w(region, w as int));
    assert(ch == clamp_h(region, h as int));
    if cw == 0 || ch == 0 {
        return Err(ShotError::InvalidRegion);
    }
    let mut pixels: Vec<Pixel> = Vec::new();
    let mut j: usize = 0;
    while j < ch
        invariant
            source.wf(),
            w == source.width,
            h == source.height,
            cx + cw <= w,
            cy + ch <= h,
            cw > 0,
            j <= ch,
            pixels@.len() == j * cw,
            forall|p: int, q: int|
                0 <= p < cw && 0 <= q < j ==> #[trigger] pix_at(pixels@, cw as int, p, q)
                    == source.pix(cx + p, cy + q),
        decreases ch - j,
    {
        let mut i: usize = 0;
        proof {
            lemma_row_major(cw as int, ch as int, 0, j as int);
        }
        while i < cw
            invariant
                source.wf(),
                w == source.width,
                h == source.height,
                cx + cw <= w,
                cy + ch <= h,
                j < ch,
                i <= cw,
                pixels@.len() == j * cw + i,
                forall|p: int, q: int|
                    0 <= p < cw && 0 <= q < j ==> #[trigger] pix_at(pixels@, cw as int, p, q)
                        == source.pix(cx + p, cy + q),
                forall|p: int|
                    0 <= p < i ==> #[trigger] pix_at(pixels@, cw as int, p, j as int)
                        == source.pix(cx + p, cy + j),
            decreases cw - i,
        {
            let px = source.get(cx + i, cy + j);
            let ghost prev = pixels@;
            pixels.push(px);
            assert forall|p: int, q: int|
                0 <= p < cw && 0 <= q < j implies #[trigger] pix_at(pixels@, cw as int, p, q)
                == source.pix(cx + p, cy + q) by {
                lemma_row_major(cw as int, j as int, p, q);
                assert(q * cw + p < cw * j);
                assert(pix_at(prev, cw as int, p, q) == source.pix(cx + p, cy + q));
                assert(pixels@[q * cw + p] == prev[q * cw + p]);
            }
            assert forall|p: int|
                0 <= p < i + 1 implies #[trigger] pix_at(pixels@, cw as int, p, j as int)
                == source.pix(cx + p, cy + j) by {
                if p < i {
                    assert(pix_at(prev, cw as int, p, j as int) == source.pix(cx + p, cy + j));
                    assert(pixels@[j * cw + p] == prev[j * cw + p]);
                } else {
                    assert(pixels@[j * cw + i] == px);
                }
            }
            i = i + 1;
        }
        assert(pixels@.len() == j * cw + cw == (j + 1) * cw) by (nonlinear_arith)
            requires
                pixels@.len() == j * cw + cw,
        ;
        j = j + 1;
    }
    assert(pixels@.len() == cw * ch) by (nonlinear_arith)
        requires
            pixels@.len() == ch * cw,
    ;
    let out = Image { width: cw, height: ch, pixels };
    assert(out.wf());
    assert forall|i: int, j2: int|
        0 <= i < out.width && 0 <= j2 < out.height implies #[trigger] out.pix(i, j2) == source.pix(
        cx + i,
        cy + j2,
    ) by {
        lemma_row_major(cw as int, ch as int, i, j2);
    }
    Ok(out)
}

/// Row `y` of a row-major buffer `w` wide.
pub open spec fn row_of(s: Seq<Pixel>, w: int, y: int) -> Seq<Pixel> {
    Seq::new(w as nat, |x: int| s[y * w + x])
}

/// Column `x` of a row-major buffer `w` wide and `h` high.
pub open spec fn col_of(s: Seq<Pixel>, w: int, h: int, x: int) -> Seq<Pixel> {
    Seq::new(h as nat, |y: int| s[y * w + x])
}

/// First index of the radius-`r` window around `i`, clamped at the line's
/// start.
pub open spec fn win_lo(i: int, r: int) -> int {
    if i >= r {
        i - r
    } else {
        0
    }
}

/// One past the last index of the radius-`r` window around `i`, clamped at
/// the line's end `n`.
pub open spec fn win_hi(i: int, r: int, n: int) -> int {
    if i + r + 1 <= n {
        i + r + 1
    } else {
        n
    }
}

/// Channel-wise sum of the pixels in `[lo, hi)`.
pub open spec fn sum_px(s: Seq<Pixel>, lo: int, hi: int) -> (int, int, int, int)
    decreases hi - lo,
{
    if lo >= hi {
        (0, 0, 0, 0)
    } else {
        let t = sum_px(s, lo, (hi - 1) as int);
        (t.0 + s[hi - 1].r, t.1 + s[hi - 1].g, t.2 + s[hi - 1].b, t.3 + s[hi - 1].a)
    }
}

/// Each channel sum over `[lo, hi)` lies between 0 and `255 * (hi - lo)`.
pub proof fn lemma_sum_bounds(s: Seq<Pixel>, lo: int, hi: int)
    requires
        0 <= lo <= hi <= s.len(),
    ensures
        0 <= sum_px(s, lo, hi).0 <= 255 * (hi - lo),
        0 <= sum_px(s, lo, hi).1 <= 255 * (hi - lo),
        0 <= sum_px(s, lo, hi).2 <= 255 * (hi - lo),
        0 <= sum_px(s, lo, hi).3 <= 255 * (hi - lo),
    decreases hi - lo,
{
    if lo < hi {
        lemma_sum_bounds(s, lo, (hi - 1) as int);
    }
}

/// The box-filter average of the radius-`r` window around position `i`:
/// each channel is the window sum divided by the window size, rounded
/// down.
pub open spec fn avg_px(s: Seq<Pixel>, i: int, r: int) -> Pixel {
    let lo = win_lo(i, r);
    let hi = win_hi(i, r, s.len() as int);
    let n = hi - lo;
    let t = sum_px(s, lo, hi);
    Pixel { r: (t.0 / n) as u8, g: (t.1 / n) as u8, b: (t.2 / n) as u8, a: (t.3 / n) as u8 }
}

/// A radius-zero window holds exactly the pixel itself, so the average is
/// the identity.
pub proof fn lemma_avg_zero(s: Seq<Pixel>, i: int)
    requires
        0 <= i < s.len(),
    ensures
        avg_px(s, i, 0) == s[i],
{
    assert(sum_px(s, i, i) == (0int, 0int, 0int, 0int));
    let t = sum_px(s, i, i + 1);
    assert(t.0 == s[i].r && t.1 == s[i].g && t.2 == s[i].b && t.3 == s[i].a);
    assert(win_lo(i, 0) == i && win_hi(i, 0, s.len() as int) == i + 1);
    assert(avg_px(s, i, 0) == (Pixel {
        r: (t.0 / 1) as u8,
        g: (t.1 / 1) as u8,
        b: (t.2 / 1) as u8,
        a: (t.3 / 1) as u8,
    }));
}

/// One horizontal box-blur pass over a row-major buffer.
pub open spec fn blur_h_seq(s: Seq<Pixel>, w: int, h: int, r: int) -> Seq<Pixel> {
    Seq::new((w * h) as nat, |k: int| avg_px(row_of(s, w, k / w), k % w, r))
}

/// One vertical box-blur pass over a row-major buffer.
pub open spec fn blur_v_seq(s: Seq<Pixel>, w: int, h: int, r: int) -> Seq<Pixel> {
    Seq::new((w * h) as nat, |k: int| avg_px(col_of(s, w, h, k % w), k / w, r))
}

/// The separable box blur: a horizontal pass followed by a vertical one.
/// Integer arithmetic throughout, so identical inputs blur identically.
pub open spec fn blur_seq(s: Seq<Pixel>, w: int, h: int, r: int) -> Seq<Pixel> {
    blur_v_seq(blur_h_seq(s, w, h, r), w, h, r)
}

/// Box-filters one line of pixels with the given radius.
fn blur_line(line: &Vec<Pixel>, radius: usize) -> (out: Vec<Pixel>)
    ensures
        out@.len() == line@.len(),
        forall|i: int| 0 <= i < line@.len() ==> out@[i] == avg_px(line@, i, radius as int),
{
    let n = line.len();
    let mut out: Vec<Pixel> = Vec::new();
    let mut i: usize = 0;
    while i < n
        invariant
            n == line@.len(),
            i <= n,
            out@.len() == i,
            forall|p: int| 0 <= p < i ==> out@[p] == avg_px(line@, p, radius as int),
        decreases n - i,
    {
        let lo: usize = if i >= radius {
            i - radius
        } else {
            0
        };
        let hi: usize = if (i as u128) + (radius as u128) + 1 <= n as u128 {
            i + radius + 1
        } else {
            n
        };
        assert(lo == win_lo(i as int, radius as int));
        assert(hi == win_hi(i as int, radius as int, n as int));
        let mut sr: u128 = 0;
        let mut sg: u128 = 0;
        let mut sb: u128 = 0;
        let mut sa: u128 = 0;
        let mut k: usize = lo;
        proof {
            lemma_sum_bounds(line@, lo as int, lo as int);
        }
        while k < hi
            invariant
                n == line@.len(),
                lo <= k <= hi <= n,
                sr == sum_px(line@, lo as int, k as int).0,
                sg == sum_px(line@, lo as int, k as int).1,
                sb == sum_px(line@, lo as int, k as int).2,
                sa == sum_px(line@, lo as int, k as int).3,
                sr <= 255 * (k - lo),
                sg <= 255 * (k - lo),
                sb <= 255 * (k - lo),
                sa <= 255 * (k - lo),
            decreases hi - k,
        {
            let p = line[k];
            sr = sr + p.r as u128;
            sg = sg + p.g as u128;
            sb = sb + p.b as u128;
            sa = sa + p.a as u128;
            k = k + 1;
        }
        let cnt: u128 = (hi - lo) as u128;
        assert(cnt >= 1);
        proof {
            lemma_sum_bounds(line@, lo as int, hi as int);
        }
        let px = Pixel {
            r: (sr / cnt) as u8,
            g: (sg / cnt) as u8,
            b: (sb / cnt) as u8,
            a: (sa / cnt) as u8,
        };
        assert(px == avg_px(line@, i as int, radius as int));
        out.push(px);
        i = i + 1;
    }
    out
}

/// Appends every pixel of `s` to `out`.
fn append_pixels(out: &mut Vec<Pixel>, s: &Vec<Pixel>)
    ensures
        final(out)@ == old(out)@ + s@,
{
    let n = s.len();
    let mut i: usize = 0;
    while i < n
        invariant
            n == s@.len(),
            i <= n,
            out@ == old(out)@ + s@.take(i as int),
        decreases n - i,
    {
        out.push(s[i]);
        assert(out@ =~= old(out)@ + s@.take(i + 1));
        i = i + 1;
    }
    assert(out@ =~= old(out)@ + s@);
}

/// Copies row `y` of the raster into its own vector.
fn extract_row(img: &Image, y: usize) -> (out: Vec<Pixel>)
    requires
        img.wf(),
        y < img.height,
    ensures
        out@ =~= row_of(img.pixels@, img.width as int, y as int),
{
    let w = img.width;
    let mut out: Vec<Pixel> = Vec::new();
    let mut x: usize = 0;
    while x < w
        invariant
            img.wf(),
            w == img.width,
            y < img.height,
            x <= w,
            out@.len() == x,
            forall|p: int| 0 <= p < x ==> out@[p] == img.pix(p, y as int),
        decreases w - x,
    {
        let px = img.get(x, y);
        out.push(px);
        x = x + 1;
    }
    out
}

/// One horizontal box-blur pass over the whole raster.
fn blur_h(img: &Image, radius: usize) -> (out: Image)
    requires
        img.wf(),
    ensures
        out.wf(),
        out.width == img.width,
        out.height == img.height,
        out.pixels@ =~= blur_h_seq(
            img.pixels@,
            img.width as int,
            img.height as int,
            radius as int,
        ),
{
    let w = img.width;
    let h = img.height;
    let mut pixels: Vec<Pixel> = Vec::new();
    let mut y: usize = 0;
    while y < h
        invariant
            img.wf(),
            w == img.width,
            h == img.height,
            y <= h,
            pixels@.len() == y * w,
            forall|p: int, q: int|
                0 <= p < w && 0 <= q < y ==> #[trigger] pix_at(pixels@, w as int, p, q) == avg_px(
                    row_of(img.pixels@, w as int, q),
                    p,
                    radius as int,
                ),
        decreases h - y,
    {
        let row = extract_row(img, y);
        let blurred = blur_line(&row, radius);
        let ghost prev = pixels@;
        append_pixels(&mut pixels, &blurred);
        assert forall|p: int, q: int|
            0 <= p < w && 0 <= q < y + 1 implies #[trigger] pix_at(pixels@, w as int, p, q)
            == avg_px(row_of(img.pixels@, w as int, q), p, radius as int) by {
            if q < y {
                lemma_row_major(w as int, y as int, p, q);
                assert(q * w + p < y * w);
                assert(pix_at(prev, w as int, p, q) == avg_px(
                    row_of(img.pixels@, w as int, q),
                    p,
                    radius as int,
                ));
                assert((prev + blurred@)[q * w + p] == prev[q * w + p]);
            } else {
                assert((prev + blurred@)[y * w + p] == blurred@[y * w + p - prev.len()]);
                assert(blurred@[p] == avg_px(row_of(img.pixels@, w as int, y as int), p, radius as int));
            }
        }
        assert(pixels@.len() == y * w + w == (y + 1) * w) by (nonlinear_arith)
            requires
                pixels@.len() == y * w + w,
        ;
        y = y + 1;
    }
    assert(pixels@.len() == w * h) by (nonlinear_arith)
        requires
            pixels@.len() == h * w,
    ;
    let out = Image { width: w, height: h, pixels };
    assert forall|k: int| 0 <= k < w * h implies out.pixels@[k] == blur_h_seq(
        img.pixels@,
        w as int,
        h as int,
        radius as int,
    )[k] by {
        let q = k / (w as int);
        let p = k % (w as int);
        assert(w > 0) by (nonlinear_arith)
            requires
                0 <= k < w * h,
                0 <= h,
        ;
        assert(k == q * w + p && 0 <= p < w && 0 <= q < h) by (nonlinear_arith)
            requires
                w > 0,
                0 <= k < w * h,
                q == k / (w as int),
                p == k % (w as int),
        ;
        assert(pix_at(out.pixels@, w as int, p, q) == avg_px(
            row_of(img.pixels@, w as int, q),
            p,
            radius as int,
        ));
    }
    out
}

/// The raster flipped about its main diagonal.
fn transpose(img: &Image) -> (out: Image)
    requires
        img.wf(),
    ensures
        out.wf(),
        out.width == img.height,
        out.height == img.width,
        forall|x: int, y: int|
            0 <= x < out.width && 0 <= y < out.height ==> #[trigger] out.pix(x, y) == img.pix(
                y,
                x,
            ),
{
    let w = img.height;
    let h = img.width;
    let mut pixels: Vec<Pixel> = Vec::new();
    let mut j: usize = 0;
    while j < h
        invariant
            img.wf(),
            w == img.height,
            h == img.width,
            j <= h,
            pixels@.len() == j * w,
            forall|p: int, q: int|
                0 <= p < w && 0 <= q < j ==> #[trigger] pix_at(pixels@, w as int, p, q)
                    == img.pix(q, p),
        decreases h - j,
    {
        let mut i: usize = 0;
        while i < w
            invariant
                img.wf(),
                w == img.height,
                h == img.width,
                j < h,
                i <= w,
                pixels@.len() == j * w + i,
                forall|p: int, q: int|
                    0 <= p < w && 0 <= q < j ==> #[trigger] pix_at(pixels@, w as int, p, q)
                        == img.pix(q, p),
                forall|p: int|
                    0 <= p < i ==> #[trigger] pix_at(pixels@, w as int, p, j as int) == img.pix(
                        j as int,
                        p,
                    ),
            decreases w - i,
        {
            let px = img.get(j, i);
            let ghost prev = pixels@;
            pixels.push(px);
            assert forall|p: int, q: int|
                0 <= p < w && 0 <= q < j implies #[trigger] pix_at(pixels@, w as int, p, q)
                == img.pix(q, p) by {
                lemma_row_major(w as int, j as int, p, q);
                assert(q * w + p < w * j);
                assert(pix_at(prev, w as int, p, q) == img.pix(q, p));
                assert(pixels@[q * w + p] == prev[q * w + p]);
            }
            assert forall|p: int|
                0 <= p < i + 1 implies #[trigger] pix_at(pixels@, w as int, p, j as int)
                == img.pix(j as int, p) by {
                if p < i {
                    assert(pix_at(prev, w as int, p, j as int) == img.pix(j as int, p));
                    assert(pixels@[j * w + p] == prev[j * w + p]);
                } else {
                    assert(pixels@[j * w + i] == px);
                }
            }
            i = i + 1;
        }
        assert(pixels@.len() == j * w + w == (j + 1) * w) by (nonlinear_arith)
            requires
                pixels@.len() == j * w + w,
        ;
        j = j + 1;
    }
    assert(pixels@.len() == w * h) by (nonlinear_arith)
        requires
            pixels@.len() == h * w,
    ;
    let out = Image { width: w, height: h, pixels };
    out
}

/// Deterministic separable box blur of the whole raster: a horizontal
/// pass, then a vertical one. Radius zero leaves every pixel unchanged.
pub fn blur(img: &Image, radius: usize) -> (out: Image)
    requires
        img.wf(),
    ensures
        out.wf(),
        out.width == img.width,
        out.height == img.height,
        out.pixels@ =~= blur_seq(img.pixels@, img.width as int, img.height as int, radius as int),
{
    let w = img.width;
    let h = img.height;
    let bh = blur_h(img, radius);
    let t1 = transpose(&bh);
    let bt = blur_h(&t1, radius);
    let out = transpose(&bt);
    assert forall|k: int| 0 <= k < w * h implies out.pixels@[k] == blur_v_seq(
        bh.pixels@,
        w as int,
        h as int,
        radius as int,
    )[k] by {
        let y = k / (w as int);
        let x = k % (w as int);
        assert(w > 0) by (nonlinear_arith)
            requires
                0 <= k < w * h,
                0 <= h,
        ;
        assert(k == y * w + x && 0 <= x < w && 0 <= y < h) by (nonlinear_arith)
            requires
                w > 0,
                0 <= k < w * h,
                y == k / (w as int),
                x == k % (w as int),
        ;
        assert(out.pix(x, y) == bt.pix(y, x));
        assert(bt.pix(y, x) == pix_at(bt.pixels@, h as int, y, x));
        lemma_row_major(h as int, w as int, y, x);
        assert(bt.pixels@[x * h + y] == blur_h_seq(
            t1.pixels@,
            h as int,
            w as int,
            radius as int,
        )[x * h + y]);
        assert((x * h + y) / (h as int) == x && (x * h + y) % (h as int) == y) by (nonlinear_arith)
            requires
                h > 0,
                0 <= x < w,
                0 <= y < h,
        ;
        let rowx = row_of(t1.pixels@, h as int, x);
        let colx = col_of(bh.pixels@, w as int, h as int, x);
        assert forall|q: int| 0 <= q < h implies rowx[q] == colx[q] by {
            lemma_row_major(h as int, w as int, q, x);
            lemma_row_major(w as int, h as int, x, q);
            assert(rowx[q] == t1.pixels@[x * h + q]);
            assert(colx[q] == bh.pixels@[q * w + x]);
            assert(t1.pix(q, x) == bh.pix(x, q));
            assert(t1.pix(q, x) == pix_at(t1.pixels@, h as int, q, x));
            assert(bh.pix(x, q) == pix_at(bh.pixels@, w as int, x, q));
        }
        assert(rowx =~= colx);
        assert(out.pixels@[k] == avg_px(col_of(bh.pixels@, w as int, h as int, x), y, radius as int));
    }
    out
}

/// Background of the padded canvas behind the content.
#[derive(Clone, Copy, Debug, PartialEq, Eq, Structural)]
pub enum Background {
    /// No canvas fill: the padding stays fully transparent.
    Transparent,
    /// One solid color.
    Solid(Pixel),
    /// A vertical gradient from the top color to the bottom color.
    VerticalGradient(Pixel, Pixel),
}

/// Drop-shadow configuration as handed in by the caller; negative numbers
/// are treated as zero.
#[derive(Clone, Copy, Debug, PartialEq, Eq, Structural)]
pub struct ShadowSettings {
    pub enabled: bool,
    pub blur: i64,
    pub offset_x: i64,
    pub offset_y: i64,
    /// 0 (invisible) to 255 (opaque); larger values are treated as 255.
    pub opacity: i64,
}

/// Composition configuration as handed in by the caller; every numeric
/// field is validated to be at least zero before use.
#[derive(Clone, Copy, Debug, PartialEq, Eq, Structural)]
pub struct RenderSettings {
    pub background: Background,
    pub padding: i64,
    pub corner_radius: i64,
    pub shadow: ShadowSettings,
    pub content_blur: i64,
}

/// The validated form of [`RenderSettings`] the pipeline runs on: every
/// field non-negative and within the machine's address range.
#[derive(Clone, Copy, Debug, PartialEq, Eq, Structural)]
pub struct EffectiveSettings {
    pub background: Background,
    pub pad: usize,
    pub corner_radius: usize,
    pub blur_radius: usize,
    pub shadow_on: bool,
    pub shadow_blur: usize,
    pub shadow_dx: usize,
    pub shadow_dy: usize,
    pub shadow_opacity: u8,
}

/// A caller-supplied field clamped into `[0, usize::MAX]`.
pub open spec fn clamp_field(v: i64) -> int {
    if v < 0 {
        0
    } else if v > usize::MAX {
        usize::MAX as int
    } else {
        v as int
    }
}

/// A caller-supplied opacity clamped into `[0, 255]`.
pub open spec fn clamp_opacity(v: i64) -> int {
    if v < 0 {
        0
    } else if v > 255 {
        255
    } else {
        v as int
    }
}

fn clamp_field_exec(v: i64) -> (r: usize)
    ensures
        r == clamp_field(v),
{
    if v < 0 {
        0
    } else if v as u64 > usize::MAX as u64 {
        usize::MAX
    } else {
        v as usize
    }
}

/// Validates the caller's settings: negative values become zero, the
/// opacity is capped at full, and nothing else changes.
pub fn effective(settings: RenderSettings) -> (e: EffectiveSettings)
    ensures
        e.background == settings.background,
        e.pad == clamp_field(settings.padding),
        e.corner_radius == clamp_field(settings.corner_radius),
        e.blur_radius == clamp_field(settings.content_blur),
        e.shadow_on == settings.shadow.enabled,
        e.shadow_blur == clamp_field(settings.shadow.blur),
        e.shadow_dx == clamp_field(settings.shadow.offset_x),
        e.shadow_dy == clamp_field(settings.shadow.offset_y),
        e.shadow_opacity == clamp_opacity(settings.shadow.opacity),
{
    let op: u8 = if settings.shadow.opacity < 0 {
        0
    } else if settings.shadow.opacity > 255 {
        255
    } else {
        settings.shadow.opacity as u8
    };
    EffectiveSettings {
        background: settings.background,
        pad: clamp_field_exec(settings.padding),
        corner_radius: clamp_field_exec(settings.corner_radius),
        blur_radius: clamp_field_exec(settings.content_blur),
        shadow_on: settings.shadow.enabled,
        shadow_blur: clamp_field_exec(settings.shadow.blur),
        shadow_dx: clamp_field_exec(settings.shadow.offset_x),
        shadow_dy: clamp_field_exec(settings.shadow.offset_y),
        shadow_opacity: op,
    }
}

/// Whether the corner-radius mask removes pixel `(x, y)` of a `w` by `h`
/// rectangle: the pixel lies in one of the four corner squares of side
/// `cr` and outside that corner's quarter circle.
pub open spec fn corner_cut(w: int, h: int, cr: int, x: int, y: int) -> bool {
    let dl = cr - x;
    let dr = x - (w - 1 - cr);
    let dt = cr - y;
    let db = y - (h - 1 - cr);
    ||| (dl > 0 && dt > 0 && dl * dl + dt * dt > cr * cr)
    ||| (dr > 0 && dt > 0 && dr * dr + dt * dt > cr * cr)
    ||| (dl > 0 && db > 0 && dl * dl + db * db > cr * cr)
    ||| (dr > 0 && db > 0 && dr * dr + db * db > cr * cr)
}

/// With radius zero no pixel of the rectangle is cut.
pub proof fn lemma_corner_cut_zero(w: int, h: int, x: int, y: int)
    requires
        0 <= x < w,
        0 <= y < h,
    ensures
        !corner_cut(w, h, 0, x, y),
{
}

/// Decides [`corner_cut`] for one pixel.
fn corner_cut_at(w: usize, h: usize, cr: usize, x: usize, y: usize) -> (r: bool)
    requires
        2 * cr <= w,
        2 * cr <= h,
        x < w,
        y < h,
        w * h <= usize::MAX,
    ensures
        r == corner_cut(w as int, h as int, cr as int, x as int, y as int),
{
    proof {
        assert(cr * cr <= 0x4000_0000_0000_0000_0000_0000_0000_0000int) by (nonlinear_arith)
            requires
                2 * cr <= w,
                2 * cr <= h,
                w * h <= usize::MAX,
                usize::MAX <= 0xFFFF_FFFF_FFFF_FFFFu64,
        ;
    }
    let wc = w as u128;
    let hc = h as u128;
    let crc = cr as u128;
    let xc = x as u128;
    let yc = y as u128;
    let rr = crc * crc;
    let mut cut = false;
    if xc < crc && yc < crc {
        let dl = crc - xc;
        let dt = crc - yc;
        proof {
            lemma_square_le(dl as int, crc as int);
            lemma_square_le(dt as int, crc as int);
        }
        if dl * dl + dt * dt > rr {
            cut = true;
        }
    }
    if !cut && xc + crc >= wc && yc < crc {
        let dr = xc - (wc - 1 - crc);
        let dt = crc - yc;
        proof {
            lemma_square_le(dr as int, crc as int);
            lemma_square_le(dt as int, crc as int);
        }
        if dr > 0 && dr * dr + dt * dt > rr {
            cut = true;
        }
    }
    if !cut && xc < crc && yc + crc >= hc {
        let db = yc - (hc - 1 - crc);
        let dl = crc - xc;
        proof {
            lemma_square_le(db as int, crc as int);
            lemma_square_le(dl as int, crc as int);
        }
        if db > 0 && dl * dl + db * db > rr {
            cut = true;
        }
    }
    if !cut && xc + crc >= wc && yc + crc >= hc {
        let dr = xc - (wc - 1 - crc);
        let db = yc - (hc - 1 - crc);
        proof {
            lemma_square_le(dr as int, crc as int);
            lemma_square_le(db as int, crc as int);
        }
        if dr > 0 && db > 0 && dr * dr + db * db > rr {
            cut = true;
        }
    }
    cut
}

/// Squaring preserves order on the non-negatives.
proof fn lemma_square_le(d: int, c: int)
    requires
        0 <= d <= c,
    ensures
        d * d <= c * c,
{
    assert(d * d <= c * c) by (nonlinear_arith)
        requires
            0 <= d <= c,
    ;
}

/// The raster with the corner-radius mask applied: cut pixels become fully
/// transparent, every other pixel is unchanged.
pub open spec fn mask_seq(s: Seq<Pixel>, w: int, h: int, cr: int) -> Seq<Pixel> {
    Seq::new(
        (w * h) as nat,
        |k: int|
            if corner_cut(w, h, cr, k % w, k / w) {
                Pixel { r: 0, g: 0, b: 0, a: 0 }
            } else {
                s[k]
            },
    )
}

/// Applies the corner-radius mask to the raster.
fn mask_corners(img: &Image, cr: usize) -> (out: Image)
    requires
        img.wf(),
        2 * cr <= img.width,
        2 * cr <= img.height,
    ensures
        out.wf(),
        out.width == img.width,
        out.height == img.height,
        out.pixels@ =~= mask_seq(img.pixels@, img.width as int, img.height as int, cr as int),
{
    let w = img.width;
    let h = img.height;
    let ghost target = mask_seq(img.pixels@, w as int, h as int, cr as int);
    let n = img.pixels.len();
    assert(n == w * h);
    let mut pixels: Vec<Pixel> = Vec::new();
    let mut j: usize = 0;
    while j < h
        invariant
            img.wf(),
            w == img.width,
            h == img.height,
            2 * cr <= w,
            2 * cr <= h,
            w * h <= usize::MAX,
            j <= h,
            target == mask_seq(img.pixels@, w as int, h as int, cr as int),
            pixels@.len() == j * w,
            j * w <= w * h,
            forall|k: int| 0 <= k < j * w ==> pixels@[k] == target[k],
        decreases h - j,
    {
        let mut i: usize = 0;
        proof {
            assert((j + 1) * w == j * w + w) by (nonlinear_arith);
            assert((j + 1) * w <= w * h) by (nonlinear_arith)
                requires
                    j + 1 <= h,
                    0 <= w,
            ;
        }
        while i < w
            invariant
                img.wf(),
                w == img.width,
                h == img.height,
                2 * cr <= w,
                2 * cr <= h,
                w * h <= usize::MAX,
                j < h,
                i <= w,
                j * w + w <= w * h,
                target == mask_seq(img.pixels@, w as int, h as int, cr as int),
                pixels@.len() == j * w + i,
                forall|k: int| 0 <= k < j * w + i ==> pixels@[k] == target[k],
            decreases w - i,
        {
            let cut = corner_cut_at(w, h, cr, i, j);
            let px = if cut {
                Pixel { r: 0, g: 0, b: 0, a: 0 }
            } else {
                img.get(i, j)
            };
            proof {
                let k = j * w + i;
                assert(k / (w as int) == j && k % (w as int) == i) by (nonlinear_arith)
                    requires
                        w > 0,
                        0 <= i < w,
                        0 <= j,
                        k == j * w + i,
                ;
                assert(target[k] == (if corner_cut(w as int, h as int, cr as int, i as int, j as int) {
                    Pixel { r: 0, g: 0, b: 0, a: 0 }
                } else {
                    img.pixels@[k]
                }));
            }
            pixels.push(px);
            i = i + 1;
        }
        j = j + 1;
    }
    assert(pixels@.len() == w * h) by (nonlinear_arith)
        requires
            pixels@.len() == h * w,
    ;
    let out = Image { width: w, height: h, pixels };
    out
}

/// The canvas pixel of a background at row `y` of `h` rows: transparent,
/// the solid color, or the gradient value interpolated top to bottom.
pub open spec fn bg_pixel(bg: Background, y: int, h: int) -> Pixel {
    match bg {
        Background::Transparent => Pixel { r: 0, g: 0, b: 0, a: 0 },
        Background::Solid(c) => c,
        Background::VerticalGradient(top, bottom) => {
            if h <= 1 {
                top
            } else {
                Pixel {
                    r: ((top.r * (h - 1 - y) + bottom.r * y) / (h - 1)) as u8,
                    g: ((top.g * (h - 1 - y) + bottom.g * y) / (h - 1)) as u8,
                    b: ((top.b * (h - 1 - y) + bottom.b * y) / (h - 1)) as u8,
                    a: ((top.a * (h - 1 - y) + bottom.a * y) / (h - 1)) as u8,
                }
            }
        },
    }
}

/// The full canvas of a background, row-major.
pub open spec fn canvas_seq(w: int, h: int, bg: Background) -> Seq<Pixel> {
    Seq::new((w * h) as nat, |k: int| bg_pixel(bg, k / w, h))
}

/// One channel of an integer linear interpolation: the weighted mean of
/// `a` and `b` with weights `num_a` and `num_b`, rounded down.
fn lerp_channel(a: u8, b: u8, num_a: u64, num_b: u64) -> (r: u8)
    requires
        num_a + num_b > 0,
    ensures
        r == (a * num_a + b * num_b) / (num_a + num_b),
{
    let ghost ai = a as int;
    let ghost bi = b as int;
    let ghost ni = num_a as int;
    let ghost mi = num_b as int;
    proof {
        assert(ai * ni <= 255 * ni) by (nonlinear_arith)
            requires
                0 <= ai <= 255,
                0 <= ni,
        ;
        assert(bi * mi <= 255 * mi) by (nonlinear_arith)
            requires
                0 <= bi <= 255,
                0 <= mi,
        ;
        assert(0 <= ai * ni) by (nonlinear_arith)
            requires
                0 <= ai,
                0 <= ni,
        ;
        assert(0 <= bi * mi) by (nonlinear_arith)
            requires
                0 <= bi,
                0 <= mi,
        ;
        assert(255 * ni + 255 * mi == 255 * (ni + mi)) by (nonlinear_arith);
        assert((ai * ni + bi * mi) / (ni + mi) <= (255 * (ni + mi)) / (ni + mi)) by (
        nonlinear_arith)
            requires
                ni + mi > 0,
                ai * ni + bi * mi <= 255 * (ni + mi),
        ;
        assert((255 * (ni + mi)) / (ni + mi) == 255) by (nonlinear_arith)
            requires
                ni + mi > 0,
        ;
    }
    ((a as u128 * num_a as u128 + b as u128 * num_b as u128) / (num_a as u128 + num_b as u128))
        as u8
}

/// Computes the canvas pixel for row `y`.
fn bg_pixel_at(bg: Background, y: usize, h: usize) -> (p: Pixel)
    requires
        y < h,
        h <= u64::MAX,
    ensures
        p == bg_pixel(bg, y as int, h as int),
{
    match bg {
        Background::Transparent => Pixel { r: 0, g: 0, b: 0, a: 0 },
        Background::Solid(c) => c,
        Background::VerticalGradient(top, bottom) => {
            if h <= 1 {
                top
            } else {
                let hy = (h - 1 - y) as u64;
                let yy = y as u64;
                Pixel {
                    r: lerp_channel(top.r, bottom.r, hy, yy),
                    g: lerp_channel(top.g, bottom.g, hy, yy),
                    b: lerp_channel(top.b, bottom.b, hy, yy),
                    a: lerp_channel(top.a, bottom.a, hy, yy),
                }
            }
        },
    }
}

/// Builds the background canvas.
fn make_canvas(w: usize, h: usize, bg: Background) -> (out: Image)
    requires
        w * h <= usize::MAX,
    ensures
        out.wf(),
        out.width == w,
        out.height == h,
        out.pixels@ =~= canvas_seq(w as int, h as int, bg),
{
    let ghost target = canvas_seq(w as int, h as int, bg);
    let mut pixels: Vec<Pixel> = Vec::new();
    let mut j: usize = 0;
    while j < h
        invariant
            w * h <= usize::MAX,
            j <= h,
            target == canvas_seq(w as int, h as int, bg),
            pixels@.len() == j * w,
            forall|k: int| 0 <= k < j * w ==> pixels@[k] == target[k],
        decreases h - j,
    {
        let row = bg_pixel_at(bg, j, h);
        let mut i: usize = 0;
        proof {
            assert((j + 1) * w == j * w + w) by (nonlinear_arith);
            assert((j + 1) * w <= w * h) by (nonlinear_arith)
                requires
                    j + 1 <= h,
                    0 <= w,
            ;
        }
        while i < w
            invariant
                w * h <= usize::MAX,
                j < h,
                i <= w,
                j * w + w <= w * h,
                row == bg_pixel(bg, j as int, h as int),
                target == canvas_seq(w as int, h as int, bg),
                pixels@.len() == j * w + i,
                forall|k: int| 0 <= k < j * w + i ==> pixels@[k] == target[k],
            decreases w - i,
        {
            proof {
                let k = j * w + i;
                assert(k / (w as int) == j) by (nonlinear_arith)
                    requires
                        w > 0,
                        0 <= i < w,
                        0 <= j,
                        k == j * w + i,
                ;
            }
            pixels.push(row);
            i = i + 1;
        }
        j = j + 1;
    }
    assert(pixels@.len() == w * h) by (nonlinear_arith)
        requires
            pixels@.len() == h * w,
    ;
    let out = Image { width: w, height: h, pixels };
    out
}

/// Source-over blending of one pixel, straight alpha, integer arithmetic.
///
/// Copying onto a fully transparent destination keeps the source pixel
/// bit for bit, so placing content on an unfilled canvas is exact.
pub open spec fn blend_px(dst: Pixel, src: Pixel) -> Pixel {
    if dst.a == 0 {
        src
    } else if src.a == 255 {
        src
    } else if src.a == 0 {
        dst
    } else {
        let sa = src.a as int;
        Pixel {
            r: ((src.r * sa + dst.r * (255 - sa)) / 255) as u8,
            g: ((src.g * sa + dst.g * (255 - sa)) / 255) as u8,
            b: ((src.b * sa + dst.b * (255 - sa)) / 255) as u8,
            a: (sa + dst.a * (255 - sa) / 255) as u8,
        }
    }
}

/// Computes [`blend_px`] for one pixel pair.
fn blend_one(dst: Pixel, src: Pixel) -> (r: Pixel)
    ensures
        r == blend_px(dst, src),
{
    if dst.a == 0 {
        src
    } else if src.a == 255 {
        src
    } else if src.a == 0 {
        dst
    } else {
        let sa = src.a as u32;
        let ghost sai = sa as int;
        proof {
            lemma_blend_channel(src.r as int, dst.r as int, sai);
            lemma_blend_channel(src.g as int, dst.g as int, sai);
            lemma_blend_channel(src.b as int, dst.b as int, sai);
            lemma_blend_alpha(dst.a as int, sai);
        }
        let r = (src.r as u32 * sa + dst.r as u32 * (255 - sa)) / 255;
        let g = (src.g as u32 * sa + dst.g as u32 * (255 - sa)) / 255;
        let b = (src.b as u32 * sa + dst.b as u32 * (255 - sa)) / 255;
        let a = sa + dst.a as u32 * (255 - sa) / 255;
        Pixel { r: r as u8, g: g as u8, b: b as u8, a: a as u8 }
    }
}

/// The weighted mean of two channels stays within one byte.
proof fn lemma_blend_channel(c1: int, c2: int, sa: int)
    requires
        0 <= c1 <= 255,
        0 <= c2 <= 255,
        0 <= sa <= 255,
    ensures
        0 <= c1 * sa <= 255 * 255,
        0 <= c2 * (255 - sa) <= 255 * 255,
        0 <= c1 * sa + c2 * (255 - sa) <= 255 * 255,
        0 <= (c1 * sa + c2 * (255 - sa)) / 255 <= 255,
{
    assert(c1 * sa <= 255 * sa && 0 <= c1 * sa) by (nonlinear_arith)
        requires
            0 <= c1 <= 255,
            0 <= sa,
    ;
    assert(c2 * (255 - sa) <= 255 * (255 - sa) && 0 <= c2 * (255 - sa)) by (nonlinear_arith)
        requires
            0 <= c2 <= 255,
            sa <= 255,
    ;
    assert(255 * sa + 255 * (255 - sa) == 255 * 255) by (nonlinear_arith);
}

/// The blended alpha stays within one byte.
proof fn lemma_blend_alpha(da: int, sa: int)
    requires
        0 <= da <= 255,
        0 <= sa <= 255,
    ensures
        0 <= da * (255 - sa) <= 255 * 255,
        0 <= sa + da * (255 - sa) / 255 <= 255,
{
    assert(0 <= da * (255 - sa) <= 255 * (255 - sa)) by (nonlinear_arith)
        requires
            0 <= da <= 255,
            0 <= sa <= 255,
    ;
    assert(255 * (255 - sa) / 255 == 255 - sa);
    assert(da * (255 - sa) / 255 <= 255 * (255 - sa) / 255) by (nonlinear_arith)
        requires
            0 <= da * (255 - sa) <= 255 * (255 - sa),
    ;
}

/// Pixelwise source-over blend of two equally sized buffers.
pub open spec fn blend_seq(dst: Seq<Pixel>, src: Seq<Pixel>) -> Seq<Pixel> {
    Seq::new(dst.len(), |k: int| blend_px(dst[k], src[k]))
}

/// Blends `src` over `dst`, pixel by pixel.
fn blend_images(dst: &Image, src: &Image) -> (out: Image)
    requires
        dst.wf(),
        src.wf(),
        dst.width == src.width,
        dst.height == src.height,
    ensures
        out.wf(),
        out.width == dst.width,
        out.height == dst.height,
        out.pixels@ =~= blend_seq(dst.pixels@, src.pixels@),
{
    let n = dst.pixels.len();
    assert(src.pixels@.len() == n);
    let mut pixels: Vec<Pixel> = Vec::new();
    let mut k: usize = 0;
    while k < n
        invariant
            n == dst.pixels@.len(),
            n == src.pixels@.len(),
            k <= n,
            pixels@.len() == k,
            forall|t: int| 0 <= t < k ==> pixels@[t] == blend_px(dst.pixels@[t], src.pixels@[t]),
        decreases n - k,
    {
        let px = blend_one(dst.pixels[k], src.pixels[k]);
        pixels.push(px);
        k = k + 1;
    }
    let out = Image { width: dst.width, height: dst.height, pixels };
    out
}

/// Whether canvas pixel `(x, y)` lies inside the shadow silhouette: the
/// rounded rectangle of the content's size, placed at `(rx, ry)`.
pub open spec fn in_silhouette(
    x: int,
    y: int,
    rx: int,
    ry: int,
    w: int,
    h: int,
    cr: int,
) -> bool {
    &&& rx <= x < rx + w
    &&& ry <= y < ry + h
    &&& !corner_cut(w, h, cr, x - rx, y - ry)
}

/// The shadow layer: black at the configured opacity inside the offset
/// silhouette, transparent elsewhere.
pub open spec fn shadow_seq(
    cw: int,
    ch: int,
    rx: int,
    ry: int,
    w: int,
    h: int,
    cr: int,
    opacity: u8,
) -> Seq<Pixel> {
    Seq::new(
        (cw * ch) as nat,
        |k: int|
            if in_silhouette(k % cw, k / cw, rx, ry, w, h, cr) {
                Pixel { r: 0, g: 0, b: 0, a: opacity }
            } else {
                Pixel { r: 0, g: 0, b: 0, a: 0 }
            },
    )
}

/// Draws the unblurred shadow layer for a content rectangle of size
/// `w` by `h` placed at `(rx, ry)` on a `cw` by `ch` canvas.
fn shadow_layer(
    cw: usize,
    ch: usize,
    rx: usize,
    ry: usize,
    w: usize,
    h: usize,
    cr: usize,
    opacity: u8,
) -> (out: Image)
    requires
        cw * ch <= usize::MAX,
        2 * cr <= w,
        2 * cr <= h,
        w * h <= usize::MAX,
    ensures
        out.wf(),
        out.width == cw,
        out.height == ch,
        out.pixels@ =~= shadow_seq(
            cw as int,
            ch as int,
            rx as int,
            ry as int,
            w as int,
            h as int,
            cr as int,
            opacity,
        ),
{
    let ghost target = shadow_seq(
        cw as int,
        ch as int,
        rx as int,
        ry as int,
        w as int,
        h as int,
        cr as int,
        opacity,
    );
    let mut pixels: Vec<Pixel> = Vec::new();
    let mut j: usize = 0;
    while j < ch
        invariant
            cw * ch <= usize::MAX,
            2 * cr <= w,
            2 * cr <= h,
            w * h <= usize::MAX,
            j <= ch,
            target == shadow_seq(
                cw as int,
                ch as int,
                rx as int,
                ry as int,
                w as int,
                h as int,
                cr as int,
                opacity,
            ),
            pixels@.len() == j * cw,
            forall|k: int| 0 <= k < j * cw ==> pixels@[k] == target[k],
        decreases ch - j,
    {
        let mut i: usize = 0;
        proof {
            assert((j + 1) * cw == j * cw + cw) by (nonlinear_arith);
            assert((j + 1) * cw <= cw * ch) by (nonlinear_arith)
                requires
                    j + 1 <= ch,
                    0 <= cw,
            ;
        }
        while i < cw
            invariant
                cw * ch <= usize::MAX,
                2 * cr <= w,
                2 * cr <= h,
                w * h <= usize::MAX,
                j < ch,
                i <= cw,
                j * cw + cw <= cw * ch,
                target == shadow_seq(
                    cw as int,
                    ch as int,
                    rx as int,
                    ry as int,
                    w as int,
                    h as int,
                    cr as int,
                    opacity,
                ),
                pixels@.len() == j * cw + i,
                forall|k: int| 0 <= k < j * cw + i ==> pixels@[k] == target[k],
            decreases cw - i,
        {
            let inside_rect = i >= rx && i - rx < w && j >= ry && j - ry < h;
            let px = if inside_rect {
                if !corner_cut_at(w, h, cr, i - rx, j - ry) {
                    Pixel { r: 0, g: 0, b: 0, a: opacity }
                } else {
                    Pixel { r: 0, g: 0, b: 0, a: 0 }
                }
            } else {
                Pixel { r: 0, g: 0, b: 0, a: 0 }
            };
            proof {
                let k = j * cw + i;
                assert(k / (cw as int) == j && k % (cw as int) == i) by (nonlinear_arith)
                    requires
                        cw > 0,
                        0 <= i < cw,
                        0 <= j,
                        k == j * cw + i,
                ;
                assert(inside_rect == (rx <= i < rx + w && ry <= j < ry + h));
            }
            pixels.push(px);
            i = i + 1;
        }
        j = j + 1;
    }
    assert(pixels@.len() == cw * ch) by (nonlinear_arith)
        requires
            pixels@.len() == ch * cw,
    ;
    let out = Image { width: cw, height: ch, pixels };
    out
}

/// The canvas with the content placed at `(p, p)`: inside the content
/// rectangle the content is blended over the canvas, elsewhere the canvas
/// shows through.
pub open spec fn overlay_seq(
    canvas: Seq<Pixel>,
    cw: int,
    ch: int,
    content: Seq<Pixel>,
    w: int,
    h: int,
    p: int,
) -> Seq<Pixel> {
    Seq::new(
        (cw * ch) as nat,
        |k: int|
            {
                let x = k % cw;
                let y = k / cw;
                if p <= x < p + w && p <= y < p + h {
                    blend_px(canvas[k], content[(y - p) * w + (x - p)])
                } else {
                    canvas[k]
                }
            },
    )
}

/// Places `content` on `canvas` at offset `(p, p)` and flattens.
fn overlay(canvas: &Image, content: &Image, p: usize) -> (out: Image)
    requires
        canvas.wf(),
        content.wf(),
        p + content.width <= canvas.width,
        p + content.height <= canvas.height,
    ensures
        out.wf(),
        out.width == canvas.width,
        out.height == canvas.height,
        out.pixels@ =~= overlay_seq(
            canvas.pixels@,
            canvas.width as int,
            canvas.height as int,
            content.pixels@,
            content.width as int,
            content.height as int,
            p as int,
        ),
{
    let cw = canvas.width;
    let ch = canvas.height;
    let w = content.width;
    let h = content.height;
    let ghost target = overlay_seq(
        canvas.pixels@,
        cw as int,
        ch as int,
        content.pixels@,
        w as int,
        h as int,
        p as int,
    );
    let n = canvas.pixels.len();
    assert(n == cw * ch);
    let mut pixels: Vec<Pixel> = Vec::new();
    let mut j: usize = 0;
    while j < ch
        invariant
            canvas.wf(),
            content.wf(),
            cw == canvas.width,
            ch == canvas.height,
            w == content.width,
            h == content.height,
            p + w <= cw,
            p + h <= ch,
            cw * ch <= usize::MAX,
            j <= ch,
            target == overlay_seq(
                canvas.pixels@,
                cw as int,
                ch as int,
                content.pixels@,
                w as int,
                h as int,
                p as int,
            ),
            pixels@.len() == j * cw,
            forall|k: int| 0 <= k < j * cw ==> pixels@[k] == target[k],
        decreases ch - j,
    {
        let mut i: usize = 0;
        proof {
            assert((j + 1) * cw == j * cw + cw) by (nonlinear_arith);
            assert((j + 1) * cw <= cw * ch) by (nonlinear_arith)
                requires
                    j + 1 <= ch,
                    0 <= cw,
            ;
        }
        while i < cw
            invariant
                canvas.wf(),
                content.wf(),
                cw == canvas.width,
                ch == canvas.height,
                w == content.width,
                h == content.height,
                p + w <= cw,
                p + h <= ch,
                cw * ch <= usize::MAX,
                j < ch,
                i <= cw,
                j * cw + cw <= cw * ch,
                target == overlay_seq(
                    canvas.pixels@,
                    cw as int,
                    ch as int,
                    content.pixels@,
                    w as int,
                    h as int,
                    p as int,
                ),
                pixels@.len() == j * cw + i,
                forall|k: int| 0 <= k < j * cw + i ==> pixels@[k] == target[k],
            decreases cw - i,
        {
            let base = canvas.get(i, j);
            let inside = i >= p && i - p < w && j >= p && j - p < h;
            let px = if inside {
                let cpx = content.get(i - p, j - p);
                blend_one(base, cpx)
            } else {
                base
            };
            proof {
                let k = j * cw + i;
                assert(k / (cw as int) == j && k % (cw as int) == i) by (nonlinear_arith)
                    requires
                        cw > 0,
                        0 <= i < cw,
                        0 <= j,
                        k == j * cw + i,
                ;
                assert(inside == (p <= i < p + w && p <= j < p + h));
                if inside {
                    assert(content.pix(i - p, j - p) == content.pixels@[(j - p) * w + (i - p)]);
                }
            }
            pixels.push(px);
            i = i + 1;
        }
        j = j + 1;
    }
    assert(pixels@.len() == cw * ch) by (nonlinear_arith)
        requires
            pixels@.len() == ch * cw,
    ;
    let out = Image { width: cw, height: ch, pixels };
    out
}

/// The corner radius actually applied: the configured radius capped at
/// half the content's smaller side, beyond which a radius has no meaning.
pub open spec fn eff_corner(cr: int, w: int, h: int) -> int {
    let m = if w / 2 <= h / 2 {
        w / 2
    } else {
        h / 2
    };
    if cr <= m {
        cr
    } else {
        m
    }
}

/// The full composition, as one function of the source pixels and the
/// validated settings: blur the content, mask its corners, lay it over
/// the background canvas — with the blurred drop shadow behind it — at
/// the padding offset.
pub open spec fn spec_render(src: Seq<Pixel>, w: int, h: int, e: EffectiveSettings) -> Seq<Pixel> {
    let cr = eff_corner(e.corner_radius as int, w, h);
    let c2 = mask_seq(blur_seq(src, w, h, e.blur_radius as int), w, h, cr);
    let cw = w + 2 * e.pad;
    let ch = h + 2 * e.pad;
    let canvas0 = canvas_seq(cw, ch, e.background);
    let canvas1 = if e.shadow_on {
        blend_seq(
            canvas0,
            blur_seq(
                shadow_seq(
                    cw,
                    ch,
                    e.pad + e.shadow_dx,
                    e.pad + e.shadow_dy,
                    w,
                    h,
                    cr,
                    e.shadow_opacity,
                ),
                cw,
                ch,
                e.shadow_blur as int,
            ),
        )
    } else {
        canvas0
    };
    overlay_seq(canvas1, cw, ch, c2, w, h, e.pad as int)
}

/// Composes the effects onto a new raster of the source's size plus the
/// padding on every side. The source raster is never modified.
pub fn render(source: &Image, e: EffectiveSettings) -> (out: Image)
    requires
        source.wf(),
        (source.width + 2 * e.pad) * (source.height + 2 * e.pad) <= usize::MAX,
        source.width + 2 * e.pad <= usize::MAX,
        source.height + 2 * e.pad <= usize::MAX,
        e.pad + e.shadow_dx <= usize::MAX,
        e.pad + e.shadow_dy <= usize::MAX,
    ensures
        out.wf(),
        out.width == source.width + 2 * e.pad,
        out.height == source.height + 2 * e.pad,
        out.pixels@ == spec_render(source.pixels@, source.width as int, source.height as int, e),
{
    let w = source.width;
    let h = source.height;
    let n = source.pixels.len();
    assert(n == w * h);
    let half = if w / 2 <= h / 2 {
        w / 2
    } else {
        h / 2
    };
    let cr = if e.corner_radius <= half {
        e.corner_radius
    } else {
        half
    };
    assert(cr == eff_corner(e.corner_radius as int, w as int, h as int));
    let c1 = blur(source, e.blur_radius);
    let c2 = mask_corners(&c1, cr);
    let cw = w + 2 * e.pad;
    let ch = h + 2 * e.pad;
    let canvas0 = make_canvas(cw, ch, e.background);
    let canvas1 = if e.shadow_on {
        let sl = shadow_layer(cw, ch, e.pad + e.shadow_dx, e.pad + e.shadow_dy, w, h, cr,
            e.shadow_opacity);
        let slb = blur(&sl, e.shadow_blur);
        blend_images(&canvas0, &slb)
    } else {
        canvas0
    };
    let out = overlay(&canvas1, &c2, e.pad);
    out
}

/// Whether a source of this size can be rendered with these settings on
/// this machine: the padded canvas must stay within the address range.
pub fn render_fits(source: &Image, e: EffectiveSettings) -> (r: bool)
    requires
        source.wf(),
    ensures
        r == ((source.width + 2 * e.pad) * (source.height + 2 * e.pad) <= usize::MAX
            && source.width + 2 * e.pad <= usize::MAX && source.height + 2 * e.pad <= usize::MAX
            && e.pad + e.shadow_dx <= usize::MAX && e.pad + e.shadow_dy <= usize::MAX),
{
    let pw = (source.width as u128) + 2 * (e.pad as u128);
    let ph = (source.height as u128) + 2 * (e.pad as u128);
    let m = usize::MAX as u128;
    if pw > m || ph > m {
        return false;
    }
    assert(pw * ph <= 0xFFFF_FFFF_FFFF_FFFFu128 * 0xFFFF_FFFF_FFFF_FFFFu128) by (nonlinear_arith)
        requires
            pw <= 0xFFFF_FFFF_FFFF_FFFFu128,
            ph <= 0xFFFF_FFFF_FFFF_FFFFu128,
    ;
    pw * ph <= m && (e.pad as u128) + (e.shadow_dx as u128) <= m && (e.pad as u128) + (
    e.shadow_dy as u128) <= m
}

/// Renders after checking the machine limits, refusing with
/// [`ShotError::EncodeError`] a canvas that cannot be addressed.
pub fn try_render(source: &Image, settings: RenderSettings) -> (r: Result<Image, ShotError>)
    requires
        source.wf(),
    ensures
        ({
            let e = spec_effective_of(settings);
            &&& r is Ok <==> ((source.width + 2 * e.pad) * (source.height + 2 * e.pad)
                <= usize::MAX && source.width + 2 * e.pad <= usize::MAX && source.height + 2
                * e.pad <= usize::MAX && e.pad + e.shadow_dx <= usize::MAX && e.pad + e.shadow_dy
                <= usize::MAX)
            &&& r is Err ==> r == Err::<Image, ShotError>(ShotError::EncodeError)
            &&& r is Ok ==> r->Ok_0.wf() && r->Ok_0.width == source.width + 2 * e.pad
                && r->Ok_0.height == source.height + 2 * e.pad && r->Ok_0.pixels@ == spec_render(
                source.pixels@,
                source.width as int,
                source.height as int,
                e,
            )
        }),
{
    let e = effective(settings);
    assert(e == spec_effective_of(settings));
    if render_fits(source, e) {
        Ok(render(source, e))
    } else {
        Err(ShotError::EncodeError)
    }
}

/// The validated settings as a value, for speaking about [`try_render`].
pub open spec fn spec_effective_of(settings: RenderSettings) -> EffectiveSettings {
    EffectiveSettings {
        background: settings.background,
        pad: clamp_field(settings.padding) as usize,
        corner_radius: clamp_field(settings.corner_radius) as usize,
        blur_radius: clamp_field(settings.content_blur) as usize,
        shadow_on: settings.shadow.enabled,
        shadow_blur: clamp_field(settings.shadow.blur) as usize,
        shadow_dx: clamp_field(settings.shadow.offset_x) as usize,
        shadow_dy: clamp_field(settings.shadow.offset_y) as usize,
        shadow_opacity: clamp_opacity(settings.shadow.opacity) as u8,
    }
}

/// A horizontal pass with radius zero changes nothing.
proof fn lemma_blur_h_zero(s: Seq<Pixel>, w: int, h: int)
    requires
        s.len() == w * h,
        0 <= w,
        0 <= h,
    ensures
        blur_h_seq(s, w, h, 0) == s,
{
    let t = blur_h_seq(s, w, h, 0);
    assert forall|k: int| 0 <= k < w * h implies t[k] == s[k] by {
        let y = k / w;
        let x = k % w;
        assert(w > 0) by (nonlinear_arith)
            requires
                0 <= k < w * h,
                0 <= h,
        ;
        assert(k == y * w + x && 0 <= x < w && 0 <= y < h) by (nonlinear_arith)
            requires
                w > 0,
                0 <= k < w * h,
                y == k / w,
                x == k % w,
        ;
        assert(row_of(s, w, y)[x] == s[k]);
        lemma_avg_zero(row_of(s, w, y), x);
    }
    assert(t =~= s);
}

/// A vertical pass with radius zero changes nothing.
proof fn lemma_blur_v_zero(s: Seq<Pixel>, w: int, h: int)
    requires
        s.len() == w * h,
        0 <= w,
        0 <= h,
    ensures
        blur_v_seq(s, w, h, 0) == s,
{
    let t = blur_v_seq(s, w, h, 0);
    assert forall|k: int| 0 <= k < w * h implies t[k] == s[k] by {
        let y = k / w;
        let x = k % w;
        assert(w > 0) by (nonlinear_arith)
            requires
                0 <= k < w * h,
                0 <= h,
        ;
        assert(k == y * w + x && 0 <= x < w && 0 <= y < h) by (nonlinear_arith)
            requires
                w > 0,
                0 <= k < w * h,
                y == k / w,
                x == k % w,
        ;
        assert(col_of(s, w, h, x)[y] == s[k]);
        lemma_avg_zero(col_of(s, w, h, x), y);
    }
    assert(t =~= s);
}

/// Blur with radius zero is the identity.
pub proof fn lemma_blur_zero(s: Seq<Pixel>, w: int, h: int)
    requires
        s.len() == w * h,
        0 <= w,
        0 <= h,
    ensures
        blur_seq(s, w, h, 0) == s,
{
    lemma_blur_h_zero(s, w, h);
    lemma_blur_v_zero(s, w, h);
}

/// The corner mask with radius zero is the identity.
pub proof fn lemma_mask_zero(s: Seq<Pixel>, w: int, h: int)
    requires
        s.len() == w * h,
        0 <= w,
        0 <= h,
    ensures
        mask_seq(s, w, h, 0) == s,
{
    let t = mask_seq(s, w, h, 0);
    assert forall|k: int| 0 <= k < w * h implies t[k] == s[k] by {
        let y = k / w;
        let x = k % w;
        assert(w > 0) by (nonlinear_arith)
            requires
                0 <= k < w * h,
                0 <= h,
        ;
        assert(k == y * w + x && 0 <= x < w && 0 <= y < h) by (nonlinear_arith)
            requires
                w > 0,
                0 <= k < w * h,
                y == k / w,
                x == k % w,
        ;
        lemma_corner_cut_zero(w, h, x, y);
    }
    assert(t =~= s);
}

/// Rendering with zero padding, zero corner radius, no shadow, no blur,
/// and no background fill returns the source pixels unchanged: the
/// composition is the identity on neutral settings.
pub proof fn lemma_render_neutral_identity(src: Seq<Pixel>, w: int, h: int, e: EffectiveSettings)
    requires
        src.len() == w * h,
        0 <= w,
        0 <= h,
        e.pad == 0,
        e.corner_radius == 0,
        e.blur_radius == 0,
        !e.shadow_on,
        e.background is Transparent,
    ensures
        spec_render(src, w, h, e) == src,
{
    lemma_blur_zero(src, w, h);
    assert(eff_corner(0, w, h) == 0);
    lemma_mask_zero(src, w, h);
    let canvas = canvas_seq(w, h, Background::Transparent);
    let t = overlay_seq(canvas, w, h, src, w, h, 0);
    assert forall|k: int| 0 <= k < w * h implies t[k] == s_at(src, k) by {
        let y = k / w;
        let x = k % w;
        assert(w > 0) by (nonlinear_arith)
            requires
                0 <= k < w * h,
                0 <= h,
        ;
        assert(k == y * w + x && 0 <= x < w && 0 <= y < h) by (nonlinear_arith)
            requires
                w > 0,
                0 <= k < w * h,
                y == k / w,
                x == k % w,
        ;
        assert(canvas[k] == bg_pixel(Background::Transparent, y, h));
        assert(canvas[k].a == 0);
        assert(t[k] == blend_px(canvas[k], src[y * w + x]));
    }
    assert(t =~= src);
}

/// The pixel at flat index `k`, named so quantified proofs have a stable
/// handle.
pub open spec fn s_at(s: Seq<Pixel>, k: int) -> Pixel {
    s[k]
}

} // verus!
