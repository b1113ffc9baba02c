//! Bitmaps and the two image algorithms of the pipeline: trimming a
//! sprite to the bounding box of its non-transparent pixels, and
//! compositing several trimmed sprites side by side on a common
//! baseline.

use vstd::prelude::*;

verus! {

use crate::pokemon::PokeError;

/// One RGBA pixel.
#[derive(Clone, Copy, PartialEq, Eq, Structural, Debug)]
pub struct Pixel {
    pub r: u8,
    pub g: u8,
    pub b: u8,
    pub a: u8,
}

/// The fully transparent black pixel that fills fresh canvases.
pub open spec fn transparent() -> Pixel {
    Pixel { r: 0, g: 0, b: 0, a: 0 }
}

/// Builds the fully transparent pixel.
fn clear_pixel() -> (p: Pixel)
    ensures
        p == transparent(),
{
    Pixel { r: 0, g: 0, b: 0, a: 0 }
}

/// The pixel of a row-major grid of the given width at `(x, y)`.
pub open spec fn grid_get(p: Seq<Pixel>, w: int, x: int, y: int) -> Pixel {
    p[y * w + x]
}

/// The mathematical value of a bitmap: its dimensions and its row-major
/// pixel grid.
pub struct SpecImage {
    pub width: nat,
    pub height: nat,
    pub pixels: Seq<Pixel>,
}

impl SpecImage {
    /// The grid holds exactly one pixel per coordinate.
    pub open spec fn wf(self) -> bool {
        self.pixels.len() == self.width * self.height
    }

    /// The pixel at `(x, y)`.
    pub open spec fn pix(self, x: int, y: int) -> Pixel {
        grid_get(self.pixels, self.width as int, x, y)
    }
}

/// A decoded bitmap: dimensions and a row-major RGBA pixel grid.
pub struct Bitmap {
    /// The width in pixels.
    pub width: u32,
    /// The height in pixels.
    pub height: u32,
    /// The pixels, row by row, top row first.
    pub pixels: Vec<Pixel>,
}

impl View for Bitmap {
    type V = SpecImage;

    open spec fn view(&self) -> SpecImage {
        SpecImage { width: self.width as nat, height: self.height as nat, pixels: self.pixels@ }
    }
}

/// A row-major index stays inside the grid.
proof fn lemma_grid_index(x: int, y: int, w: int, h: int)
    by (nonlinear_arith)
    requires
        0 <= x < w,
        0 <= y < h,
    ensures
        0 <= y * w,
        y * w + x < w * h,
{
}

/// Two distinct coordinates have distinct row-major indices.
proof fn lemma_grid_index_inj(x1: int, y1: int, x2: int, y2: int, w: int)
    by (nonlinear_arith)
    requires
        0 <= x1 < w,
        0 <= x2 < w,
        0 <= y1,
        0 <= y2,
        y1 * w + x1 == y2 * w + x2,
    ensures
        x1 == x2 && y1 == y2,
{
}

impl Bitmap {
    /// Reads the pixel at `(x, y)`.
    pub fn pixel_at(&self, x: u32, y: u32) -> (p: Pixel)
        requires
            self@.wf(),
            x < self@.width,
            y < self@.height,
        ensures
            p == self@.pix(x as int, y as int),
    {
        let len = self.pixels.len();
        proof {
            lemma_grid_index(x as int, y as int, self@.width as int, self@.height as int);
            assert((y as int) * (self@.width as int) + (x as int) < len);
        }
        self.pixels[(y as usize) * (self.width as usize) + (x as usize)]
    }
}

/// What the image library decodes the given bytes to, if anything: the
/// dimensions and the raw row-major RGBA bytes. The outcome depends on
/// the bytes alone.
pub uninterp spec fn decoded_of(bytes: Seq<u8>) -> Option<(u32, u32, Seq<u8>)>;

/// Relies on `image::load_from_memory` and `image::DynamicImage::to_rgba8`:
/// decoding is a function of the bytes alone, and the raw RGBA buffer
/// holds four bytes per pixel, row-major.
#[verifier::external_body]
fn decode_rgba(bytes: &[u8]) -> (r: Option<(u32, u32, Vec<u8>)>)
    ensures
        (r is Some <==> decoded_of(bytes@) is Some),
        r matches Some(t) ==> (decoded_of(bytes@) == Some((t.0, t.1, t.2@)) && t.2@.len() == 4 * ((
        t.0 as int) * (t.1 as int))),
{
    match image::load_from_memory(bytes) {
        Ok(img) => {
            let buf = img.to_rgba8();
            let w = buf.width();
            let h = buf.height();
            Some((w, h, buf.into_raw()))
        },
        Err(_) => None,
    }
}

/// The pixels a raw RGBA byte buffer holds, four bytes each.
pub open spec fn pixels_of(raw: Seq<u8>) -> Seq<Pixel> {
    Seq::new(
        (raw.len() / 4) as nat,
        |i: int| (Pixel { r: raw[4 * i], g: raw[4 * i + 1], b: raw[4 * i + 2], a: raw[4 * i + 3] }),
    )
}

/// The bitmap a successful decode stands for.
pub open spec fn decoded_image(t: (u32, u32, Seq<u8>)) -> SpecImage {
    SpecImage { width: t.0 as nat, height: t.1 as nat, pixels: pixels_of(t.2) }
}

/// Decodes fetched bytes into a [`Bitmap`], reporting undecodable bytes
/// as [`PokeError::MalformedImageData`].
pub fn decode_sprite(bytes: &[u8]) -> (r: Result<Bitmap, PokeError>)
    ensures
        decoded_of(bytes@) is None ==> r == Err::<Bitmap, PokeError>(PokeError::MalformedImageData),
        decoded_of(bytes@) matches Some(t) ==> (r matches Ok(b) && b@ == decoded_image(t)
            && b@.wf()),
{
    match decode_rgba(bytes) {
        None => Err(PokeError::MalformedImageData),
        Some((w, h, raw)) => {
            let ghost n = (w as int) * (h as int);
            proof {
                assert(raw@.len() == 4 * n);
                assert(n >= 0) by (nonlinear_arith)
                    requires
                        raw@.len() == 4 * n,
                        raw@.len() >= 0,
                ;
                assert((4 * n) / 4 == n) by (nonlinear_arith);
            }
            let total = raw.len() / 4;
            let mut pixels: Vec<Pixel> = Vec::new();
            let mut i: usize = 0;
            while i < total
                invariant
                    total == raw@.len() / 4,
                    4 * total == raw@.len(),
                    raw@.len() <= usize::MAX,
                    i <= total,
                    pixels@.len() == i as int,
                    forall|k: int| 0 <= k < i ==> pixels@[k] == #[trigger] pixels_of(raw@)[k],
                decreases total - i,
            {
                let px = Pixel {
                    r: raw[4 * i],
                    g: raw[4 * i + 1],
                    b: raw[4 * i + 2],
                    a: raw[4 * i + 3],
                };
                proof {
                    assert(pixels_of(raw@)[i as int] == px);
                }
                pixels.push(px);
                i = i + 1;
            }
            proof {
                assert(pixels@ =~= pixels_of(raw@));
            }
            let b = Bitmap { width: w, height: h, pixels };
            proof {
                assert(b@.wf()) by {
                    assert(b@.pixels.len() == n);
                    assert(b@.width * b@.height == n) by (nonlinear_arith)
                        requires
                            b@.width == w as nat,
                            b@.height == h as nat,
                            n == (w as int) * (h as int),
                    ;
                }
            }
            Ok(b)
        },
    }
}

/// Some pixel of column `x` is not fully transparent.
pub open spec fn col_opaque(img: SpecImage, x: int) -> bool {
    exists|y: int| 0 <= y < img.height && #[trigger] img.pix(x, y).a != 0
}

/// Some pixel of row `y` is not fully transparent.
pub open spec fn row_opaque(img: SpecImage, y: int) -> bool {
    exists|x: int| 0 <= x < img.width && #[trigger] img.pix(x, y).a != 0
}

/// Some pixel of the bitmap is not fully transparent.
pub open spec fn has_opaque(img: SpecImage) -> bool {
    exists|x: int, y: int|
        0 <= x < img.width && 0 <= y < img.height && #[trigger] img.pix(x, y).a != 0
}

/// The leftmost column holding an opaque pixel.
pub open spec fn trim_left(img: SpecImage) -> int {
    choose|x: int|
        0 <= x < img.width && #[trigger] col_opaque(img, x) && (forall|x2: int|
            0 <= x2 < x ==> !col_opaque(img, x2))
}

/// The rightmost column holding an opaque pixel.
pub open spec fn trim_right(img: SpecImage) -> int {
    choose|x: int|
        0 <= x < img.width && #[trigger] col_opaque(img, x) && (forall|x2: int|
            x < x2 < img.width ==> !col_opaque(img, x2))
}

/// The topmost row holding an opaque pixel.
pub open spec fn trim_top(img: SpecImage) -> int {
    choose|y: int|
        0 <= y < img.height && #[trigger] row_opaque(img, y) && (forall|y2: int|
            0 <= y2 < y ==> !row_opaque(img, y2))
}

/// The bottom row holding an opaque pixel.
pub open spec fn trim_bottom(img: SpecImage) -> int {
    choose|y: int|
        0 <= y < img.height && #[trigger] row_opaque(img, y) && (forall|y2: int|
            y < y2 < img.height ==> !row_opaque(img, y2))
}

/// `t` is `b` cropped to the tightest bounding box of its opaque
/// pixels. Such a crop always keeps at least one pixel.
pub open spec fn is_trim_of(t: SpecImage, b: SpecImage) -> bool {
    &&& t.wf()
    &&& t.width >= 1
    &&& t.height >= 1
    &&& t.width == trim_right(b) - trim_left(b) + 1
    &&& t.height == trim_bottom(b) - trim_top(b) + 1
    &&& forall|x: int, y: int|
        0 <= x < t.width && 0 <= y < t.height ==> #[trigger] t.pix(x, y) == b.pix(
            trim_left(b) + x,
            trim_top(b) + y,
        )
}

/// What trimming yields: the bounding-box crop, except that a bitmap
/// with no opaque pixel at all is left as it is.
pub open spec fn trims_to(b: SpecImage, t: SpecImage) -> bool {
    if has_opaque(b) {
        is_trim_of(t, b)
    } else {
        t == b
    }
}

/// A column that is opaque, with everything to its left clear, is the
/// unique value of [`trim_left`].
proof fn lemma_trim_left_is(img: SpecImage, x: int)
    requires
        0 <= x < img.width,
        col_opaque(img, x),
        forall|x2: int| 0 <= x2 < x ==> !col_opaque(img, x2),
    ensures
        trim_left(img) == x,
{
    let c = trim_left(img);
    assert(0 <= c < img.width && col_opaque(img, c) && (forall|x2: int|
        0 <= x2 < c ==> !col_opaque(img, x2)));
}

/// A column that is opaque, with everything to its right clear, is the
/// unique value of [`trim_right`].
proof fn lemma_trim_right_is(img: SpecImage, x: int)
    requires
        0 <= x < img.width,
        col_opaque(img, x),
        forall|x2: int| x < x2 < img.width ==> !col_opaque(img, x2),
    ensures
        trim_right(img) == x,
{
    let c = trim_right(img);
    assert(0 <= c < img.width && col_opaque(img, c) && (forall|x2: int|
        c < x2 < img.width ==> !col_opaque(img, x2)));
}

/// A row that is opaque, with everything above it clear, is the unique
/// value of [`trim_top`].
proof fn lemma_trim_top_is(img: SpecImage, y: int)
    requires
        0 <= y < img.height,
        row_opaque(img, y),
        forall|y2: int| 0 <= y2 < y ==> !row_opaque(img, y2),
    ensures
        trim_top(img) == y,
{
    let c = trim_top(img);
    assert(0 <= c < img.height && row_opaque(img, c) && (forall|y2: int|
        0 <= y2 < c ==> !row_opaque(img, y2)));
}

/// A row that is opaque, with everything below it clear, is the unique
/// value of [`trim_bottom`].
proof fn lemma_trim_bottom_is(img: SpecImage, y: int)
    requires
        0 <= y < img.height,
        row_opaque(img, y),
        forall|y2: int| y < y2 < img.height ==> !row_opaque(img, y2),
    ensures
        trim_bottom(img) == y,
{
    let c = trim_bottom(img);
    assert(0 <= c < img.height && row_opaque(img, c) && (forall|y2: int|
        c < y2 < img.height ==> !row_opaque(img, y2)));
}

/// Scans one column for an opaque pixel.
fn col_has_opaque(b: &Bitmap, x: u32) -> (r: bool)
    requires
        b@.wf(),
        x < b@.width,
    ensures
        r == col_opaque(b@, x as int),
{
    let mut y: u32 = 0;
    while y < b.height
        invariant
            b@.wf(),
            x < b@.width,
            y <= b@.height,
            forall|t: int| 0 <= t < y ==> #[trigger] b@.pix(x as int, t).a == 0,
        decreases b@.height - y,
    {
        if b.pixel_at(x, y).a != 0 {
            return true;
        }
        y = y + 1;
    }
    false
}

/// Scans one row for an opaque pixel.
fn row_has_opaque(b: &Bitmap, y: u32) -> (r: bool)
    requires
        b@.wf(),
        y < b@.height,
    ensures
        r == row_opaque(b@, y as int),
{
    let mut x: u32 = 0;
    while x < b.width
        invariant
            b@.wf(),
            y < b@.height,
            x <= b@.width,
            forall|t: int| 0 <= t < x ==> #[trigger] b@.pix(t, y as int).a == 0,
        decreases b@.width - x,
    {
        if b.pixel_at(x, y).a != 0 {
            return true;
        }
        x = x + 1;
    }
    false
}

/// Copies a rectangle of a bitmap into a fresh bitmap.
fn crop(b: &Bitmap, x0: u32, y0: u32, nw: u32, nh: u32) -> (r: Bitmap)
    requires
        b@.wf(),
        x0 + nw <= b@.width,
        y0 + nh <= b@.height,
    ensures
        r@.wf(),
        r@.width == nw,
        r@.height == nh,
        forall|x: int, y: int|
            0 <= x < nw && 0 <= y < nh ==> #[trigger] r@.pix(x, y) == b@.pix(
                x0 + x,
                y0 + y,
            ),
{
    let mut pixels: Vec<Pixel> = Vec::new();
    let mut yy: u32 = 0;
    while yy < nh
        invariant
            b@.wf(),
            x0 + nw <= b@.width,
            y0 + nh <= b@.height,
            yy <= nh,
            pixels@.len() == (yy as int) * (nw as int),
            forall|x: int, y: int|
                0 <= x < nw && 0 <= y < yy ==> #[trigger] grid_get(pixels@, nw as int, x, y)
                    == b@.pix(x0 + x, y0 + y),
        decreases nh - yy,
    {
        let mut xx: u32 = 0;
        while xx < nw
            invariant
                b@.wf(),
                x0 + nw <= b@.width,
                y0 + nh <= b@.height,
                yy < nh,
                xx <= nw,
                pixels@.len() == (yy as int) * (nw as int) + xx as int,
                forall|x: int, y: int|
                    0 <= x < nw && 0 <= y < yy ==> #[trigger] grid_get(pixels@, nw as int, x, y)
                        == b@.pix(x0 + x, y0 + y),
                forall|x: int|
                    0 <= x < xx ==> #[trigger] grid_get(pixels@, nw as int, x, yy as int)
                        == b@.pix(x0 + x, y0 + yy),
            decreases nw - xx,
        {
            let px = b.pixel_at(x0 + xx, y0 + yy);
            let ghost op = pixels@;
            pixels.push(px);
            proof {
                assert(pixels@ == op.push(px));
                assert forall|x: int, y: int|
                    0 <= x < nw && 0 <= y < yy implies #[trigger] grid_get(
                    pixels@,
                    nw as int,
                    x,
                    y,
                ) == b@.pix(x0 + x, y0 + y) by {
                    lemma_grid_index_inj_weak(x, y, yy as int, nw as int);
                    assert(0 <= y * (nw as int) + x < op.len()) by (nonlinear_arith)
                        requires
                            0 <= x < (nw as int),
                            0 <= y,
                            y * (nw as int) + x < (yy as int) * (nw as int),
                            op.len() == (yy as int) * (nw as int) + (xx as int),
                            0 <= (xx as int),
                    ;
                    assert(grid_get(op, nw as int, x, y) == b@.pix(x0 + x, y0 + y));
                }
                assert forall|x: int|
                    0 <= x <= xx implies #[trigger] grid_get(pixels@, nw as int, x, yy as int)
                    == b@.pix(x0 + x, y0 + yy) by {
                    if x < xx {
                        assert(0 <= (yy as int) * (nw as int)) by (nonlinear_arith)
                            requires
                                0 <= (yy as int),
                                0 <= (nw as int),
                        ;
                        assert((yy as int) * (nw as int) + x < op.len());
                        assert(grid_get(op, nw as int, x, yy as int) == b@.pix(x0 + x, y0 + yy));
                    } else {
                        assert((yy as int) * (nw as int) + x == op.len());
                    }
                }
            }
            xx = xx + 1;
        }
        proof {
            assert(((yy + 1) as int) * (nw as int) == (yy as int) * (nw as int) + (nw as int))
                by (nonlinear_arith);
        }
        yy = yy + 1;
    }
    let r = Bitmap { width: nw, height: nh, pixels };
    proof {
        assert(r@.wf()) by {
            assert((nw as int) * (nh as int) == (nh as int) * (nw as int)) by (nonlinear_arith);
        }
    }
    r
}

/// Rows strictly above `yy` index strictly below the row-major start of
/// row `yy`.
proof fn lemma_grid_index_inj_weak(x: int, y: int, yy: int, w: int)
    by (nonlinear_arith)
    requires
        0 <= x < w,
        0 <= y < yy,
    ensures
        y * w + x < yy * w,
{
}

/// Copies a pixel vector.
fn copy_pixels(v: &Vec<Pixel>) -> (r: Vec<Pixel>)
    ensures
        r@ == v@,
{
    let mut r: Vec<Pixel> = Vec::new();
    let mut i: usize = 0;
    while i < v.len()
        invariant
            i <= v@.len(),
            r@ =~= v@.take(i as int),
        decreases v@.len() - i,
    {
        r.push(v[i]);
        assert(r@ =~= v@.take(i + 1));
        i = i + 1;
    }
    assert(r@ =~= v@);
    r
}

/// Remove transparent borders from an image: the result is the crop to
/// the tightest bounding box of the opaque pixels. An image with no
/// opaque pixel at all is returned unchanged.
pub fn trim(b: &Bitmap) -> (r: Bitmap)
    requires
        b@.wf(),
    ensures
        r@.wf(),
        trims_to(b@, r@),
{
    // leftmost opaque column, or the width when there is none
    let mut x0: u32 = 0;
    while x0 < b.width && !col_has_opaque(b, x0)
        invariant
            b@.wf(),
            x0 <= b@.width,
            forall|t: int| 0 <= t < x0 ==> !#[trigger] col_opaque(b@, t),
        decreases b@.width - x0,
    {
        x0 = x0 + 1;
    }
    if x0 == b.width {
        // fully transparent: leave the bitmap as it is
        proof {
            if has_opaque(b@) {
                let (x, y) = choose|x: int, y: int|
                    0 <= x < b@.width && 0 <= y < b@.height && #[trigger] b@.pix(x, y).a != 0;
                assert(col_opaque(b@, x));
            }
        }
        let r = Bitmap { width: b.width, height: b.height, pixels: copy_pixels(&b.pixels) };
        proof {
            assert(r@ =~= b@);
        }
        return r;
    }
    proof {
        assert(col_opaque(b@, x0 as int));
        assert(has_opaque(b@)) by {
            let y = choose|y: int| 0 <= y < b@.height && #[trigger] b@.pix(x0 as int, y).a != 0;
            assert(b@.pix(x0 as int, y).a != 0);
        }
        lemma_trim_left_is(b@, x0 as int);
    }
    // rightmost opaque column
    let mut x1: u32 = b.width - 1;
    while !col_has_opaque(b, x1)
        invariant
            b@.wf(),
            x0 <= x1 < b@.width,
            col_opaque(b@, x0 as int),
            forall|t: int| x1 < t < b@.width ==> !#[trigger] col_opaque(b@, t),
        decreases x1,
    {
        x1 = x1 - 1;
    }
    proof {
        lemma_trim_right_is(b@, x1 as int);
    }
    // topmost opaque row
    let ghost yw = choose|y: int|
        0 <= y < b@.height && #[trigger] b@.pix(x0 as int, y).a != 0;
    proof {
        assert(row_opaque(b@, yw));
    }
    let mut y0: u32 = 0;
    while !row_has_opaque(b, y0)
        invariant
            b@.wf(),
            0 <= yw < b@.height,
            row_opaque(b@, yw),
            y0 <= yw,
            forall|t: int| 0 <= t < y0 ==> !#[trigger] row_opaque(b@, t),
        decreases yw - y0,
    {
        y0 = y0 + 1;
    }
    proof {
        lemma_trim_top_is(b@, y0 as int);
    }
    // bottom opaque row
    let mut y1: u32 = b.height - 1;
    while !row_has_opaque(b, y1)
        invariant
            b@.wf(),
            y0 <= y1 < b@.height,
            row_opaque(b@, y0 as int),
            forall|t: int| y1 < t < b@.height ==> !#[trigger] row_opaque(b@, t),
        decreases y1,
    {
        y1 = y1 - 1;
    }
    proof {
        lemma_trim_bottom_is(b@, y1 as int);
    }
    crop(b, x0, y0, x1 - x0 + 1, y1 - y0 + 1)
}

/// The sum of the sprites' widths, counting one separator column after
/// each sprite.
pub open spec fn widths_plus(s: Seq<SpecImage>) -> int
    decreases s.len(),
{
    if s.len() == 0 {
        0
    } else {
        widths_plus(s.drop_last()) + s.last().width + 1
    }
}

/// The tallest sprite's height.
pub open spec fn max_height(s: Seq<SpecImage>) -> int
    decreases s.len(),
{
    if s.len() == 0 {
        0
    } else {
        let rest = max_height(s.drop_last());
        if s.last().height > rest {
            s.last().height as int
        } else {
            rest
        }
    }
}

/// The composite pixel at `(x, y)` on a canvas of height `hh`: the
/// sprites stand left to right in order, each bottom-aligned, with one
/// transparent separator column between neighbours.
pub open spec fn composite_pix(s: Seq<SpecImage>, x: int, y: int, hh: int) -> Pixel
    decreases s.len(),
{
    if s.len() == 0 {
        transparent()
    } else if x < s[0].width {
        if y >= hh - s[0].height {
            s[0].pix(x, y - (hh - s[0].height))
        } else {
            transparent()
        }
    } else if x == s[0].width {
        transparent()
    } else {
        composite_pix(s.drop_first(), x - s[0].width - 1, y, hh)
    }
}

/// `widths_plus` unfolded at the front instead of the back.
proof fn lemma_widths_plus_front(s: Seq<SpecImage>)
    requires
        s.len() >= 1,
    ensures
        widths_plus(s) == s[0].width + 1 + widths_plus(s.drop_first()),
    decreases s.len(),
{
    if s.len() == 1 {
        assert(s.drop_last() =~= Seq::<SpecImage>::empty());
        assert(s.drop_first() =~= Seq::<SpecImage>::empty());
    } else {
        lemma_widths_plus_front(s.drop_last());
        assert(s.drop_last()[0] == s[0]);
        assert(s.drop_last().drop_first() =~= s.drop_first().drop_last());
        assert(s.drop_first().last() == s.last());
    }
}

/// The separator-padded width sum is never negative.
proof fn lemma_widths_plus_nonneg(s: Seq<SpecImage>)
    ensures
        widths_plus(s) >= s.len(),
    decreases s.len(),
{
    if s.len() > 0 {
        lemma_widths_plus_nonneg(s.drop_last());
    }
}

/// A longer prefix of sprites never takes less width.
proof fn lemma_widths_plus_prefix_le(s: Seq<SpecImage>, j: int)
    requires
        0 <= j <= s.len(),
    ensures
        widths_plus(s.take(j)) <= widths_plus(s),
    decreases s.len() - j,
{
    if j == s.len() {
        assert(s.take(j) =~= s);
    } else {
        assert(s.take(j + 1).drop_last() =~= s.take(j));
        assert(s.take(j + 1).last() == s[j]);
        lemma_widths_plus_prefix_le(s, j + 1);
    }
}

/// Every sprite fits under the tallest height.
proof fn lemma_height_le(s: Seq<SpecImage>, j: int)
    requires
        0 <= j < s.len(),
    ensures
        s[j].height <= max_height(s),
    decreases s.len(),
{
    if j == s.len() - 1 {
    } else {
        assert(s.drop_last()[j] == s[j]);
        lemma_height_le(s.drop_last(), j);
    }
}

/// What the composite shows over the span of sprite `j`: the sprite's
/// own pixels on the common baseline, and transparency above it and in
/// the separator column that follows it.
proof fn lemma_composite_at(s: Seq<SpecImage>, j: int, x: int, y: int, hh: int)
    requires
        0 <= j < s.len(),
        widths_plus(s.take(j)) <= x < widths_plus(s.take(j + 1)),
    ensures
        composite_pix(s, x, y, hh) == ({
            let xo = x - widths_plus(s.take(j));
            if xo < s[j].width {
                if y >= hh - s[j].height {
                    s[j].pix(xo, y - (hh - s[j].height))
                } else {
                    transparent()
                }
            } else {
                transparent()
            }
        }),
    decreases j,
{
    assert(s.take(j + 1).drop_last() =~= s.take(j));
    assert(s.take(j + 1).last() == s[j]);
    if j == 0 {
        assert(s.take(0) =~= Seq::<SpecImage>::empty());
    } else {
        let t = s.drop_first();
        lemma_widths_plus_front(s.take(j));
        lemma_widths_plus_front(s.take(j + 1));
        assert(s.take(j)[0] == s[0]);
        assert(s.take(j + 1)[0] == s[0]);
        assert(s.take(j).drop_first() =~= t.take(j - 1));
        assert(s.take(j + 1).drop_first() =~= t.take(j));
        lemma_widths_plus_nonneg(t.take(j - 1));
        assert(x > s[0].width);
        lemma_composite_at(t, j - 1, x - s[0].width - 1, y, hh);
        assert(t[j - 1] == s[j]);
    }
}

/// Builds an all-transparent canvas grid.
fn blank_canvas(w: u32, h: u32) -> (r: Vec<Pixel>)
    ensures
        r@.len() == (w as int) * (h as int),
        forall|x: int, y: int|
            0 <= x < w && 0 <= y < h ==> #[trigger] grid_get(r@, w as int, x, y) == transparent(),
{
    let mut pixels: Vec<Pixel> = Vec::new();
    let mut yy: u32 = 0;
    while yy < h
        invariant
            yy <= h,
            pixels@.len() == (yy as int) * (w as int),
            forall|x: int, y: int|
                0 <= x < w && 0 <= y < yy ==> #[trigger] grid_get(pixels@, w as int, x, y)
                    == transparent(),
        decreases h - yy,
    {
        let mut xx: u32 = 0;
        while xx < w
            invariant
                yy < h,
                xx <= w,
                pixels@.len() == (yy as int) * (w as int) + xx as int,
                forall|x: int, y: int|
                    0 <= x < w && 0 <= y < yy ==> #[trigger] grid_get(pixels@, w as int, x, y)
                        == transparent(),
                forall|x: int|
                    0 <= x < xx ==> #[trigger] grid_get(pixels@, w as int, x, yy as int)
                        == transparent(),
            decreases w - xx,
        {
            let ghost op = pixels@;
            pixels.push(clear_pixel());
            proof {
                assert forall|x: int, y: int|
                    0 <= x < w && 0 <= y < yy implies #[trigger] grid_get(pixels@, w as int, x, y)
                    == transparent() by {
                    lemma_grid_index_inj_weak(x, y, yy as int, w as int);
                    assert(0 <= y * (w as int) + x < op.len()) by (nonlinear_arith)
                        requires
                            0 <= x < (w as int),
                            0 <= y,
                            y * (w as int) + x < (yy as int) * (w as int),
                            op.len() == (yy as int) * (w as int) + (xx as int),
                            0 <= (xx as int),
                    ;
                    assert(grid_get(op, w as int, x, y) == transparent());
                }
                assert forall|x: int|
                    0 <= x <= xx implies #[trigger] grid_get(pixels@, w as int, x, yy as int)
                    == transparent() by {
                    if x < xx {
                        assert(0 <= (yy as int) * (w as int)) by (nonlinear_arith)
                            requires
                                0 <= (yy as int),
                                0 <= (w as int),
                        ;
                        assert(grid_get(op, w as int, x, yy as int) == transparent());
                    } else {
                        assert((yy as int) * (w as int) + x == op.len());
                    }
                }
            }
            xx = xx + 1;
        }
        proof {
            assert(((yy + 1) as int) * (w as int) == (yy as int) * (w as int) + (w as int))
                by (nonlinear_arith);
        }
        yy = yy + 1;
    }
    pixels
}

/// The sprites the pokemons carry, in order.
pub open spec fn sprites_of(ps: Seq<crate::pokemon::Pokemon>) -> Seq<SpecImage> {
    ps.map_values(|p: crate::pokemon::Pokemon| p.sprite@)
}

/// The state of one sprite's paint area mid-copy: rows before `yy` are
/// fully painted, row `yy` is painted up to column `xx`, and the rest of
/// the canvas at or right of `off` is still transparent.
spec fn painted_pix(
    img: SpecImage,
    off: int,
    ybase: int,
    x: int,
    y: int,
    yy: int,
    xx: int,
) -> Pixel {
    if off <= x < off + img.width && ybase <= y && (y - ybase < yy || (y - ybase == yy && x - off
        < xx)) {
        img.pix(x - off, y - ybase)
    } else {
        transparent()
    }
}

/// Combines several pokemon sprites into one by stitching them
/// horizontally: left to right in order, bottom-aligned on a common
/// baseline, with a one-pixel transparent separator between neighbours.
pub fn combine(pokemons: &[crate::pokemon::Pokemon]) -> (r: Bitmap)
    requires
        pokemons@.len() >= 1,
        forall|i: int| 0 <= i < pokemons@.len() ==> (#[trigger] pokemons@[i].sprite@).wf(),
        widths_plus(sprites_of(pokemons@)) <= u32::MAX,
    ensures
        r@.wf(),
        r@.width == widths_plus(sprites_of(pokemons@)) - 1,
        r@.height == max_height(sprites_of(pokemons@)),
        forall|x: int, y: int|
            0 <= x < r@.width && 0 <= y < r@.height ==> #[trigger] r@.pix(x, y) == composite_pix(
                sprites_of(pokemons@),
                x,
                y,
                r@.height as int,
            ),
{
    let ghost sp = sprites_of(pokemons@);
    proof {
        lemma_widths_plus_nonneg(sp);
        assert(sp.len() == pokemons@.len());
    }
    let n = pokemons.len();
    // measure the canvas
    let mut width: u32 = 0;
    let mut height: u32 = 0;
    let mut j: usize = 0;
    while j < n
        invariant
            n == pokemons@.len(),
            1 <= n,
            sp == sprites_of(pokemons@),
            forall|i: int| 0 <= i < n ==> (#[trigger] pokemons@[i].sprite@).wf(),
            widths_plus(sp) <= u32::MAX,
            j <= n,
            width == widths_plus(sp.take(j as int)),
            height == max_height(sp.take(j as int)),
        decreases n - j,
    {
        proof {
            assert(sp.take(j + 1).drop_last() =~= sp.take(j as int));
            assert(sp.take(j + 1).last() == sp[j as int]);
            assert(sp[j as int] == pokemons@[j as int].sprite@);
            lemma_widths_plus_prefix_le(sp, j + 1);
        }
        let s = &pokemons[j].sprite;
        width = width + s.width + 1;
        if s.height > height {
            height = s.height;
        }
        j = j + 1;
    }
    proof {
        assert(sp.take(n as int) =~= sp);
    }
    let cw = width - 1;
    let mut canvas = blank_canvas(cw, height);
    let clen = canvas.len();
    let mut off: u32 = 0;
    let mut j: usize = 0;
    while j < n
        invariant
            n == pokemons@.len(),
            1 <= n,
            sp == sprites_of(pokemons@),
            forall|i: int| 0 <= i < n ==> (#[trigger] pokemons@[i].sprite@).wf(),
            widths_plus(sp) <= u32::MAX,
            j <= n,
            cw as int == widths_plus(sp) - 1,
            height as int == max_height(sp),
            off as int == widths_plus(sp.take(j as int)),
            off <= cw + 1,
            canvas@.len() == clen,
            clen as int == (cw as int) * (height as int),
            forall|x: int, y: int|
                0 <= x < cw && 0 <= y < height && x < off ==> #[trigger] grid_get(
                    canvas@,
                    cw as int,
                    x,
                    y,
                ) == composite_pix(sp, x, y, height as int),
            forall|x: int, y: int|
                0 <= x < cw && 0 <= y < height && x >= off ==> #[trigger] grid_get(
                    canvas@,
                    cw as int,
                    x,
                    y,
                ) == transparent(),
        decreases n - j,
    {
        let ghost spj = sp[j as int];
        proof {
            assert(sp[j as int] == pokemons@[j as int].sprite@);
            lemma_height_le(sp, j as int);
            assert(sp.take(j + 1).drop_last() =~= sp.take(j as int));
            assert(sp.take(j + 1).last() == sp[j as int]);
            lemma_widths_plus_prefix_le(sp, j + 1);
        }
        let s = &pokemons[j].sprite;
        let wj = s.width;
        let hj = s.height;
        let ybase = height - hj;
        let mut yy: u32 = 0;
        while yy < hj
            invariant
                n == pokemons@.len(),
                j < n,
                sp == sprites_of(pokemons@),
                forall|i: int| 0 <= i < n ==> (#[trigger] pokemons@[i].sprite@).wf(),
                widths_plus(sp) <= u32::MAX,
                spj == sp[j as int],
                spj == pokemons@[j as int].sprite@,
                s@ == spj,
                spj.wf(),
                wj as int == spj.width,
                hj as int == spj.height,
                hj <= height,
                ybase as int == height - hj,
                cw as int == widths_plus(sp) - 1,
                height as int == max_height(sp),
                off as int == widths_plus(sp.take(j as int)),
                (off as int) + (wj as int) + 1 == widths_plus(sp.take(j as int + 1)),
                widths_plus(sp.take(j as int + 1)) <= widths_plus(sp),
                yy <= hj,
                canvas@.len() == clen,
                clen as int == (cw as int) * (height as int),
                forall|x: int, y: int|
                    0 <= x < cw && 0 <= y < height && x < off ==> #[trigger] grid_get(
                        canvas@,
                        cw as int,
                        x,
                        y,
                    ) == composite_pix(sp, x, y, height as int),
                forall|x: int, y: int|
                    0 <= x < cw && 0 <= y < height && x >= off ==> #[trigger] grid_get(
                        canvas@,
                        cw as int,
                        x,
                        y,
                    ) == painted_pix(spj, off as int, ybase as int, x, y, yy as int, 0),
            decreases hj - yy,
        {
            let mut xx: u32 = 0;
            while xx < wj
                invariant
                    n == pokemons@.len(),
                    j < n,
                    sp == sprites_of(pokemons@),
                    forall|i: int| 0 <= i < n ==> (#[trigger] pokemons@[i].sprite@).wf(),
                    spj == sp[j as int],
                    spj == pokemons@[j as int].sprite@,
                    s@ == spj,
                    spj.wf(),
                    wj as int == spj.width,
                    hj as int == spj.height,
                    hj <= height,
                    ybase as int == height - hj,
                    cw as int == widths_plus(sp) - 1,
                    height as int == max_height(sp),
                    off as int == widths_plus(sp.take(j as int)),
                    (off as int) + (wj as int) + 1 == widths_plus(sp.take(j as int + 1)),
                    widths_plus(sp.take(j as int + 1)) <= widths_plus(sp),
                    yy < hj,
                    xx <= wj,
                    canvas@.len() == clen,
                    clen as int == (cw as int) * (height as int),
                    forall|x: int, y: int|
                        0 <= x < cw && 0 <= y < height && x < off ==> #[trigger] grid_get(
                            canvas@,
                            cw as int,
                            x,
                            y,
                        ) == composite_pix(sp, x, y, height as int),
                    forall|x: int, y: int|
                        0 <= x < cw && 0 <= y < height && x >= off ==> #[trigger] grid_get(
                            canvas@,
                            cw as int,
                            x,
                            y,
                        ) == painted_pix(spj, off as int, ybase as int, x, y, yy as int, xx as int),
                decreases wj - xx,
            {
                let px = s.pixel_at(xx, yy);
                let col = off + xx;
                let row = ybase + yy;
                proof {
                    lemma_grid_index(col as int, row as int, cw as int, height as int);
                }
                let idx = (row as usize) * (cw as usize) + (col as usize);
                let ghost oc = canvas@;
                canvas[idx] = px;
                proof {
                    assert(canvas@ == oc.update(idx as int, px));
                    assert forall|x: int, y: int|
                        0 <= x < cw && 0 <= y < height && x < off implies #[trigger] grid_get(
                        canvas@,
                        cw as int,
                        x,
                        y,
                    ) == composite_pix(sp, x, y, height as int) by {
                        lemma_grid_index(x, y, cw as int, height as int);
                        if y * (cw as int) + x == idx {
                            lemma_grid_index_inj(
                                x,
                                y,
                                col as int,
                                row as int,
                                cw as int,
                            );
                            assert(false);
                        }
                        assert(grid_get(oc, cw as int, x, y) == composite_pix(
                            sp,
                            x,
                            y,
                            height as int,
                        ));
                    }
                    assert forall|x: int, y: int|
                        0 <= x < cw && 0 <= y < height && x >= off implies #[trigger] grid_get(
                        canvas@,
                        cw as int,
                        x,
                        y,
                    ) == painted_pix(
                        spj,
                        off as int,
                        ybase as int,
                        x,
                        y,
                        yy as int,
                        xx as int + 1,
                    ) by {
                        lemma_grid_index(x, y, cw as int, height as int);
                        if y * (cw as int) + x == idx {
                            lemma_grid_index_inj(
                                x,
                                y,
                                col as int,
                                row as int,
                                cw as int,
                            );
                            assert(x == col as int && y == row as int);
                            assert(grid_get(canvas@, cw as int, x, y) == px);
                        } else {
                            assert(grid_get(canvas@, cw as int, x, y) == grid_get(
                                oc,
                                cw as int,
                                x,
                                y,
                            ));
                            assert(grid_get(oc, cw as int, x, y) == painted_pix(
                                spj,
                                off as int,
                                ybase as int,
                                x,
                                y,
                                yy as int,
                                xx as int,
                            ));
                            if x == col as int && y == row as int {
                                lemma_grid_index_inj(x, y, col as int, row as int, cw as int);
                            }
                        }
                    }
                }
                xx = xx + 1;
            }
            proof {
                assert forall|x: int, y: int|
                    0 <= x < cw && 0 <= y < height && x >= off implies #[trigger] grid_get(
                    canvas@,
                    cw as int,
                    x,
                    y,
                ) == painted_pix(
                    spj,
                    off as int,
                    ybase as int,
                    x,
                    y,
                    yy as int + 1,
                    0,
                ) by {
                    assert(grid_get(canvas@, cw as int, x, y) == painted_pix(
                        spj,
                        off as int,
                        ybase as int,
                        x,
                        y,
                        yy as int,
                        wj as int,
                    ));
                }
            }
            yy = yy + 1;
        }
        proof {
            assert forall|x: int, y: int|
                0 <= x < cw && 0 <= y < height && x < off as int + wj as int + 1 implies grid_get(
                canvas@,
                cw as int,
                x,
                y,
            ) == composite_pix(sp, x, y, height as int) by {
                if x >= off {
                    lemma_composite_at(sp, j as int, x, y, height as int);
                    assert(grid_get(canvas@, cw as int, x, y) == painted_pix(
                        spj,
                        off as int,
                        ybase as int,
                        x,
                        y,
                        hj as int,
                        0,
                    ));
                }
            }
            assert forall|x: int, y: int|
                0 <= x < cw && 0 <= y < height && x >= off as int + wj as int + 1 implies grid_get(
                canvas@,
                cw as int,
                x,
                y,
            ) == transparent() by {
                assert(grid_get(canvas@, cw as int, x, y) == painted_pix(
                    spj,
                    off as int,
                    ybase as int,
                    x,
                    y,
                    hj as int,
                    0,
                ));
            }
        }
        off = off + wj + 1;
        j = j + 1;
    }
    proof {
        assert(sp.take(n as int) =~= sp);
    }
    let r = Bitmap { width: cw, height, pixels: canvas };
    proof {
        assert(r@.wf()) by {
            assert((cw as int) * (height as int) == (height as int) * (cw as int))
                by (nonlinear_arith);
        }
    }
    r
}

} // verus!
