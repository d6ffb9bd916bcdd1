//! Bitmaps: rectangular grids of 8-bit RGB samples, and the operations of the
//! `image` crate that the raster codec relies on: resampling, laying one
//! image over another, and turning colors to gray.

use vstd::prelude::*;

verus! {

/// Mathematical value of a [`Bitmap`]: its size and its samples, row by row,
/// three per pixel in the order red, green, blue.
pub struct BitmapView {
    pub width: nat,
    pub height: nat,
    pub pixels: Seq<u8>,
}

/// Whether the buffers that printing a `width` x `height` grid takes can be
/// addressed: a canvas as wide as the print head and the scratch space of
/// resampling, of at most 384 pixels by `height` rows at 16 bytes a pixel,
/// within half the address space. On a 64-bit machine every grid qualifies.
pub open spec fn fits_machine(width: nat, height: nat) -> bool {
    height * 12288 <= usize::MAX
}

impl BitmapView {
    /// Whether the samples fill the grid exactly and the grid can be handled.
    pub open spec fn wf(self) -> bool {
        &&& self.width <= u32::MAX
        &&& self.height <= u32::MAX
        &&& self.pixels.len() == 3 * self.width * self.height
        &&& fits_machine(self.width, self.height)
    }

    /// Index of the first sample of the pixel in column `x` of row `y`.
    pub open spec fn offset(self, x: int, y: int) -> int {
        3 * (y * self.width + x)
    }

    /// Whether some sample of row `y` is not fully white.
    pub open spec fn row_has_content(self, y: int) -> bool {
        exists|i: int|
            self.offset(0, y) <= i < self.offset(0, y + 1) && #[trigger] self.pixels[i] != 255
    }

    /// Number of rows from the top down to the last row with content, of the
    /// first `rows` rows; zero if none of them has content.
    pub open spec fn content_rows(self, rows: nat) -> nat
        decreases rows,
    {
        if rows == 0 {
            0
        } else if self.row_has_content(rows - 1) {
            rows
        } else {
            self.content_rows((rows - 1) as nat)
        }
    }
}

/// Number of rows that trimming keeps of `b`: down to the last row with
/// content and ten rows more, as far as `b` has them. The first row counts as
/// the last with content if none has any.
pub open spec fn trimmed_height(b: BitmapView) -> nat {
    let last: nat = if b.content_rows(b.height) == 0 {
        0
    } else {
        (b.content_rows(b.height) - 1) as nat
    };
    if last + 11 <= b.height {
        last + 11
    } else {
        b.height
    }
}

/// `b` without the blank rows at its bottom, but for a margin of ten rows.
pub open spec fn trimmed(b: BitmapView) -> BitmapView {
    top_rows(b, trimmed_height(b))
}

/// A grid of 8-bit RGB samples.
#[derive(Debug, PartialEq, Eq)]
pub struct Bitmap {
    width: u32,
    height: u32,
    pixels: Vec<u8>,
}

impl View for Bitmap {
    type V = BitmapView;

    closed spec fn view(&self) -> BitmapView {
        BitmapView {
            width: self.width as nat,
            height: self.height as nat,
            pixels: self.pixels@,
        }
    }
}

/// A grid of `width` x `height` pixels that all hold `rgb`.
pub open spec fn filled(width: nat, height: nat, rgb: (u8, u8, u8)) -> BitmapView {
    BitmapView {
        width,
        height,
        pixels: Seq::new(
            3 * width * height,
            |i: int|
                if i % 3 == 0 {
                    rgb.0
                } else if i % 3 == 1 {
                    rgb.1
                } else {
                    rgb.2
                },
        ),
    }
}

/// `bottom` with `top` laid over it, the top left corner of `top` at column
/// `x` of row `y`; what sticks out of `bottom` is cut off.
pub open spec fn overlaid(bottom: BitmapView, top: BitmapView, x: int, y: int) -> BitmapView {
    BitmapView {
        width: bottom.width,
        height: bottom.height,
        pixels: Seq::new(
            bottom.pixels.len(),
            |i: int|
                {
                    let column = (i / 3) % (bottom.width as int);
                    let row = (i / 3) / (bottom.width as int);
                    if x <= column < x + top.width && y <= row < y + top.height {
                        top.pixels[top.offset(column - x, row - y) + i % 3]
                    } else {
                        bottom.pixels[i]
                    }
                },
        ),
    }
}

/// The first `height` rows of `b`.
pub open spec fn top_rows(b: BitmapView, height: nat) -> BitmapView {
    BitmapView { width: b.width, height, pixels: b.pixels.take((3 * b.width * height) as int) }
}

/// The filters by which an image can be resampled.
#[derive(Debug, Clone, Copy, PartialEq, Eq)]
pub enum Filter {
    /// Nearest neighbor.
    Nearest,
    /// Linear interpolation.
    Triangle,
    /// Cubic interpolation.
    CatmullRom,
    /// Gaussian.
    Gaussian,
    /// Lanczos with window 3.
    Lanczos3,
}

/// The samples that `image::DynamicImage::resize_exact` gives an RGB image
/// resampled to `nwidth` x `nheight` pixels with the filter `filter`.
pub uninterp spec fn resampled(
    src: BitmapView,
    nwidth: u32,
    nheight: u32,
    filter: Filter,
) -> Seq<u8>;

/// The gray value that `image::DynamicImage::to_luma8` gives a pixel of
/// these samples.
pub uninterp spec fn luma(red: u8, green: u8, blue: u8) -> u8;

/// Whether `b` is black all over.
pub open spec fn is_black(b: BitmapView) -> bool {
    forall|k: int| 0 <= k < b.pixels.len() ==> #[trigger] b.pixels[k] == 0
}

/// `src` resampled to exactly `nwidth` x `nheight` pixels with the filter
/// `filter`. What is black all over stays so.
pub open spec fn resized(src: BitmapView, nwidth: u32, nheight: u32, filter: Filter) -> BitmapView {
    BitmapView {
        width: nwidth as nat,
        height: nheight as nat,
        pixels: Seq::new(
            (3 * nwidth * nheight) as nat,
            |k: int|
                if is_black(src) {
                    0u8
                } else {
                    resampled(src, nwidth, nheight, filter)[k]
                },
        ),
    }
}

/// The gray value of a pixel: that of its samples if they are equal, so that
/// gray stays what it is; else the weighted sum that the `image` crate forms.
pub open spec fn gray_value(red: u8, green: u8, blue: u8) -> u8 {
    if red == green && green == blue {
        red
    } else {
        luma(red, green, blue)
    }
}

/// The gray values of RGB samples, pixel by pixel.
pub open spec fn luma8(rgb: Seq<u8>) -> Seq<u8> {
    Seq::new(rgb.len() / 3, |i: int| gray_value(rgb[3 * i], rgb[3 * i + 1], rgb[3 * i + 2]))
}

proof fn lemma_mul_le(a: int, b: int, c: int)
    requires
        0 <= a <= b,
        0 <= c,
    ensures
        a * c <= b * c,
        c * a <= c * b,
{
    assert(a * c <= b * c) by (nonlinear_arith)
        requires
            0 <= a <= b,
            0 <= c,
    ;
    assert(c * a <= c * b) by (nonlinear_arith)
        requires
            0 <= a <= b,
            0 <= c,
    ;
}

impl Clone for Bitmap {
    fn clone(&self) -> (copy: Bitmap)
        ensures
            copy@ == self@,
    {
        self.duplicate()
    }
}

impl Bitmap {
    #[verifier::type_invariant]
    closed spec fn well_formed(&self) -> bool {
        self@.wf()
    }

    /// The bitmap of `width` x `height` pixels whose samples are `pixels`;
    /// `None` unless `pixels` holds exactly three samples per pixel and the
    /// grid can be handled on this machine.
    pub fn from_raw(width: u32, height: u32, pixels: Vec<u8>) -> (r: Option<Bitmap>)
        ensures
            r is Some <==> (pixels@.len() == 3 * width * height && fits_machine(
                width as nat,
                height as nat,
            )),
            r matches Some(b) ==> b@ == (BitmapView {
                width: width as nat,
                height: height as nat,
                pixels: pixels@,
            }),
    {
        let needed: u128 = sample_count(width, height);
        if pixels.len() as u128 != needed {
            return None;
        }
        if !machine_fits(width, height) {
            return None;
        }
        Some(Bitmap { width, height, pixels })
    }

    /// A bitmap of `width` x `height` pixels that all hold `rgb`; `None` if
    /// the grid cannot be handled on this machine.
    pub fn from_pixel(width: u32, height: u32, rgb: (u8, u8, u8)) -> (r: Option<Bitmap>)
        ensures
            r is Some <==> (3 * width * height <= usize::MAX && fits_machine(
                width as nat,
                height as nat,
            )),
            r matches Some(b) ==> b@ == filled(width as nat, height as nat, rgb),
    {
        let needed: u128 = sample_count(width, height);
        if needed > usize::MAX as u128 || !machine_fits(width, height) {
            return None;
        }
        let count: usize = needed as usize;
        let mut pixels: Vec<u8> = Vec::new();
        let mut i: usize = 0;
        while i < count
            invariant
                i <= count,
                pixels@.len() == i,
                forall|k: int|
                    0 <= k < i ==> #[trigger] pixels@[k] == filled(
                        width as nat,
                        height as nat,
                        rgb,
                    ).pixels[k],
                count == 3 * width * height,
            decreases count - i,
        {
            let sample = if i % 3 == 0 {
                rgb.0
            } else if i % 3 == 1 {
                rgb.1
            } else {
                rgb.2
            };
            pixels.push(sample);
            i += 1;
        }
        assert(pixels@ =~= filled(width as nat, height as nat, rgb).pixels);
        Some(Bitmap { width, height, pixels })
    }

    /// Number of columns.
    pub fn width(&self) -> (w: u32)
        ensures
            w == self@.width,
            self@.wf(),
    {
        proof {
            use_type_invariant(self);
        }
        self.width
    }

    /// Number of rows.
    pub fn height(&self) -> (h: u32)
        ensures
            h == self@.height,
            self@.wf(),
    {
        proof {
            use_type_invariant(self);
        }
        self.height
    }

    /// The samples, row by row.
    pub fn as_raw(&self) -> (samples: &Vec<u8>)
        ensures
            samples@ == self@.pixels,
            self@.wf(),
    {
        proof {
            use_type_invariant(self);
        }
        &self.pixels
    }

    /// The samples, row by row.
    pub fn into_raw(self) -> (samples: Vec<u8>)
        ensures
            samples@ == self@.pixels,
            self@.wf(),
    {
        proof {
            use_type_invariant(&self);
        }
        self.pixels
    }

    /// A copy of this bitmap.
    pub fn duplicate(&self) -> (copy: Bitmap)
        ensures
            copy@ == self@,
    {
        proof {
            use_type_invariant(self);
        }
        let pixels = vstd::slice::slice_to_vec(self.pixels.as_slice());
        Bitmap { width: self.width, height: self.height, pixels }
    }

    /// This bitmap resampled with `filter` to exactly `nwidth` x `nheight`
    /// pixels, which is narrower than the bitmap and no higher than its
    /// proportions give.
    pub(crate) fn resize(&self, nwidth: u32, nheight: u32, filter: Filter) -> (out: Bitmap)
        requires
            0 < nwidth <= 384,
            nwidth < self@.width,
            nheight <= self@.height,
            nheight * self@.width <= nwidth * self@.height,
        ensures
            out@ == resized(self@, nwidth, nheight, filter),
    {
        proof {
            use_type_invariant(self);
        }
        let (width, height, pixels) = image_resize(
            self.width,
            self.height,
            &self.pixels,
            nwidth,
            nheight,
            filter,
        );
        proof {
            assert(pixels@ =~= resized(self@, nwidth, nheight, filter).pixels);
        }
        Bitmap { width, height, pixels }
    }

    /// This bitmap with `top` laid over it at column `x` of row `y`.
    pub(crate) fn overlay(self, top: &Bitmap, x: i64, y: i64) -> (out: Bitmap)
        requires
            0 <= x,
            0 <= y,
        ensures
            out@ == overlaid(self@, top@, x as int, y as int),
    {
        proof {
            use_type_invariant(&self);
            use_type_invariant(top);
        }
        let width = self.width;
        let height = self.height;
        let pixels = image_overlay(
            width,
            height,
            self.pixels,
            top.width,
            top.height,
            &top.pixels,
            x,
            y,
        );
        Bitmap { width, height, pixels }
    }

    /// The gray value of each pixel, row by row.
    pub fn to_luma8(&self) -> (gray: Vec<u8>)
        ensures
            gray@ == luma8(self@.pixels),
            gray@.len() == self@.width * self@.height,
    {
        proof {
            use_type_invariant(self);
        }
        let gray = image_to_luma8(self.width, self.height, &self.pixels);
        proof {
            assert(self.pixels@.len() / 3 == self.width * self.height) by (nonlinear_arith)
                requires
                    self.pixels@.len() == 3 * self.width * self.height,
            ;
            assert(gray@ =~= luma8(self.pixels@));
        }
        gray
    }
}

/// Resamples an RGB image with `image::DynamicImage::resize_exact`.
///
/// Trusted: the result has the width and height asked for and its samples
/// fill its grid; the samples are a function of the arguments. Each sample is
/// a weighted sum of samples of the source, so that a source whose samples
/// are all zero gives a result whose samples are all zero. What is asked for
/// is smaller than the source, which is small enough for the scratch space
/// of the resampling to be addressed.
#[verifier::external_body]
fn image_resize(
    width: u32,
    height: u32,
    pixels: &Vec<u8>,
    nwidth: u32,
    nheight: u32,
    filter: Filter,
) -> (out: (u32, u32, Vec<u8>))
    requires
        pixels@.len() == 3 * width * height,
        fits_machine(width as nat, height as nat),
        0 < nwidth <= 384,
        nwidth < width,
        nheight <= height,
        nheight * width <= nwidth * height,
    ensures
        out.0 == nwidth,
        out.1 == nheight,
        out.2@.len() == 3 * nwidth * nheight,
        (forall|k: int| 0 <= k < pixels@.len() ==> pixels@[k] == 0) ==> forall|k: int|
            0 <= k < out.2@.len() ==> out.2@[k] == 0,
        out.2@ == resampled(
            BitmapView { width: width as nat, height: height as nat, pixels: pixels@ },
            nwidth,
            nheight,
            filter,
        ),
{
    let kernel = match filter {
        Filter::Nearest => image::imageops::FilterType::Nearest,
        Filter::Triangle => image::imageops::FilterType::Triangle,
        Filter::CatmullRom => image::imageops::FilterType::CatmullRom,
        Filter::Gaussian => image::imageops::FilterType::Gaussian,
        Filter::Lanczos3 => image::imageops::FilterType::Lanczos3,
    };
    let source = image::RgbImage::from_raw(width, height, pixels.clone()).unwrap();
    let scaled =
        image::DynamicImage::ImageRgb8(source).resize_exact(nwidth, nheight, kernel).into_rgb8();
    (scaled.width(), scaled.height(), scaled.into_raw())
}

/// Lays one RGB image over another with `image::imageops::overlay`.
///
/// Trusted: each pixel of the result that `top` covers, its top left corner
/// at column `x` of row `y`, holds the sample of `top`, as blending one
/// opaque RGB pixel over another yields the upper one; every other pixel is
/// that of `bottom`.
#[verifier::external_body]
fn image_overlay(
    width: u32,
    height: u32,
    bottom: Vec<u8>,
    top_width: u32,
    top_height: u32,
    top: &Vec<u8>,
    x: i64,
    y: i64,
) -> (out: Vec<u8>)
    requires
        bottom@.len() == 3 * width * height,
        top@.len() == 3 * top_width * top_height,
        0 <= x,
        0 <= y,
    ensures
        out@ == overlaid(
            BitmapView { width: width as nat, height: height as nat, pixels: bottom@ },
            BitmapView { width: top_width as nat, height: top_height as nat, pixels: top@ },
            x as int,
            y as int,
        ).pixels,
{
    let mut under = image::RgbImage::from_raw(width, height, bottom).unwrap();
    let over = image::RgbImage::from_raw(top_width, top_height, top.clone()).unwrap();
    image::imageops::overlay(&mut under, &over, x, y);
    under.into_raw()
}

/// Turns an RGB image to gray with `image::DynamicImage::to_luma8`.
///
/// Trusted: the result holds one value per pixel, which is a function of the
/// three samples of that pixel: their sum, each weighted by its share in the
/// luminance, rounded. The shares are those of the primaries in the
/// luminance of white and add up to one, so that a pixel whose three samples
/// are equal has that sample as its gray value.
#[verifier::external_body]
fn image_to_luma8(width: u32, height: u32, pixels: &Vec<u8>) -> (gray: Vec<u8>)
    requires
        pixels@.len() == 3 * width * height,
    ensures
        gray@.len() == width * height,
        forall|i: int|
            0 <= i < gray@.len() ==> #[trigger] gray@[i] == luma(
                pixels@[3 * i],
                pixels@[3 * i + 1],
                pixels@[3 * i + 2],
            ),
        forall|i: int|
            0 <= i < gray@.len() && pixels@[3 * i] == pixels@[3 * i + 1] && pixels@[3 * i + 1]
                == pixels@[3 * i + 2] ==> #[trigger] gray@[i] == pixels@[3 * i],
{
    let source = image::RgbImage::from_raw(width, height, pixels.clone()).unwrap();
    image::DynamicImage::ImageRgb8(source).to_luma8().into_raw()
}

/// Whether some sample of row `y` of `img` is not fully white.
fn row_has_content(img: &Bitmap, y: u32) -> (b: bool)
    requires
        y < img@.height,
    ensures
        b == img@.row_has_content(y as int),
{
    let samples = img.as_raw();
    let width = img.width();
    let total = samples.len();
    let ghost v = img@;
    let ghost w = width as int;
    let ghost h = v.height as int;
    let ghost yy = y as int;
    proof {
        assert(total == 3 * w * h);
        lemma_mul_le(yy + 1, h, w);
        assert((yy + 1) * w == yy * w + w) by (nonlinear_arith);
        assert(3 * w * h == 3 * (h * w)) by (nonlinear_arith);
        assert(0 <= yy * w) by (nonlinear_arith)
            requires
                0 <= yy,
                0 <= w,
        ;
    }
    let pixel: usize = (y as usize) * (width as usize);
    let row: usize = 3 * pixel;
    let end: usize = row + 3 * (width as usize);
    let mut i: usize = row;
    while i < end
        invariant
            row <= i <= end <= samples@.len(),
            v == img@,
            samples@ == v.pixels,
            row == v.offset(0, y as int),
            end == v.offset(0, y + 1),
            forall|k: int| row <= k < i ==> #[trigger] v.pixels[k] == 255,
        decreases end - i,
    {
        if samples[i] != 255 {
            assert(v.pixels[i as int] != 255);
            return true;
        }
        i += 1;
    }
    false
}

/// `img` without the blank rows at its bottom, but for a margin of ten rows.
///
/// A row is blank if all its samples are fully white.
pub fn trim_image(img: Bitmap) -> (out: Bitmap)
    ensures
        out@ == trimmed(img@),
{
    let width = img.width();
    let height = img.height();
    let ghost v = img@;
    let mut rows: u32 = height;
    while rows > 0 && !row_has_content(&img, rows - 1)
        invariant
            rows <= height,
            height == v.height,
            v == img@,
            v.content_rows(v.height) == v.content_rows(rows as nat),
        decreases rows,
    {
        rows -= 1;
    }
    let last: u32 = if rows == 0 {
        0
    } else {
        rows - 1
    };
    let keep: u32 = if height - last >= 11 {
        last + 11
    } else {
        height
    };
    let mut pixels = img.into_raw();
    let total = pixels.len();
    let ghost w = width as int;
    let ghost h = height as int;
    let ghost k = keep as int;
    proof {
        assert(total == 3 * w * h);
        assert(v.content_rows(rows as nat) == rows);
        assert(keep == trimmed_height(v));
        lemma_mul_le(k, h, w);
        assert(3 * w * h == 3 * (w * h)) by (nonlinear_arith);
        assert(3 * w * k == 3 * (w * k)) by (nonlinear_arith);
        assert(0 <= w * k) by (nonlinear_arith)
            requires
                0 <= w,
                0 <= k,
        ;
    }
    let area: usize = (width as usize) * (keep as usize);
    let count: usize = 3 * area;
    pixels.truncate(count);
    Bitmap { width, height: keep, pixels }
}

/// Number of samples of a `width` x `height` grid.
fn sample_count(width: u32, height: u32) -> (n: u128)
    ensures
        n == 3 * width * height,
{
    let w = width as u128;
    let h = height as u128;
    assert(w * h <= 0xFFFF_FFFF * 0xFFFF_FFFF) by (nonlinear_arith)
        requires
            w <= 0xFFFF_FFFF,
            h <= 0xFFFF_FFFF,
    ;
    let area: u128 = w * h;
    assert(3 * area == 3 * width * height) by (nonlinear_arith)
        requires
            area == width * height,
    ;
    3 * area
}

/// Whether a `width` x `height` grid can be handled on this machine.
pub(crate) fn machine_fits(width: u32, height: u32) -> (b: bool)
    ensures
        b == fits_machine(width as nat, height as nat),
{
    (height as u128) * 12288 <= usize::MAX as u128
}

} // verus!
