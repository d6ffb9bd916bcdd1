//! The raster codec: from a bitmap to the bytes of the printer's raster
//! command.
//!
//! The command is the header `1D 76 30 00`, the number of bytes per row and
//! the number of rows, each as 16 bits with the low byte first, and then the
//! rows from top to bottom, eight pixels per byte, the leftmost pixel in the
//! highest bit. A bit is set where the pixel is to be printed black.

use vstd::prelude::*;
use vstd::arithmetic::div_mod::{
    lemma_div_is_ordered,
    lemma_fundamental_div_mod,
    lemma_fundamental_div_mod_converse,
};
use vstd::arithmetic::mul::lemma_mul_inequality;
use crate::bitmap::{
    filled,
    gray_value,
    is_black,
    luma8,
    overlaid,
    resized,
    Bitmap,
    BitmapView,
    Filter,
};
use crate::types::PRINTER_WIDTH;

verus! {

/// The number that a row of bits denotes, the first bit being the highest.
pub open spec fn bits_value(bits: Seq<bool>) -> nat
    decreases bits.len(),
{
    if bits.len() == 0 {
        0
    } else {
        2 * bits_value(bits.drop_last()) + if bits.last() {
            1nat
        } else {
            0nat
        }
    }
}

/// Whether a pixel of this gray value is printed black.
pub open spec fn ink(gray: u8) -> bool {
    gray < 128
}

/// The gray value in column `x` of row `y` of a grid `width` pixels wide;
/// white to the right of the grid.
pub open spec fn gray_at(width: nat, gray: Seq<u8>, x: int, y: int) -> u8 {
    if x < width {
        gray[y * width + x]
    } else {
        255
    }
}

/// The eight ink bits that byte `column` of row `y` packs.
pub open spec fn ink_bits(width: nat, gray: Seq<u8>, y: int, column: int) -> Seq<bool> {
    Seq::new(8, |bit: int| ink(gray_at(width, gray, 8 * column + bit, y)))
}

/// Number of bytes that a row of `width` pixels packs into.
pub open spec fn bytes_per_row(width: nat) -> nat {
    (width + 7) / 8
}

/// The packed rows of a gray grid.
pub open spec fn raster_data(width: nat, height: nat, gray: Seq<u8>) -> Seq<u8> {
    Seq::new(
        bytes_per_row(width) * height,
        |i: int|
            bits_value(
                ink_bits(
                    width,
                    gray,
                    i / (bytes_per_row(width) as int),
                    i % (bytes_per_row(width) as int),
                ),
            ) as u8,
    )
}

/// Low byte of the 16-bit field that holds `v`.
pub open spec fn low_byte(v: nat) -> u8 {
    (v % 256) as u8
}

/// High byte of the 16-bit field that holds `v`.
pub open spec fn high_byte(v: nat) -> u8 {
    ((v / 256) % 256) as u8
}

/// The eight bytes that open the raster command of a `width` x `height` grid.
pub open spec fn raster_header(width: nat, height: nat) -> Seq<u8> {
    seq![
        0x1Du8,
        0x76u8,
        0x30u8,
        0x00u8,
        low_byte(bytes_per_row(width)),
        high_byte(bytes_per_row(width)),
        low_byte(height),
        high_byte(height),
    ]
}

/// The raster command of a gray grid.
pub open spec fn raster_command(width: nat, height: nat, gray: Seq<u8>) -> Seq<u8> {
    raster_header(width, height) + raster_data(width, height, gray)
}

/// Height of a `width` x `height` image once scaled down to the width of the
/// print head.
pub open spec fn scaled_height(width: nat, height: nat) -> nat {
    height * 384 / width
}

/// Number of rows of the page that prints a `width` x `height` image: those
/// of the image, or of the image scaled down.
pub open spec fn page_height(width: nat, height: nat) -> nat {
    if width <= 384 {
        height
    } else {
        scaled_height(width, height)
    }
}

/// `img` made to fit the print head: scaled down to its width with the
/// Lanczos filter if it is wider, the height scaled in proportion and rounded
/// down.
pub open spec fn scaled(img: BitmapView) -> BitmapView {
    if img.width > 384 {
        resized(img, 384, scaled_height(img.width, img.height) as u32, Filter::Lanczos3)
    } else {
        img
    }
}

/// `img` made as wide as the print head: white is added on its right if it
/// is narrower.
pub open spec fn padded(img: BitmapView) -> BitmapView {
    if img.width < 384 {
        overlaid(filled(384, img.height, (255, 255, 255)), img, 0, 0)
    } else {
        img
    }
}

/// Whether `img` is at least as wide as the print head and black all over.
pub open spec fn is_black_page(img: BitmapView) -> bool {
    img.width >= 384 && is_black(img)
}

/// Whether `img` is no wider than the print head and white all over.
pub open spec fn is_white_image(img: BitmapView) -> bool {
    &&& img.width <= 384
    &&& forall|k: int| 0 <= k < img.pixels.len() ==> #[trigger] img.pixels[k] == 255
}

/// The gray values of the page that prints `img`, 384 to a row.
pub open spec fn page_gray(img: BitmapView) -> Seq<u8> {
    luma8(padded(scaled(img)).pixels)
}

/// The raster command that prints `img`.
pub open spec fn escpos_bytes(img: BitmapView) -> Seq<u8> {
    let page = padded(scaled(img));
    raster_command(page.width, page.height, luma8(page.pixels))
}

/// Number of values that `bits` bits can denote, for at most eight bits.
spec fn weight(bits: int) -> int {
    if bits <= 0 {
        1
    } else if bits == 1 {
        2
    } else if bits == 2 {
        4
    } else if bits == 3 {
        8
    } else if bits == 4 {
        16
    } else if bits == 5 {
        32
    } else if bits == 6 {
        64
    } else if bits == 7 {
        128
    } else {
        256
    }
}

/// The raster command is eight bytes longer than its packed rows.
pub proof fn lemma_raster_length(width: nat, height: nat, gray: Seq<u8>)
    ensures
        raster_command(width, height, gray).len() == 8 + bytes_per_row(width) * height,
        raster_command(width, height, gray).take(8) == raster_header(width, height),
        raster_command(width, height, gray).skip(8) == raster_data(width, height, gray),
{
    let head = raster_header(width, height);
    let data = raster_data(width, height, gray);
    assert((head + data).take(8) =~= head);
    assert((head + data).skip(8) =~= data);
}

proof fn lemma_uniform_bits(bits: Seq<bool>, dark: bool)
    requires
        bits.len() == 8,
        forall|k: int| 0 <= k < 8 ==> bits[k] == dark,
    ensures
        bits_value(bits) == if dark {
            255nat
        } else {
            0nat
        },
{
    reveal_with_fuel(bits_value, 9);
    let b7 = bits.drop_last();
    let b6 = b7.drop_last();
    let b5 = b6.drop_last();
    let b4 = b5.drop_last();
    let b3 = b4.drop_last();
    let b2 = b3.drop_last();
    let b1 = b2.drop_last();
    assert(b7.last() == dark && b6.last() == dark && b5.last() == dark && b4.last() == dark
        && b3.last() == dark && b2.last() == dark && b1.last() == dark && bits.last() == dark);
}

/// A grid that is a whole number of bytes wide and all darker than the
/// middle gray is packed to bytes in which every bit is set.
pub proof fn lemma_dark_grid_is_all_ink(width: nat, height: nat, gray: Seq<u8>, i: int)
    requires
        width % 8 == 0,
        gray.len() == width * height,
        forall|k: int| 0 <= k < gray.len() ==> ink(#[trigger] gray[k]),
        0 <= i < raster_data(width, height, gray).len(),
    ensures
        raster_data(width, height, gray)[i] == 0xFF,
{
    let per_row = bytes_per_row(width) as int;
    let y = i / per_row;
    let column = i % per_row;
    let bits = ink_bits(width, gray, y, column);
    assert(per_row > 0) by {
        if per_row == 0 {
            assert(bytes_per_row(width) * height == 0) by (nonlinear_arith)
                requires
                    bytes_per_row(width) == 0,
            ;
        }
    }
    assert(8 * per_row == width);
    lemma_fundamental_div_mod(i, per_row);
    assert(0 <= y < height) by (nonlinear_arith)
        requires
            0 <= i < per_row * height,
            y == i / per_row,
            per_row > 0,
    ;
    assert(0 <= column < per_row);
    assert forall|k: int| 0 <= k < 8 implies bits[k] == true by {
        let x = 8 * column + k;
        assert(x < width);
        assert(0 <= y * width + x < width * height) by (nonlinear_arith)
            requires
                0 <= y < height,
                0 <= x < width,
        ;
        assert(ink(gray[y * width + x]));
    }
    lemma_uniform_bits(bits, true);
}

/// A grid that is nowhere darker than the middle gray is packed to bytes in
/// which no bit is set.
pub proof fn lemma_light_grid_is_blank(width: nat, height: nat, gray: Seq<u8>, i: int)
    requires
        gray.len() == width * height,
        forall|k: int| 0 <= k < gray.len() ==> !ink(#[trigger] gray[k]),
        0 <= i < raster_data(width, height, gray).len(),
    ensures
        raster_data(width, height, gray)[i] == 0x00,
{
    let per_row = bytes_per_row(width) as int;
    let y = i / per_row;
    let column = i % per_row;
    let bits = ink_bits(width, gray, y, column);
    assert(per_row > 0) by {
        if per_row == 0 {
            assert(bytes_per_row(width) * height == 0) by (nonlinear_arith)
                requires
                    bytes_per_row(width) == 0,
            ;
        }
    }
    lemma_fundamental_div_mod(i, per_row);
    assert(0 <= y < height) by (nonlinear_arith)
        requires
            0 <= i < per_row * height,
            y == i / per_row,
            per_row > 0,
    ;
    assert forall|k: int| 0 <= k < 8 implies bits[k] == false by {
        let x = 8 * column + k;
        if x < width {
            assert(0 <= y * width + x < width * height) by (nonlinear_arith)
                requires
                    0 <= y < height,
                    0 <= x < width,
            ;
            assert(!ink(gray[y * width + x]));
        }
    }
    lemma_uniform_bits(bits, false);
}

proof fn lemma_bits_value_push(bits: Seq<bool>, bit: bool)
    ensures
        bits_value(bits.push(bit)) == 2 * bits_value(bits) + if bit {
            1nat
        } else {
            0nat
        },
{
    assert(bits.push(bit).drop_last() == bits);
}

/// The byte that packs eight pixels of row `y`, starting at column
/// `8 * column`.
fn pack_byte(width: u32, gray: &[u8], y: u32, column: u32) -> (byte: u8)
    requires
        width * (y + 1) <= gray@.len(),
        8 * column < width + 8,
    ensures
        byte == bits_value(ink_bits(width as nat, gray@, y as int, column as int)) as u8,
{
    let ghost bits = ink_bits(width as nat, gray@, y as int, column as int);
    let count = gray.len();
    let mut value: u32 = 0;
    let mut limit: u32 = 1;
    let mut bit: u32 = 0;
    assert(bits.take(0) =~= Seq::<bool>::empty());
    assert(width * (y + 1) == width * y + width) by (nonlinear_arith);
    while bit < 8
        invariant
            bit <= 8,
            bits == ink_bits(width as nat, gray@, y as int, column as int),
            value == bits_value(bits.take(bit as int)),
            value < limit,
            limit == weight(bit as int),
            width * y + width <= gray@.len(),
            count == gray@.len(),
            8 * column < width + 8,
        decreases 8 - bit,
    {
        let x: u64 = 8 * (column as u64) + bit as u64;
        let dark = if x < width as u64 {
            assert(y * width + x < gray@.len()) by (nonlinear_arith)
                requires
                    width * y + width <= gray@.len(),
                    x < width,
            ;
            assert(y * width <= usize::MAX) by (nonlinear_arith)
                requires
                    width * y + width <= count,
                    count <= usize::MAX,
                    0 <= width,
            ;
            let at: usize = (y as usize) * (width as usize) + x as usize;
            gray[at] < 128
        } else {
            false
        };
        proof {
            assert(bits[bit as int] == dark);
            assert(bits.take(bit + 1) =~= bits.take(bit as int).push(dark));
            lemma_bits_value_push(bits.take(bit as int), dark);
        }
        value = 2 * value + if dark {
            1
        } else {
            0
        };
        limit = 2 * limit;
        bit += 1;
    }
    assert(bits.take(8) =~= bits);
    #[verifier::truncate]
    let byte = value as u8;
    byte
}

/// The raster command of a grid of gray values, `width` to a row.
///
/// The rows are padded with white to a multiple of eight pixels; a value
/// below 128 is printed black.
pub fn encode_gray(width: u32, height: u32, gray: &[u8]) -> (out: Vec<u8>)
    requires
        gray@.len() == width * height,
        8 + bytes_per_row(width as nat) * height <= usize::MAX,
    ensures
        out@ == raster_command(width as nat, height as nat, gray@),
        out@.len() == 8 + bytes_per_row(width as nat) * height,
{
    let per_row: u32 = ((width as u64 + 7) / 8) as u32;
    let ghost w = width as nat;
    let ghost h = height as nat;
    let mut out: Vec<u8> = Vec::new();
    out.push(0x1D);
    out.push(0x76);
    out.push(0x30);
    out.push(0x00);
    out.push((per_row % 256) as u8);
    out.push(((per_row / 256) % 256) as u8);
    out.push((height % 256) as u8);
    out.push(((height / 256) % 256) as u8);
    assert(out@ =~= raster_header(w, h));
    let mut y: u32 = 0;
    while y < height
        invariant
            y <= height,
            per_row == bytes_per_row(w),
            w == width,
            h == height,
            gray@.len() == width * height,
            8 + per_row * height <= usize::MAX,
            out@.len() == 8 + per_row * y,
            out@.take(8) == raster_header(w, h),
            forall|i: int|
                0 <= i < per_row * y ==> #[trigger] out@[8 + i] == raster_data(w, h, gray@)[i],
        decreases height - y,
    {
        let mut column: u32 = 0;
        proof {
            lemma_mul_inequality(y as int + 1, height as int, per_row as int);
            lemma_mul_inequality(y as int + 1, height as int, width as int);
            assert(per_row * (y + 1) == per_row * y + per_row) by (nonlinear_arith);
            assert(width * (y + 1) == width * y + width) by (nonlinear_arith);
            assert((y + 1) * per_row == per_row * (y + 1)) by (nonlinear_arith);
            assert((y + 1) * width == width * (y + 1)) by (nonlinear_arith);
            assert(height * per_row == per_row * height) by (nonlinear_arith);
            assert(height * width == width * height) by (nonlinear_arith);
        }
        while column < per_row
            invariant
                y < height,
                column <= per_row,
                per_row == bytes_per_row(w),
                w == width,
                h == height,
                gray@.len() == width * height,
                width * (y + 1) <= gray@.len(),
                per_row * y + per_row <= per_row * height,
                8 + per_row * height <= usize::MAX,
                out@.len() == 8 + per_row * y + column,
                out@.take(8) == raster_header(w, h),
                forall|i: int|
                    0 <= i < per_row * y + column ==> #[trigger] out@[8 + i] == raster_data(
                        w,
                        h,
                        gray@,
                    )[i],
            decreases per_row - column,
        {
            let byte = pack_byte(width, gray, y, column);
            let ghost before = out@;
            out.push(byte);
            proof {
                let at = per_row * y + column;
                assert(at == y * per_row + column) by (nonlinear_arith)
                    requires
                        at == per_row * y + column,
                ;
                lemma_fundamental_div_mod_converse(
                    at as int,
                    per_row as int,
                    y as int,
                    column as int,
                );
                assert(raster_data(w, h, gray@)[at as int] == byte);
                assert(out@.take(8) =~= before.take(8));
                assert forall|i: int| 0 <= i < per_row * y + column + 1 implies #[trigger] out@[8
                    + i] == raster_data(w, h, gray@)[i] by {
                    if i < at {
                        assert(out@[8 + i] == before[8 + i]);
                    }
                }
            }
            column += 1;
        }
        y += 1;
        proof {
            assert(per_row * y == per_row * (y - 1) + per_row) by (nonlinear_arith);
        }
    }
    proof {
        let whole = raster_command(w, h, gray@);
        assert(out@.len() == whole.len());
        assert forall|i: int| 0 <= i < out@.len() implies out@[i] == whole[i] by {
            if i < 8 {
                assert(out@.take(8)[i] == out@[i]);
            } else {
                assert(out@[8 + (i - 8)] == raster_data(w, h, gray@)[i - 8]);
            }
        }
        assert(out@ =~= whole);
    }
    out
}

/// The height of a scaled image is no more than that of the image.
proof fn lemma_scaled_height(width: nat, height: nat)
    requires
        width > 384,
    ensures
        scaled_height(width, height) <= height,
        scaled_height(width, height) * width <= 384 * height,
{
    assert(height * 384 <= height * width) by (nonlinear_arith)
        requires
            384 <= width,
            0 <= height,
    ;
    lemma_div_is_ordered((height * 384) as int, (height * width) as int, width as int);
    assert((height * width) as int / (width as int) == height) by (nonlinear_arith)
        requires
            width > 0,
    ;
    assert(scaled_height(width, height) * width <= 384 * height) by (nonlinear_arith)
        requires
            scaled_height(width, height) == (height * 384) as int / (width as int),
            width > 0,
    ;
}

/// The page that prints an image is as wide as the print head and as high
/// as the image, or the image scaled down; its samples fill it.
pub proof fn lemma_page_size(img: BitmapView)
    requires
        img.wf(),
    ensures
        padded(scaled(img)).width == 384,
        padded(scaled(img)).height == page_height(img.width, img.height),
        padded(scaled(img)).pixels.len() == 3 * 384 * page_height(img.width, img.height),
        page_gray(img).len() == 384 * page_height(img.width, img.height),
        page_height(img.width, img.height) <= img.height,
        escpos_bytes(img).len() == 8 + 48 * page_height(img.width, img.height),
{
    if img.width > 384 {
        lemma_scaled_height(img.width, img.height);
    }
    let rows = page_height(img.width, img.height);
    assert(padded(scaled(img)).pixels.len() == 3 * 384 * rows) by {
        if img.width == 384 {
            assert(3 * img.width * img.height == 3 * 384 * rows) by (nonlinear_arith)
                requires
                    img.width == 384,
                    rows == img.height,
            ;
        }
    }
    assert((3 * 384 * rows) / 3 == 384 * rows) by (nonlinear_arith);
    assert(bytes_per_row(384) == 48);
}

/// On the page of an image no wider than the print head, a pixel of the
/// image has the gray value of its samples, and what lies to its right is
/// white.
pub proof fn lemma_page_gray(img: BitmapView, x: int, y: int)
    requires
        img.wf(),
        img.width <= 384,
        0 <= x < 384,
        0 <= y < img.height,
    ensures
        0 <= y * 384 + x < page_gray(img).len(),
        page_gray(img)[y * 384 + x] == if x < img.width {
            gray_value(
                img.pixels[img.offset(x, y)],
                img.pixels[img.offset(x, y) + 1],
                img.pixels[img.offset(x, y) + 2],
            )
        } else {
            255u8
        },
        x < img.width ==> 0 <= img.offset(x, y) && img.offset(x, y) + 2 < img.pixels.len(),
{
    lemma_page_size(img);
    let page = padded(scaled(img));
    let k = y * 384 + x;
    let h = img.height as int;
    let w = img.width as int;
    assert(0 <= k < 384 * h) by (nonlinear_arith)
        requires
            k == y * 384 + x,
            0 <= x < 384,
            0 <= y < h,
    ;
    lemma_fundamental_div_mod_converse(k, 384, y, x);
    if x < w {
        assert(0 <= y * w + x < w * h) by (nonlinear_arith)
            requires
                0 <= x < w,
                0 <= y < h,
        ;
        assert(3 * w * h == 3 * (w * h)) by (nonlinear_arith);
    }
    assert forall|j: int| 0 <= j < 3 implies #[trigger] page.pixels[3 * k + j] == if x < w {
        img.pixels[img.offset(x, y) + j]
    } else {
        255u8
    } by {
        let i = 3 * k + j;
        assert(i / 3 == k && i % 3 == j);
        assert(0 <= i < page.pixels.len());
    }
    assert(page.pixels[3 * k] == page.pixels[3 * k + 0]);
}

/// A page that is black all over is printed with every bit set.
pub proof fn lemma_black_page_is_all_ink(img: BitmapView, i: int)
    requires
        img.wf(),
        is_black_page(img),
        8 <= i < escpos_bytes(img).len(),
    ensures
        escpos_bytes(img)[i] == 0xFF,
{
    lemma_page_size(img);
    let page = padded(scaled(img));
    let rows = page_height(img.width, img.height);
    let gray = page_gray(img);
    assert forall|k: int| 0 <= k < page.pixels.len() implies #[trigger] page.pixels[k] == 0 by {}
    assert forall|k: int| 0 <= k < gray.len() implies ink(#[trigger] gray[k]) by {
        assert(page.pixels[3 * k] == 0 && page.pixels[3 * k + 1] == 0 && page.pixels[3 * k + 2]
            == 0);
    }
    assert(384 * rows == 384 * rows);
    lemma_raster_length(384, rows, gray);
    lemma_dark_grid_is_all_ink(384, rows, gray, i - 8);
    assert(escpos_bytes(img)[i] == raster_data(384, rows, gray)[i - 8]);
}

/// An image that is white all over and no wider than the print head is
/// printed with no bit set.
pub proof fn lemma_white_image_is_blank(img: BitmapView, i: int)
    requires
        img.wf(),
        is_white_image(img),
        8 <= i < escpos_bytes(img).len(),
    ensures
        escpos_bytes(img)[i] == 0x00,
{
    lemma_page_size(img);
    let rows = page_height(img.width, img.height);
    let gray = page_gray(img);
    assert forall|k: int| 0 <= k < gray.len() implies !ink(#[trigger] gray[k]) by {
        let y = k / 384;
        let x = k % 384;
        lemma_fundamental_div_mod(k, 384);
        assert(0 <= y < rows) by (nonlinear_arith)
            requires
                0 <= k < 384 * rows,
                y == k / 384,
        ;
        assert(y * 384 + x == k) by (nonlinear_arith)
            requires
                k == 384 * y + x,
        ;
        lemma_page_gray(img, x, y);
    }
    lemma_raster_length(384, rows, gray);
    lemma_light_grid_is_blank(384, rows, gray, i - 8);
    assert(escpos_bytes(img)[i] == raster_data(384, rows, gray)[i - 8]);
}

/// To the right of an image narrower than the print head nothing is
/// printed: the bytes of row `y` that lie wholly beyond the image have no
/// bit set.
pub proof fn lemma_padding_is_blank(img: BitmapView, y: int, column: int)
    requires
        img.wf(),
        img.width <= 384,
        0 <= y < img.height,
        0 <= column < 48,
        8 * column >= img.width,
    ensures
        8 + 48 * y + column < escpos_bytes(img).len(),
        escpos_bytes(img)[8 + 48 * y + column] == 0x00,
{
    lemma_page_size(img);
    let rows = page_height(img.width, img.height);
    let gray = page_gray(img);
    let at = 48 * y + column;
    assert(0 <= at < 48 * rows) by (nonlinear_arith)
        requires
            at == 48 * y + column,
            0 <= column < 48,
            0 <= y < rows,
    ;
    assert(at == y * 48 + column);
    lemma_fundamental_div_mod_converse(at, 48, y, column);
    assert(bytes_per_row(384) == 48);
    let bits = ink_bits(384, gray, y, column);
    assert forall|b: int| 0 <= b < 8 implies bits[b] == false by {
        lemma_page_gray(img, 8 * column + b, y);
    }
    lemma_uniform_bits(bits, false);
    lemma_raster_length(384, rows, gray);
    assert(escpos_bytes(img)[8 + at] == raster_data(384, rows, gray)[at]);
}

/// `img`, scaled down with the Lanczos filter to the width of the print head
/// if it is wider, its height scaled in proportion and rounded down.
pub fn fit_width(img: &Bitmap) -> (out: Bitmap)
    ensures
        out@ == scaled(img@),
        out@.width == (if img@.width > 384 { 384 } else { img@.width }),
        out@.height == page_height(img@.width, img@.height),
        img@.wf(),
{
    let width = img.width();
    let height = img.height();
    if width > PRINTER_WIDTH {
        proof {
            lemma_scaled_height(width as nat, height as nat);
        }
        let target: u64 = (height as u64) * 384 / (width as u64);
        img.resize(PRINTER_WIDTH, target as u32, Filter::Lanczos3)
    } else {
        img.duplicate()
    }
}

/// `img`, with white added on its right up to the width of the print head if
/// it is narrower.
pub fn pad_width(img: Bitmap) -> (out: Bitmap)
    ensures
        out@ == padded(img@),
        out@.height == img@.height,
        img@.width <= 384 ==> out@.width == 384,
{
    let width = img.width();
    let height = img.height();
    if width < PRINTER_WIDTH {
        proof {
            assert(img@.wf());
            assert(height * 12288 <= usize::MAX);
            assert(3 * 384 * height == 1152 * height) by (nonlinear_arith);
        }
        let canvas = Bitmap::from_pixel(PRINTER_WIDTH, height, (255, 255, 255));
        canvas.unwrap().overlay(&img, 0, 0)
    } else {
        img
    }
}

/// The raster command that prints `img`.
///
/// A wider image is first scaled down to the width of the print head, a
/// narrower one padded with white on its right; the image is then turned to
/// gray and each pixel darker than the middle gray printed black. So a page
/// that is black all over comes out with every bit set, a white image with
/// none, and nothing is printed to the right of a narrower image.
pub fn image_to_escpos_bytes(img: &Bitmap) -> (out: Vec<u8>)
    ensures
        out@ == escpos_bytes(img@),
        out@ == raster_command(384, page_height(img@.width, img@.height), page_gray(img@)),
        out@.len() == 8 + 48 * page_height(img@.width, img@.height),
        is_black_page(img@) ==> forall|i: int| 8 <= i < out@.len() ==> #[trigger] out@[i] == 0xFF,
        is_white_image(img@) ==> forall|i: int| 8 <= i < out@.len() ==> #[trigger] out@[i] == 0x00,
        img@.width <= 384 ==> forall|y: int, column: int|
            0 <= y < img@.height && 0 <= column < 48 && 8 * column >= img@.width ==> #[trigger] out@[8
                + 48 * y + column] == 0x00,
{
    let page = pad_width(fit_width(img));
    let gray = page.to_luma8();
    let width = page.width();
    let height = page.height();
    proof {
        lemma_page_size(img@);
    }
    let out = encode_gray(width, height, gray.as_slice());
    proof {
        if is_black_page(img@) {
            assert forall|i: int| 8 <= i < out@.len() implies #[trigger] out@[i] == 0xFF by {
                lemma_black_page_is_all_ink(img@, i);
            }
        }
        if is_white_image(img@) {
            assert forall|i: int| 8 <= i < out@.len() implies #[trigger] out@[i] == 0x00 by {
                lemma_white_image_is_blank(img@, i);
            }
        }
        if img@.width <= 384 {
            assert forall|y: int, column: int|
                0 <= y < img@.height && 0 <= column < 48 && 8 * column
                    >= img@.width implies #[trigger] out@[8 + 48 * y + column] == 0x00 by {
                lemma_padding_is_blank(img@, y, column);
            }
        }
    }
    out
}

} // verus!
