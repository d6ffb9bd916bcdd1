use ctp500::bitmap::Bitmap;
use ctp500::escpos::{encode_gray, image_to_escpos_bytes};
use image::DynamicImage;

fn bitmap_of(img: &DynamicImage) -> Bitmap {
    Bitmap::from_raw(img.width(), img.height(), img.to_rgb8().into_raw()).unwrap()
}

#[test]
fn test_escpos_header() {
    let img = DynamicImage::new_rgb8(10, 10);
    let bytes = image_to_escpos_bytes(&bitmap_of(&img));

    assert_eq!(&bytes[0..4], &[0x1d, 0x76, 0x30, 0x00]);

    let width_bytes = u16::from_le_bytes([bytes[4], bytes[5]]);
    assert_eq!(width_bytes, 48);

    let height = u16::from_le_bytes([bytes[6], bytes[7]]);
    assert_eq!(height, 10);

    assert_eq!(bytes.len(), 8 + 48 * 10);
}

#[test]
fn test_escpos_wide_image_scaled() {
    let img = DynamicImage::new_rgb8(800, 400);
    let bytes = image_to_escpos_bytes(&bitmap_of(&img));

    let width_bytes = u16::from_le_bytes([bytes[4], bytes[5]]);
    assert_eq!(width_bytes, 48);

    let height = u16::from_le_bytes([bytes[6], bytes[7]]);
    assert_eq!(height, 192);
}

#[test]
fn test_escpos_inversion() {
    let img = DynamicImage::ImageRgb8(image::ImageBuffer::from_pixel(
        384,
        1,
        image::Rgb([0u8, 0, 0]),
    ));
    let bytes = image_to_escpos_bytes(&bitmap_of(&img));
    let pixel_bytes = &bytes[8..];
    assert!(pixel_bytes.iter().all(|&b| b == 0xFF));
}

#[test]
fn narrow_black_image_is_padded_with_white() {
    let img = Bitmap::from_pixel(10, 2, (0, 0, 0)).unwrap();
    let bytes = image_to_escpos_bytes(&img);
    assert_eq!(bytes.len(), 8 + 48 * 2);
    for row in 0..2 {
        let data = &bytes[8 + 48 * row..8 + 48 * (row + 1)];
        assert_eq!(data[0], 0xFF);
        assert_eq!(data[1], 0xC0);
        assert!(data[2..].iter().all(|&b| b == 0x00));
    }
}

#[test]
fn encode_gray_packs_most_significant_bit_first() {
    let gray = [0u8, 255, 127, 128, 0, 0, 255, 255, 0, 200];
    let bytes = encode_gray(10, 1, &gray);
    assert_eq!(bytes, vec![0x1d, 0x76, 0x30, 0x00, 2, 0, 1, 0, 0b1010_1100, 0b1000_0000]);
}

#[test]
fn encode_gray_of_nothing_is_the_header() {
    let bytes = encode_gray(0, 0, &[]);
    assert_eq!(bytes, vec![0x1d, 0x76, 0x30, 0x00, 0, 0, 0, 0]);
}

#[test]
fn encode_gray_truncates_the_row_count_to_16_bits() {
    let gray = vec![255u8; 65537];
    let bytes = encode_gray(1, 65537, &gray);
    assert_eq!(&bytes[4..8], &[1, 0, 1, 0]);
    assert_eq!(bytes.len(), 8 + 65537);
}

#[test]
fn from_raw_wants_three_samples_per_pixel() {
    assert!(Bitmap::from_raw(2, 2, vec![0; 12]).is_some());
    assert!(Bitmap::from_raw(2, 2, vec![0; 11]).is_none());
    assert!(Bitmap::from_raw(2, 2, vec![0; 13]).is_none());
    assert!(Bitmap::from_raw(0, 5, vec![]).is_some());
}

#[test]
fn gray_stays_what_it_is() {
    let mut samples = Vec::new();
    for v in 0..=255u8 {
        samples.extend([v, v, v]);
    }
    let gray = Bitmap::from_raw(256, 1, samples.clone()).unwrap().to_luma8();
    assert_eq!(gray, (0..=255u8).collect::<Vec<u8>>());
    samples.extend(vec![255u8; 3 * 128]);
    let bytes = image_to_escpos_bytes(&Bitmap::from_raw(384, 1, samples).unwrap());
    assert!(bytes[8..24].iter().all(|&b| b == 0xFF));
    assert!(bytes[24..].iter().all(|&b| b == 0x00));
}

#[test]
fn colors_have_the_gray_value_of_their_luminance() {
    let img = Bitmap::from_raw(4, 1, vec![255, 0, 0, 0, 255, 0, 0, 0, 255, 255, 255, 0]).unwrap();
    assert_eq!(img.to_luma8(), vec![54, 182, 18, 237]);
}

#[test]
fn colors_are_judged_by_their_gray_value() {
    let mut samples = Vec::new();
    for rgb in [[255u8, 0, 0], [0, 255, 0], [0, 0, 255], [255, 255, 0], [127, 127, 127], [128, 128, 128]] {
        samples.extend(rgb);
    }
    samples.extend(vec![255u8; 3 * 378]);
    let img = Bitmap::from_raw(384, 1, samples).unwrap();
    let bytes = image_to_escpos_bytes(&img);
    assert_eq!(bytes[8], 0b1010_1000);
    assert!(bytes[9..].iter().all(|&b| b == 0));
}

#[test]
fn the_result_agrees_with_the_image_crate_step_by_step() {
    let mut source = image::RgbImage::new(500, 37);
    for (x, y, pixel) in source.enumerate_pixels_mut() {
        let v = ((x * 7 + y * 13) % 256) as u8;
        *pixel = image::Rgb([v, v.wrapping_mul(3), 255 - v]);
    }
    let img = DynamicImage::ImageRgb8(source);
    let scaled = img.resize_exact(384, 37 * 384 / 500, image::imageops::FilterType::Lanczos3);
    assert_eq!((scaled.width(), scaled.height()), (384, 28));
    let gray = scaled.to_luma8();
    let mut expected = vec![0x1d, 0x76, 0x30, 0x00, 48, 0, gray.height() as u8, 0];
    for y in 0..gray.height() {
        for column in 0..48 {
            let mut byte = 0u8;
            for bit in 0..8 {
                if gray.get_pixel(column * 8 + bit, y)[0] < 128 {
                    byte |= 0x80 >> bit;
                }
            }
            expected.push(byte);
        }
    }
    let bytes = image_to_escpos_bytes(&bitmap_of(&img));
    assert_eq!(bytes, expected);
    assert!(bytes[8..].iter().any(|&b| b != 0) && bytes[8..].iter().any(|&b| b != 0xFF));
}

#[test]
fn a_wide_image_is_scaled_to_the_full_width() {
    let img = Bitmap::from_pixel(1000, 333, (0, 0, 0)).unwrap();
    let bytes = image_to_escpos_bytes(&img);
    assert_eq!(&bytes[4..8], &[48, 0, 127, 0]);
    assert_eq!(bytes.len(), 8 + 48 * 127);
    assert!(bytes[8..].iter().all(|&b| b == 0xFF));

    let img = Bitmap::from_pixel(1000, 3, (0, 0, 0)).unwrap();
    let bytes = image_to_escpos_bytes(&img);
    assert_eq!(&bytes[4..8], &[48, 0, 1, 0]);
    assert_eq!(bytes[8..], [0xFFu8; 48]);
}

#[test]
fn a_wide_image_too_flat_for_a_row_prints_no_rows() {
    let img = Bitmap::from_pixel(1000, 2, (0, 0, 0)).unwrap();
    assert_eq!(image_to_escpos_bytes(&img), vec![0x1d, 0x76, 0x30, 0x00, 48, 0, 0, 0]);
}

#[test]
fn an_image_half_black_stays_so_when_scaled() {
    let mut samples = Vec::new();
    for _ in 0..8 {
        samples.extend(vec![0u8; 3 * 384]);
        samples.extend(vec![255u8; 3 * 384]);
    }
    let bytes = image_to_escpos_bytes(&Bitmap::from_raw(768, 8, samples).unwrap());
    assert_eq!(&bytes[4..8], &[48, 0, 4, 0]);
    for row in 0..4 {
        let data = &bytes[8 + 48 * row..8 + 48 * (row + 1)];
        assert!(data[..23].iter().all(|&b| b == 0xFF));
        assert!(data[25..].iter().all(|&b| b == 0x00));
    }
}

#[test]
fn an_image_without_rows_gives_the_header_alone() {
    let img = Bitmap::from_raw(10, 0, vec![]).unwrap();
    assert_eq!(image_to_escpos_bytes(&img), vec![0x1d, 0x76, 0x30, 0x00, 48, 0, 0, 0]);
}

#[test]
fn bitmaps_give_back_what_they_were_made_of() {
    let img = Bitmap::from_raw(2, 1, vec![1, 2, 3, 4, 5, 6]).unwrap();
    assert_eq!(img.width(), 2);
    assert_eq!(img.height(), 1);
    assert_eq!(img.as_raw(), &vec![1, 2, 3, 4, 5, 6]);
    assert_eq!(img.duplicate(), img);
    assert_eq!(img.clone().into_raw(), vec![1, 2, 3, 4, 5, 6]);
    let filled = Bitmap::from_pixel(2, 2, (9, 8, 7)).unwrap();
    assert_eq!(filled.into_raw(), vec![9, 8, 7, 9, 8, 7, 9, 8, 7, 9, 8, 7]);
}

fn canvas_with_ink_at(height: u32, rows: &[u32]) -> Bitmap {
    let mut samples = vec![255u8; 3 * 4 * height as usize];
    for row in rows {
        samples[3 * 4 * *row as usize + 7] = 254;
    }
    Bitmap::from_raw(4, height, samples).unwrap()
}

#[test]
fn trimming_keeps_ten_rows_below_the_last_content() {
    let trimmed = ctp500::bitmap::trim_image(canvas_with_ink_at(100, &[3, 20]));
    assert_eq!((trimmed.width(), trimmed.height()), (4, 31));
    assert_eq!(trimmed.as_raw()[..], canvas_with_ink_at(100, &[3, 20]).as_raw()[..3 * 4 * 31]);
}

#[test]
fn trimming_keeps_all_if_the_content_reaches_the_bottom() {
    assert_eq!(ctp500::bitmap::trim_image(canvas_with_ink_at(100, &[95])).height(), 100);
    assert_eq!(ctp500::bitmap::trim_image(canvas_with_ink_at(100, &[89])).height(), 100);
    assert_eq!(ctp500::bitmap::trim_image(canvas_with_ink_at(100, &[88])).height(), 99);
}

#[test]
fn trimming_a_blank_canvas_keeps_eleven_rows() {
    assert_eq!(ctp500::bitmap::trim_image(canvas_with_ink_at(100, &[])).height(), 11);
    assert_eq!(ctp500::bitmap::trim_image(canvas_with_ink_at(5, &[])).height(), 5);
    assert_eq!(ctp500::bitmap::trim_image(canvas_with_ink_at(0, &[])).height(), 0);
    assert_eq!(ctp500::bitmap::trim_image(canvas_with_ink_at(100, &[0])).height(), 11);
}

#[test]
fn the_page_is_as_high_as_the_proportions_give() {
    let widths = [385u32, 386, 400, 511, 767, 768, 769, 1000, 1153, 4000];
    let heights = [0u32, 1, 2, 3, 7, 10, 11, 29, 64, 100];
    for width in widths {
        for height in heights {
            let img = Bitmap::from_pixel(width, height, (200, 100, 50)).unwrap();
            let bytes = image_to_escpos_bytes(&img);
            let rows = (height as u64 * 384 / width as u64) as usize;
            assert_eq!(bytes.len(), 8 + 48 * rows, "{}x{}", width, height);
            assert_eq!(&bytes[4..8], &[48, 0, rows as u8, 0], "{}x{}", width, height);
        }
    }
    for width in [0u32, 1, 8, 383, 384] {
        for height in heights {
            let img = Bitmap::from_pixel(width, height, (200, 100, 50)).unwrap();
            let bytes = image_to_escpos_bytes(&img);
            assert_eq!(bytes.len(), 8 + 48 * height as usize, "{}x{}", width, height);
            assert_eq!(&bytes[4..8], &[48, 0, height as u8, 0], "{}x{}", width, height);
        }
    }
}

#[test]
fn a_black_page_is_all_ink_and_a_white_one_blank() {
    for height in [1u32, 2, 17] {
        let black = image_to_escpos_bytes(&Bitmap::from_pixel(384, height, (0, 0, 0)).unwrap());
        assert!(black[8..].iter().all(|&b| b == 0xFF));
        let white = image_to_escpos_bytes(&Bitmap::from_pixel(384, height, (255, 255, 255)).unwrap());
        assert!(white[8..].iter().all(|&b| b == 0x00));
        let narrow = image_to_escpos_bytes(&Bitmap::from_pixel(100, height, (255, 255, 255)).unwrap());
        assert!(narrow[8..].iter().all(|&b| b == 0x00));
    }
}
