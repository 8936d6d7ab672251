use qrcode_png::{Color, ColorValue, Error, PixelLayout, Png};

fn bytes_of(image: &Png) -> Vec<u8> {
    image.export().3
}

fn all_colors() -> Vec<Color> {
    vec![
        Color::Bitmap(true, false),
        Color::Bitmap(false, true),
        Color::Grayscale(0, 255),
        Color::Rgb([3, 169, 244], [113, 140, 0]),
        Color::Rgba([137, 89, 168, 255], [255, 255, 255, 0]),
    ]
}

#[test]
fn create_bitmap() {
    let width = 15;
    let height = 11;
    let data = [
        // 1234567    89abcdef
        0b00000000, 0b11111100,
        0b00000000, 0b11111000,
        0b11111111, 0b11110000,
        0b11110001, 0b11111110,
        0b11110001, 0b11111110,
        0b11111111, 0b11111110,
        0b11000000, 0b11111110,
        0b11000000, 0b11111110,
        0b11000000, 0b11111110,
        0b11000000, 0b11111110,
        0b11000000, 0b11111110,
    ];
    let mut image = Png::new(width, height, Color::Bitmap(true, false)).unwrap();
    for y in 0..height {
        for x in 0..width {
            let byte: u8 = data[y * 2 + x / 8];
            if byte & (0x80 >> (x % 8)) != 0 {
                image.set_color(x, y);
            }
        }
    }
    assert_eq!(bytes_of(&image), data.to_vec());
    let file = image.encode().unwrap();
    assert_eq!(&file[..8], &[137, 80, 78, 71, 13, 10, 26, 10]);
    let mut reader = png::Decoder::new(std::io::Cursor::new(file)).read_info().unwrap();
    let mut decoded = vec![0u8; reader.output_buffer_size()];
    let info = reader.next_frame(&mut decoded).unwrap();
    assert_eq!((info.width, info.height), (15, 11));
    assert_eq!(info.color_type, png::ColorType::Grayscale);
    assert_eq!(info.bit_depth, png::BitDepth::One);
    assert_eq!(&decoded[..info.buffer_size()], &data[..]);
}

#[test]
fn new_rejects_zero_width() {
    for color in all_colors() {
        assert_eq!(Png::new(0, 5, color).err(), Some(Error::InvalidConfiguration));
    }
}

#[test]
fn new_rejects_zero_height() {
    for color in all_colors() {
        assert_eq!(Png::new(5, 0, color).err(), Some(Error::InvalidConfiguration));
    }
}

#[test]
fn new_rejects_zero_by_zero() {
    assert_eq!(Png::new(0, 0, Color::Grayscale(0, 255)).err(), Some(Error::InvalidConfiguration));
}

#[test]
fn new_accepts_one_by_one() {
    for color in all_colors() {
        assert!(Png::new(1, 1, color).is_ok());
    }
}

#[test]
fn bitmap_buffer_rounds_each_row_up_to_a_byte() {
    let cases: [(usize, usize, usize); 8] = [
        (1, 1, 1),
        (7, 1, 1),
        (8, 1, 1),
        (9, 1, 2),
        (15, 11, 22),
        (16, 3, 6),
        (17, 3, 9),
        (21, 21, 63),
    ];
    for (width, height, expected) in cases {
        let image = Png::new(width, height, Color::Bitmap(true, false)).unwrap();
        assert_eq!(bytes_of(&image).len(), expected);
    }
}

#[test]
fn byte_buffers_have_one_three_or_four_bytes_per_pixel() {
    assert_eq!(bytes_of(&Png::new(15, 11, Color::Grayscale(0, 255)).unwrap()).len(), 165);
    assert_eq!(bytes_of(&Png::new(15, 11, Color::Rgb([0; 3], [255; 3])).unwrap()).len(), 495);
    assert_eq!(bytes_of(&Png::new(15, 11, Color::Rgba([0; 4], [255; 4])).unwrap()).len(), 660);
}

#[test]
fn new_fills_bitmap_with_background_bit() {
    let white = Png::new(10, 3, Color::Bitmap(false, true)).unwrap();
    assert_eq!(bytes_of(&white), vec![0xff; 6]);
    let black = Png::new(10, 3, Color::Bitmap(true, false)).unwrap();
    assert_eq!(bytes_of(&black), vec![0x00; 6]);
}

#[test]
fn new_fills_grayscale_with_background() {
    let image = Png::new(4, 2, Color::Grayscale(7, 200)).unwrap();
    assert_eq!(bytes_of(&image), vec![200; 8]);
}

#[test]
fn new_fills_rgb_with_background_triples() {
    let image = Png::new(2, 2, Color::Rgb([1, 2, 3], [113, 140, 0])).unwrap();
    assert_eq!(bytes_of(&image), vec![113, 140, 0, 113, 140, 0, 113, 140, 0, 113, 140, 0]);
}

#[test]
fn new_fills_rgba_with_background_quadruples() {
    let image = Png::new(1, 3, Color::Rgba([1, 2, 3, 4], [255, 254, 253, 0])).unwrap();
    assert_eq!(bytes_of(&image), vec![255, 254, 253, 0, 255, 254, 253, 0, 255, 254, 253, 0]);
}

#[test]
fn every_pixel_reads_as_background_after_new() {
    for color in all_colors() {
        let image = Png::new(19, 5, color).unwrap();
        for y in 0..5 {
            for x in 0..19 {
                assert_eq!(image.pixel(x, y), color.background_value());
            }
        }
    }
}

#[test]
fn painted_pixel_reads_as_foreground_and_no_other_changes() {
    for color in all_colors() {
        for (px, py) in [(0usize, 0usize), (18, 4), (7, 2), (8, 2), (9, 0), (0, 4), (18, 0)] {
            let mut image = Png::new(19, 5, color).unwrap();
            image.set_color(px, py);
            for y in 0..5 {
                for x in 0..19 {
                    let expected = if (x, y) == (px, py) {
                        color.foreground_value()
                    } else {
                        color.background_value()
                    };
                    assert_eq!(image.pixel(x, y), expected);
                }
            }
        }
    }
}

#[test]
fn painting_twice_is_painting_once() {
    for color in all_colors() {
        let mut once = Png::new(9, 2, color).unwrap();
        once.set_color(8, 1);
        let mut twice = Png::new(9, 2, color).unwrap();
        twice.set_color(8, 1);
        twice.set_color(8, 1);
        assert_eq!(bytes_of(&once), bytes_of(&twice));
    }
}

#[test]
fn paint_never_reverts_a_pixel() {
    let color = Color::Grayscale(0, 255);
    let mut image = Png::new(3, 3, color).unwrap();
    image.set_color(1, 1);
    image.set_color(2, 2);
    image.set_color(0, 0);
    assert_eq!(image.pixel(1, 1), ColorValue::Gray(0));
    assert_eq!(image.pixel(2, 2), ColorValue::Gray(0));
    assert_eq!(image.pixel(0, 0), ColorValue::Gray(0));
    assert_eq!(bytes_of(&image), vec![0, 255, 255, 255, 0, 255, 255, 255, 0]);
}

#[test]
fn bitmap_round_trip_at_row_boundaries() {
    for x in [7usize, 8, 9] {
        for y in [0usize, 1, 2] {
            let mut image = Png::new(16, 3, Color::Bitmap(true, false)).unwrap();
            image.set_color(x, y);
            let bytes = bytes_of(&image);
            let stride = 2;
            let mask: u8 = 1 << (7 - x % 8);
            assert_eq!(bytes[y * stride + x / 8] & mask, mask);
            let mut expected = vec![0u8; 6];
            expected[y * stride + x / 8] = mask;
            assert_eq!(bytes, expected);
        }
    }
}

#[test]
fn bitmap_round_trip_with_foreground_bit_clear() {
    for x in [7usize, 8, 9] {
        let mut image = Png::new(16, 2, Color::Bitmap(false, true)).unwrap();
        image.set_color(x, 1);
        let bytes = bytes_of(&image);
        let mask: u8 = 1 << (7 - x % 8);
        assert_eq!(bytes[2 + x / 8] & mask, 0);
        let mut expected = vec![0xffu8; 4];
        expected[2 + x / 8] = !mask;
        assert_eq!(bytes, expected);
    }
}

#[test]
fn bitmap_bits_run_from_the_high_bit() {
    let mut image = Png::new(8, 1, Color::Bitmap(true, false)).unwrap();
    image.set_color(0, 0);
    assert_eq!(bytes_of(&image), vec![0b1000_0000]);
    image.set_color(7, 0);
    assert_eq!(bytes_of(&image), vec![0b1000_0001]);
    image.set_color(2, 0);
    assert_eq!(bytes_of(&image), vec![0b1010_0001]);
}

#[test]
fn bitmap_spare_bits_stay_background() {
    let mut image = Png::new(9, 1, Color::Bitmap(false, true)).unwrap();
    for x in 0..9 {
        image.set_color(x, 0);
    }
    assert_eq!(bytes_of(&image), vec![0x00, 0x7f]);
}

#[test]
fn grayscale_index_is_row_times_width_plus_column() {
    let mut image = Png::new(5, 4, Color::Grayscale(9, 200)).unwrap();
    image.set_color(3, 2);
    let mut expected = vec![200u8; 20];
    expected[2 * 5 + 3] = 9;
    assert_eq!(bytes_of(&image), expected);
}

#[test]
fn rgb_writes_three_bytes_at_three_times_the_pixel_index() {
    let mut image = Png::new(5, 4, Color::Rgb([3, 169, 244], [113, 140, 0])).unwrap();
    image.set_color(4, 3);
    let mut expected = [113u8, 140, 0].repeat(20);
    let index = (3 * 5 + 4) * 3;
    expected[index] = 3;
    expected[index + 1] = 169;
    expected[index + 2] = 244;
    assert_eq!(bytes_of(&image), expected);
}

#[test]
fn rgba_writes_four_bytes_at_four_times_the_pixel_index() {
    let mut image = Png::new(5, 4, Color::Rgba([137, 89, 168, 255], [255, 255, 255, 0])).unwrap();
    image.set_color(0, 1);
    let mut expected = [255u8, 255, 255, 0].repeat(20);
    let index = (1 * 5 + 0) * 4;
    expected[index] = 137;
    expected[index + 1] = 89;
    expected[index + 2] = 168;
    expected[index + 3] = 255;
    assert_eq!(bytes_of(&image), expected);
}

#[test]
fn export_hands_out_dimensions_layout_and_buffer() {
    let mut image = Png::new(3, 2, Color::Grayscale(1, 2)).unwrap();
    image.set_color(2, 1);
    let (width, height, layout, data) = image.export();
    assert_eq!(width, 3);
    assert_eq!(height, 2);
    assert_eq!(layout, PixelLayout::Gray8);
    assert_eq!(data, vec![2, 2, 2, 2, 2, 1]);
    assert_eq!(Png::new(3, 2, Color::Bitmap(true, false)).unwrap().export().2, PixelLayout::Gray1);
    assert_eq!(Png::new(3, 2, Color::Rgb([0; 3], [1; 3])).unwrap().export().2, PixelLayout::Rgb8);
    assert_eq!(Png::new(3, 2, Color::Rgba([0; 4], [1; 4])).unwrap().export().2, PixelLayout::Rgba8);
}

#[test]
fn color_values_follow_the_variant() {
    assert_eq!(Color::Bitmap(true, false).foreground_value(), ColorValue::Bit(true));
    assert_eq!(Color::Bitmap(true, false).background_value(), ColorValue::Bit(false));
    assert_eq!(Color::Grayscale(0, 255).foreground_value(), ColorValue::Gray(0));
    assert_eq!(Color::Grayscale(0, 255).background_value(), ColorValue::Gray(255));
    assert_eq!(Color::Rgb([1, 2, 3], [4, 5, 6]).foreground_value(), ColorValue::Rgb([1, 2, 3]));
    assert_eq!(Color::Rgb([1, 2, 3], [4, 5, 6]).background_value(), ColorValue::Rgb([4, 5, 6]));
    assert_eq!(Color::Rgba([1, 2, 3, 4], [5, 6, 7, 8]).foreground_value(), ColorValue::Rgba([1, 2, 3, 4]));
    assert_eq!(Color::Rgba([1, 2, 3, 4], [5, 6, 7, 8]).background_value(), ColorValue::Rgba([5, 6, 7, 8]));
}

#[test]
fn color_layouts_follow_the_variant() {
    assert_eq!(Color::Bitmap(false, true).layout(), PixelLayout::Gray1);
    assert_eq!(Color::Grayscale(0, 255).layout(), PixelLayout::Gray8);
    assert_eq!(Color::Rgb([0; 3], [255; 3]).layout(), PixelLayout::Rgb8);
    assert_eq!(Color::Rgba([0; 4], [255; 4]).layout(), PixelLayout::Rgba8);
}

#[test]
fn usual_colors_of_each_encoding() {
    assert_eq!(Color::default(), Color::Bitmap(true, false));
    assert_eq!(Color::bitmap(), Color::Bitmap(true, false));
    assert_eq!(Color::grayscale(), Color::Grayscale(0, 255));
    assert_eq!(Color::rgb(), Color::Rgb([0, 0, 0], [255, 255, 255]));
    assert_eq!(Color::rgba(), Color::Rgba([0, 0, 0, 255], [255, 255, 255, 255]));
}

#[test]
fn equal_foreground_and_background_is_legal() {
    let color = Color::Rgb([9, 9, 9], [9, 9, 9]);
    let mut image = Png::new(2, 2, color).unwrap();
    image.set_color(1, 0);
    assert_eq!(bytes_of(&image), vec![9; 12]);
}

#[test]
fn encode_round_trips_through_the_decoder() {
    let expected: [(Color, png::ColorType, png::BitDepth); 4] = [
        (Color::Bitmap(true, false), png::ColorType::Grayscale, png::BitDepth::One),
        (Color::Grayscale(0, 255), png::ColorType::Grayscale, png::BitDepth::Eight),
        (Color::Rgb([3, 169, 244], [113, 140, 0]), png::ColorType::Rgb, png::BitDepth::Eight),
        (Color::Rgba([137, 89, 168, 255], [255, 255, 255, 0]), png::ColorType::Rgba, png::BitDepth::Eight),
    ];
    for (color, color_type, bit_depth) in expected {
        let mut image = Png::new(13, 7, color).unwrap();
        image.set_color(0, 0);
        image.set_color(12, 6);
        image.set_color(5, 3);
        let file = image.encode().unwrap();
        let mut reader = png::Decoder::new(std::io::Cursor::new(file)).read_info().unwrap();
        let mut decoded = vec![0u8; reader.output_buffer_size()];
        let info = reader.next_frame(&mut decoded).unwrap();
        assert_eq!((info.width, info.height), (13, 7));
        assert_eq!(info.color_type, color_type);
        assert_eq!(info.bit_depth, bit_depth);
        assert_eq!(&decoded[..info.buffer_size()], &bytes_of(&image)[..]);
    }
}

#[test]
fn encode_is_repeatable() {
    let mut image = Png::new(13, 7, Color::Rgb([3, 169, 244], [113, 140, 0])).unwrap();
    image.set_color(4, 4);
    assert_eq!(image.encode().unwrap(), image.encode().unwrap());
}

#[test]
fn encode_tells_layouts_apart() {
    let gray = Png::new(8, 8, Color::Grayscale(0, 0)).unwrap();
    let bits = Png::new(64, 8, Color::Bitmap(false, false)).unwrap();
    assert_eq!(bytes_of(&gray), bytes_of(&bits));
    assert_ne!(gray.encode().unwrap(), bits.encode().unwrap());
}

#[test]
fn buffer_fits_tells_whether_the_size_can_be_held() {
    for color in all_colors() {
        assert!(color.buffer_fits(0, 0));
        assert!(color.buffer_fits(1, 1));
        assert!(color.buffer_fits(230, 230));
        assert!(!color.buffer_fits(usize::MAX, usize::MAX));
    }
    assert!(Color::Grayscale(0, 255).buffer_fits(usize::MAX, 1));
    assert!(!Color::Grayscale(0, 255).buffer_fits(usize::MAX, 2));
    assert!(!Color::Rgb([0; 3], [0; 3]).buffer_fits(usize::MAX, 1));
    assert!(Color::Rgb([0; 3], [0; 3]).buffer_fits(usize::MAX / 3, 1));
    assert!(!Color::Rgb([0; 3], [0; 3]).buffer_fits(usize::MAX / 3 + 1, 1));
    assert!(Color::Rgba([0; 4], [0; 4]).buffer_fits(1, usize::MAX / 4));
    assert!(!Color::Rgba([0; 4], [0; 4]).buffer_fits(1, usize::MAX / 4 + 1));
    assert!(Color::Bitmap(true, false).buffer_fits(usize::MAX, 7));
    assert!(!Color::Bitmap(true, false).buffer_fits(usize::MAX, 8));
    assert!(Color::Bitmap(true, false).buffer_fits(8, usize::MAX));
    assert!(!Color::Bitmap(true, false).buffer_fits(9, usize::MAX));
}

#[test]
fn encode_fails_where_the_width_needs_more_than_32_bits() {
    let width = u32::MAX as usize + 1;
    let image = Png::new(width, 1, Color::Bitmap(true, false)).unwrap();
    assert_eq!(image.encode().err(), Some(Error::EncodingFailure));
}

#[test]
fn can_encode_asks_for_dimensions_of_32_bits() {
    let max = u32::MAX as usize;
    for color in all_colors() {
        assert!(color.can_encode(1, 1));
        assert!(color.can_encode(230, 230));
        assert!(color.can_encode(1, max));
        assert!(!color.can_encode(1, max + 1));
        assert!(!color.can_encode(max + 1, 1));
    }
}

#[test]
fn can_encode_asks_for_rows_below_four_gibibytes() {
    let max = u32::MAX as usize;
    assert!(Color::Bitmap(true, false).can_encode(max, 1));
    assert!(Color::Grayscale(0, 255).can_encode(max - 1, 1));
    assert!(!Color::Grayscale(0, 255).can_encode(max, 1));
    assert!(Color::Rgb([0; 3], [255; 3]).can_encode(1431655764, 1));
    assert!(!Color::Rgb([0; 3], [255; 3]).can_encode(1431655765, 1));
    assert!(Color::Rgba([0; 4], [255; 4]).can_encode(1073741823, 1));
    assert!(!Color::Rgba([0; 4], [255; 4]).can_encode(1073741824, 1));
    assert!(!Color::Rgba([0; 4], [255; 4]).can_encode(1073741826, 1));
}

#[test]
fn can_encode_asks_for_a_buffer_that_fits_isize() {
    let half = 1usize << 31;
    assert!(Color::Grayscale(0, 255).can_encode(half, half));
    assert!(!Color::Grayscale(0, 255).can_encode(u32::MAX as usize - 1, u32::MAX as usize));
    assert!(Color::Rgba([0; 4], [255; 4]).can_encode(1 << 29, 1 << 31));
    assert!(!Color::Rgba([0; 4], [255; 4]).can_encode(1 << 29, u32::MAX as usize));
}

#[test]
fn encode_succeeds_on_every_small_canvas() {
    for color in all_colors() {
        for (width, height) in [(1usize, 1usize), (1, 9), (9, 1), (8, 8), (17, 3), (100, 100)] {
            let mut image = Png::new(width, height, color).unwrap();
            image.set_color(width - 1, height - 1);
            assert!(image.encode().is_ok());
        }
    }
}
