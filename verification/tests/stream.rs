use sixel_encoder::color::{Color, ColorMode, Pixel};
use sixel_encoder::encoders::sixel::SixelEncoder;
use sixel_encoder::protocol::{
    write_band, write_decimal, write_palette_entry, write_pixel_line, write_raster_attributes,
};

fn px(r: u8, g: u8, b: u8) -> Pixel {
    Pixel { r, g, b }
}

fn text(bytes: &[u8]) -> String {
    String::from_utf8(bytes.to_vec()).unwrap()
}

fn count(haystack: &[u8], needle: u8) -> usize {
    haystack.iter().filter(|&&b| b == needle).count()
}

#[test]
fn write_decimal_renders_numbers() {
    let cases: [(usize, &str); 8] = [
        (0, "0"),
        (7, "7"),
        (9, "9"),
        (10, "10"),
        (99, "99"),
        (100, "100"),
        (360, "360"),
        (1234567890, "1234567890"),
    ];
    for (n, expected) in cases {
        let mut out = Vec::new();
        write_decimal(&mut out, n);
        assert_eq!(text(&out), expected);
    }
    let mut out = Vec::new();
    write_decimal(&mut out, usize::MAX);
    assert_eq!(text(&out), format!("{}", usize::MAX));
}

#[test]
fn write_decimal_appends() {
    let mut out = vec![b'x'];
    write_decimal(&mut out, 42);
    write_decimal(&mut out, 0);
    assert_eq!(text(&out), "x420");
}

#[test]
fn write_palette_entry_rgb() {
    let mut out = Vec::new();
    write_palette_entry(&mut out, 0, Color::RGB(100, 0, 0));
    write_palette_entry(&mut out, 12, Color::RGB(12, 37, 75));
    assert_eq!(text(&out), "#0;2;100;0;0\n#12;2;12;37;75\n");
}

#[test]
fn write_palette_entry_hsl_puts_lightness_before_saturation() {
    let mut out = Vec::new();
    write_palette_entry(&mut out, 3, Color::HSL(329, 100, 50));
    assert_eq!(text(&out), "#3;1;329;50;100\n");
}

#[test]
fn write_raster_attributes_puts_width_before_height() {
    let mut out = Vec::new();
    write_raster_attributes(&mut out, 640, 480);
    assert_eq!(text(&out), "\"1;1;640;480\n");
}

#[test]
fn write_pixel_line_sets_one_bit_per_row() {
    let map = vec![0usize, 1, 10, 2];
    let expected = ["@", "A", "C", "G", "O", "_"];
    for offset in 0..6u8 {
        let mut out = Vec::new();
        write_pixel_line(&mut out, &map, 1, 3, offset);
        let chr = expected[offset as usize];
        assert_eq!(text(&out), format!("#1{}#10{}", chr, chr));
        assert_eq!(out[out.len() - 1], 0x3F + (1u8 << offset));
    }
    let mut out = Vec::new();
    write_pixel_line(&mut out, &map, 2, 2, 0);
    assert!(out.is_empty());
}

#[test]
fn write_band_of_full_height() {
    let map: Vec<usize> = (0..14).collect();
    let mut out = Vec::new();
    write_band(&mut out, &map, 2, 7, 0);
    assert_eq!(text(&out), "$#0@#1@$#2A#3A$#4C#5C$#6G#7G$#8O#9O$#10_#11_-");
}

#[test]
fn write_band_of_the_rows_left_over() {
    let map: Vec<usize> = (0..14).collect();
    let mut out = Vec::new();
    write_band(&mut out, &map, 2, 7, 6);
    assert_eq!(text(&out), "$#12@#13@-");
}

#[test]
fn one_red_pixel_stream() {
    let encoder = SixelEncoder::from_pixels(1, 1, &[px(255, 0, 0)], ColorMode::RGB);
    let stream = encoder.encode();
    assert_eq!(text(&stream), "\x1bPq\n#0;2;100;0;0\n\"1;1;1;1\n$#0@-\x1b\\\n");
    assert_eq!(count(&stream, b'$'), 1);
    assert_eq!(count(&stream, b'-'), 1);
    let bands = &stream[stream.len() - 8..stream.len() - 3];
    assert_eq!(bands, &[b'$', b'#', b'0', 0x3F + 1, b'-']);
}

#[test]
fn one_red_pixel_stream_in_hsl() {
    let encoder = SixelEncoder::from_pixels(1, 1, &[px(255, 0, 0)], ColorMode::HSL);
    assert_eq!(text(&encoder.encode()), "\x1bPq\n#0;1;0;50;100\n\"1;1;1;1\n$#0@-\x1b\\\n");
}

#[test]
fn black_and_white_stream() {
    let pixels = [px(0, 0, 0), px(255, 255, 255)];
    let encoder = SixelEncoder::from_pixels(2, 1, &pixels, ColorMode::RGB);
    assert_eq!(
        text(&encoder.encode()),
        "\x1bPq\n#0;2;0;0;0\n#1;2;100;100;100\n\"1;1;2;1\n$#0@#1@-\x1b\\\n"
    );
}

#[test]
fn eight_rows_are_split_into_two_bands() {
    let pixels = [px(0, 0, 0); 8];
    let encoder = SixelEncoder::from_pixels(1, 8, &pixels, ColorMode::RGB);
    let stream = encoder.encode();
    assert_eq!(
        text(&stream),
        "\x1bPq\n#0;2;0;0;0\n\"1;1;1;8\n$#0@$#0A$#0C$#0G$#0O$#0_-$#0@$#0A-\x1b\\\n"
    );
    assert_eq!(count(&stream, b'-'), 2);
    assert_eq!(count(&stream, b'$'), 8);
}

#[test]
fn band_count_follows_the_height() {
    for height in 0..40usize {
        let pixels = vec![px(9, 9, 9); height];
        let encoder = SixelEncoder::from_pixels(1, height, &pixels, ColorMode::RGB);
        let stream = encoder.encode();
        assert_eq!(count(&stream, b'-'), (height + 5) / 6);
        assert_eq!(count(&stream, b'$'), height);
    }
}

#[test]
fn six_rows_make_exactly_one_band() {
    let pixels = vec![px(0, 0, 0); 12];
    let encoder = SixelEncoder::from_pixels(2, 6, &pixels, ColorMode::RGB);
    assert_eq!(
        text(&encoder.encode()),
        "\x1bPq\n#0;2;0;0;0\n\"1;1;2;6\n$#0@#0@$#0A#0A$#0C#0C$#0G#0G$#0O#0O$#0_#0_-\x1b\\\n"
    );
}

#[test]
fn empty_image_stream() {
    let encoder = SixelEncoder::from_pixels(0, 0, &[], ColorMode::RGB);
    assert_eq!(text(&encoder.encode()), "\x1bPq\n\"1;1;0;0\n\x1b\\\n");
    let image = bmp::Image::new(0, 0);
    let encoder = SixelEncoder::new(&image, ColorMode::RGB);
    assert_eq!(text(&encoder.encode()), "\x1bPq\n\"1;1;0;0\n\x1b\\\n");
}

#[test]
fn image_without_columns_still_has_its_bands() {
    let encoder = SixelEncoder::from_pixels(0, 7, &[], ColorMode::RGB);
    assert_eq!(text(&encoder.encode()), "\x1bPq\n\"1;1;0;7\n$$$$$$-$-\x1b\\\n");
}

#[test]
fn image_without_rows_has_no_bands() {
    let encoder = SixelEncoder::from_pixels(5, 0, &[], ColorMode::RGB);
    assert_eq!(text(&encoder.encode()), "\x1bPq\n\"1;1;5;0\n\x1b\\\n");
}

#[test]
fn bitmap_stream_has_width_before_height() {
    let mut image = bmp::Image::new(3, 2);
    image.set_pixel(0, 0, bmp::Pixel::new(255, 0, 0));
    image.set_pixel(2, 1, bmp::Pixel::new(255, 255, 255));
    let encoder = SixelEncoder::new(&image, ColorMode::RGB);
    assert_eq!(
        text(&encoder.encode()),
        "\x1bPq\n#0;2;100;0;0\n#1;2;0;0;0\n#2;2;100;100;100\n\"1;1;3;2\n$#0@#1@#1@$#1A#1A#2A-\x1b\\\n"
    );
}

#[test]
fn stream_is_ascii() {
    let mut pixels = Vec::new();
    for i in 0..(9 * 14) {
        pixels.push(px((i * 17 % 256) as u8, (i * 29 % 256) as u8, (i * 53 % 256) as u8));
    }
    for &mode in &[ColorMode::RGB, ColorMode::HSL] {
        let encoder = SixelEncoder::from_pixels(9, 14, &pixels, mode);
        let stream = encoder.encode();
        assert!(stream.iter().all(|&b| b < 128));
        assert_eq!(count(&stream, 27), 2);
        assert_eq!(&stream[..4], &[27, b'P', b'q', b'\n']);
        assert_eq!(&stream[stream.len() - 3..], &[27, b'\\', b'\n']);
    }
}
