use sixel_encoder::color::{Color, ColorMode, Pixel, BLUE_LEVELS, GREEN_LEVELS, RED_LEVELS};
use sixel_encoder::encoders::sixel::SixelEncoder;

fn float_percent(channel: u8, levels: u32) -> u8 {
    let range_length: f32 = 256_f32 / levels as f32;
    let smoothed = ((channel as i32 + 1) as f32 / range_length).round();
    let percentage = (smoothed / levels as f32) * 100_f32;
    percentage.floor() as u8
}

fn float_hsl(r: u8, g: u8, b: u8) -> (f64, f64, f64) {
    let r = r as f64 / 255.0;
    let g = g as f64 / 255.0;
    let b = b as f64 / 255.0;
    let c_max = r.max(g).max(b);
    let c_min = r.min(g).min(b);
    let delta = c_max - c_min;
    let l = (c_max + c_min) / 2.0;
    if delta.abs() < f64::EPSILON {
        return (0.0, 0.0, l * 100.0);
    }
    let h = if c_max == r {
        ((g - b) / delta).rem_euclid(6.0)
    } else if c_max == g {
        ((b - r) / delta) + 2.0
    } else {
        ((r - g) / delta) + 4.0
    };
    let s = delta / (1.0 - (2.0 * l - 1.0).abs());
    (h * 60.0, s * 100.0, l * 100.0)
}

#[test]
fn channel_levels_are_eight_eight_four() {
    assert_eq!(RED_LEVELS, 8);
    assert_eq!(GREEN_LEVELS, 8);
    assert_eq!(BLUE_LEVELS, 4);
}

#[test]
fn channel_to_percents_exact_values_for_eight_levels() {
    assert_eq!(SixelEncoder::channel_to_percents(0, 8), 0);
    assert_eq!(SixelEncoder::channel_to_percents(14, 8), 0);
    assert_eq!(SixelEncoder::channel_to_percents(15, 8), 12);
    assert_eq!(SixelEncoder::channel_to_percents(46, 8), 12);
    assert_eq!(SixelEncoder::channel_to_percents(47, 8), 25);
    assert_eq!(SixelEncoder::channel_to_percents(110, 8), 37);
    assert_eq!(SixelEncoder::channel_to_percents(111, 8), 50);
    assert_eq!(SixelEncoder::channel_to_percents(127, 8), 50);
    assert_eq!(SixelEncoder::channel_to_percents(128, 8), 50);
    assert_eq!(SixelEncoder::channel_to_percents(200, 8), 75);
    assert_eq!(SixelEncoder::channel_to_percents(238, 8), 87);
    assert_eq!(SixelEncoder::channel_to_percents(239, 8), 100);
    assert_eq!(SixelEncoder::channel_to_percents(255, 8), 100);
}

#[test]
fn channel_to_percents_exact_values_for_four_levels() {
    assert_eq!(SixelEncoder::channel_to_percents(0, 4), 0);
    assert_eq!(SixelEncoder::channel_to_percents(30, 4), 0);
    assert_eq!(SixelEncoder::channel_to_percents(31, 4), 25);
    assert_eq!(SixelEncoder::channel_to_percents(94, 4), 25);
    assert_eq!(SixelEncoder::channel_to_percents(95, 4), 50);
    assert_eq!(SixelEncoder::channel_to_percents(158, 4), 50);
    assert_eq!(SixelEncoder::channel_to_percents(159, 4), 75);
    assert_eq!(SixelEncoder::channel_to_percents(222, 4), 75);
    assert_eq!(SixelEncoder::channel_to_percents(223, 4), 100);
    assert_eq!(SixelEncoder::channel_to_percents(255, 4), 100);
}

#[test]
fn channel_to_percents_other_levels() {
    assert_eq!(SixelEncoder::channel_to_percents(0, 1), 0);
    assert_eq!(SixelEncoder::channel_to_percents(126, 1), 0);
    assert_eq!(SixelEncoder::channel_to_percents(127, 1), 100);
    assert_eq!(SixelEncoder::channel_to_percents(255, 1), 100);
    assert_eq!(SixelEncoder::channel_to_percents(0, 256), 0);
    assert_eq!(SixelEncoder::channel_to_percents(1, 256), 0);
    assert_eq!(SixelEncoder::channel_to_percents(2, 256), 1);
    assert_eq!(SixelEncoder::channel_to_percents(255, 256), 100);
    assert_eq!(SixelEncoder::channel_to_percents(63, 6), 33);
    assert_eq!(SixelEncoder::channel_to_percents(255, u32::MAX), 100);
    assert_eq!(SixelEncoder::channel_to_percents(0, u32::MAX), 0);
}

#[test]
fn channel_to_percents_agrees_with_floating_point_for_powers_of_two() {
    let mut levels: u32 = 1;
    while levels <= 256 {
        for channel in 0..=255u8 {
            assert_eq!(
                SixelEncoder::channel_to_percents(channel, levels),
                float_percent(channel, levels),
                "channel {} at {} levels",
                channel,
                levels
            );
        }
        levels *= 2;
    }
}

#[test]
fn channel_to_percents_is_monotonic_and_bounded() {
    for levels in 1..=300u32 {
        let mut previous = 0u8;
        for channel in 0..=255u8 {
            let percent = SixelEncoder::channel_to_percents(channel, levels);
            assert!(percent <= 100);
            assert!(previous <= percent, "channel {} at {} levels", channel, levels);
            previous = percent;
        }
    }
}

#[test]
fn channel_to_percents_is_deterministic() {
    for channel in 0..=255u8 {
        assert_eq!(
            SixelEncoder::channel_to_percents(channel, 8),
            SixelEncoder::channel_to_percents(channel, 8)
        );
    }
}

#[test]
fn rgb_to_percents_uses_fewer_levels_for_blue() {
    let pixel = Pixel { r: 47, g: 47, b: 47 };
    assert_eq!(SixelEncoder::rgb_to_percents(pixel), Color::RGB(25, 25, 25));
    let pixel = Pixel { r: 15, g: 15, b: 15 };
    assert_eq!(SixelEncoder::rgb_to_percents(pixel), Color::RGB(12, 12, 0));
    let pixel = Pixel { r: 255, g: 0, b: 0 };
    assert_eq!(SixelEncoder::rgb_to_percents(pixel), Color::RGB(100, 0, 0));
    let pixel = Pixel { r: 200, g: 110, b: 160 };
    assert_eq!(SixelEncoder::rgb_to_percents(pixel), Color::RGB(75, 37, 75));
}

#[test]
fn rgb_to_hsl_of_gray_has_no_saturation() {
    for v in 0..=255u8 {
        match SixelEncoder::rgb_to_hsl(Pixel { r: v, g: v, b: v }) {
            Color::HSL(h, s, l) => {
                assert_eq!(h, 0);
                assert_eq!(s, 0);
                assert_eq!(l as u32, (v as u32 * 200) / 510);
            }
            other => panic!("not an HSL colour: {:?}", other),
        }
    }
}

#[test]
fn rgb_to_hsl_of_pure_red() {
    let red = SixelEncoder::rgb_to_hsl(Pixel { r: 255, g: 0, b: 0 });
    assert_eq!(red, Color::HSL(0, 100, 50));
}

#[test]
fn rgb_to_hsl_of_primary_and_secondary_colours() {
    assert_eq!(SixelEncoder::rgb_to_hsl(Pixel { r: 255, g: 255, b: 0 }), Color::HSL(60, 100, 50));
    assert_eq!(SixelEncoder::rgb_to_hsl(Pixel { r: 0, g: 255, b: 0 }), Color::HSL(120, 100, 50));
    assert_eq!(SixelEncoder::rgb_to_hsl(Pixel { r: 0, g: 255, b: 255 }), Color::HSL(180, 100, 50));
    assert_eq!(SixelEncoder::rgb_to_hsl(Pixel { r: 0, g: 0, b: 255 }), Color::HSL(240, 100, 50));
    assert_eq!(SixelEncoder::rgb_to_hsl(Pixel { r: 255, g: 0, b: 255 }), Color::HSL(300, 100, 50));
    assert_eq!(SixelEncoder::rgb_to_hsl(Pixel { r: 0, g: 0, b: 0 }), Color::HSL(0, 0, 0));
    assert_eq!(SixelEncoder::rgb_to_hsl(Pixel { r: 255, g: 255, b: 255 }), Color::HSL(0, 0, 100));
}

#[test]
fn rgb_to_hsl_rounds_down() {
    // hue 329.88, saturation 100, lightness 50
    assert_eq!(SixelEncoder::rgb_to_hsl(Pixel { r: 255, g: 0, b: 128 }), Color::HSL(329, 100, 50));
    // hue 210, saturation 50.4, lightness 49.4
    assert_eq!(SixelEncoder::rgb_to_hsl(Pixel { r: 63, g: 126, b: 189 }), Color::HSL(210, 50, 49));
    // hue 27.2, saturation 56.3, lightness 62.4
    assert_eq!(SixelEncoder::rgb_to_hsl(Pixel { r: 213, g: 155, b: 105 }), Color::HSL(27, 56, 62));
    // hue 359.76, just below a full turn
    assert_eq!(SixelEncoder::rgb_to_hsl(Pixel { r: 255, g: 0, b: 1 }), Color::HSL(359, 100, 50));
}

#[test]
fn rgb_to_hsl_stays_in_range_and_close_to_floating_point() {
    let mut r = 0u32;
    while r <= 255 {
        let mut g = 0u32;
        while g <= 255 {
            let mut b = 0u32;
            while b <= 255 {
                let pixel = Pixel { r: r as u8, g: g as u8, b: b as u8 };
                match SixelEncoder::rgb_to_hsl(pixel) {
                    Color::HSL(h, s, l) => {
                        assert!(h < 360);
                        assert!(s <= 100);
                        assert!(l <= 100);
                        let (fh, fs, fl) = float_hsl(r as u8, g as u8, b as u8);
                        let dh = (h as f64 - fh).abs();
                        assert!(dh <= 1.0 || dh >= 359.0, "hue of {:?}", pixel);
                        assert!((s as f64 - fs).abs() <= 1.0, "saturation of {:?}", pixel);
                        assert!((l as f64 - fl).abs() <= 1.0, "lightness of {:?}", pixel);
                    }
                    other => panic!("not an HSL colour: {:?}", other),
                }
                b += 5;
            }
            g += 5;
        }
        r += 5;
    }
}

#[test]
fn quantize_pixel_follows_the_mode() {
    let pixel = Pixel { r: 255, g: 0, b: 0 };
    assert_eq!(SixelEncoder::quantize_pixel(pixel, ColorMode::RGB), Color::RGB(100, 0, 0));
    assert_eq!(SixelEncoder::quantize_pixel(pixel, ColorMode::HSL), Color::HSL(0, 100, 50));
}

#[test]
fn colours_of_different_spaces_are_never_equal() {
    assert_ne!(Color::RGB(0, 0, 0), Color::HSL(0, 0, 0));
    assert_eq!(Color::RGB(1, 2, 3), Color::RGB(1, 2, 3));
    assert_ne!(Color::RGB(1, 2, 3), Color::RGB(1, 2, 4));
    assert_ne!(Color::HSL(1, 2, 3), Color::HSL(1, 3, 2));
}
