//! The colour model: raw pixels, quantized colours, and the arithmetic that
//! leads from the first to the second.

use vstd::prelude::*;

verus! {

/// Number of buckets into which the red channel is quantized.
pub const RED_LEVELS: u32 = 8;

/// Number of buckets into which the green channel is quantized.
pub const GREEN_LEVELS: u32 = 8;

/// Number of buckets into which the blue channel is quantized. The eye tells
/// fewer shades of blue apart, so blue gets fewer buckets.
pub const BLUE_LEVELS: u32 = 4;

/// One raw pixel: three independent 8-bit samples.
#[derive(Clone, Copy, Debug, PartialEq, Eq, Structural)]
pub struct Pixel {
    pub r: u8,
    pub g: u8,
    pub b: u8,
}

/// The colour space in which the palette of an image is expressed.
#[derive(Clone, Copy, Debug, PartialEq, Eq, Structural)]
pub enum ColorMode {
    RGB,
    HSL,
}

/// A quantized colour, as it is stored in a palette.
///
/// `RGB(r, g, b)` holds three percentages. `HSL(h, s, l)` holds a hue in
/// degrees and two percentages. Two colours are equal when they are the same
/// variant with the same components.
#[derive(Clone, Copy, Debug, PartialEq, Eq, Structural)]
pub enum Color {
    RGB(u8, u8, u8),
    HSL(u16, u8, u8),
}

impl Color {
    /// Every percentage is at most 100 and a hue is below 360.
    pub open spec fn in_range(self) -> bool {
        match self {
            Color::RGB(r, g, b) => r <= 100 && g <= 100 && b <= 100,
            Color::HSL(h, s, l) => h < 360 && s <= 100 && l <= 100,
        }
    }
}

/// The bucket of a channel sample: `(channel + 1) * levels / 256`, rounded to
/// the nearest integer, halves upwards.
pub open spec fn bucket_of_channel(channel: int, levels: int) -> int {
    ((channel + 1) * levels + 128) / 256
}

/// The percentage that stands for a channel sample: its bucket as a share of
/// `levels`, in percent, rounded down.
pub open spec fn percent_of_channel(channel: int, levels: int) -> int {
    bucket_of_channel(channel, levels) * 100 / levels
}

/// The largest of three samples.
pub open spec fn max3(r: int, g: int, b: int) -> int {
    if r >= g && r >= b {
        r
    } else if g >= b {
        g
    } else {
        b
    }
}

/// The smallest of three samples.
pub open spec fn min3(r: int, g: int, b: int) -> int {
    if r <= g && r <= b {
        r
    } else if g <= b {
        g
    } else {
        b
    }
}

/// Position on the colour wheel, in sixths of a turn scaled by the spread
/// `delta` of the samples: the hue is this number times 60 over `delta`.
///
/// Red leads at 0 (wrapping round below it), green at 2, blue at 4. Where two
/// samples share the maximum, red goes before green and green before blue.
pub open spec fn scaled_sextant(r: int, g: int, b: int) -> int {
    let hi = max3(r, g, b);
    let delta = hi - min3(r, g, b);
    if hi == r {
        if g >= b {
            g - b
        } else {
            g - b + 6 * delta
        }
    } else if hi == g {
        b - r + 2 * delta
    } else {
        r - g + 4 * delta
    }
}

/// Hue of a pixel in whole degrees, rounded down; 0 for a gray pixel.
pub open spec fn hue_of_rgb(r: int, g: int, b: int) -> int {
    let delta = max3(r, g, b) - min3(r, g, b);
    if delta == 0 {
        0
    } else {
        60 * scaled_sextant(r, g, b) / delta
    }
}

/// Twice the lightness of a pixel on the scale of the samples: the sum of its
/// largest and its smallest sample, between 0 and 510.
pub open spec fn double_lightness(r: int, g: int, b: int) -> int {
    max3(r, g, b) + min3(r, g, b)
}

/// Lightness of a pixel in whole percent, rounded down.
pub open spec fn lightness_of_rgb(r: int, g: int, b: int) -> int {
    100 * double_lightness(r, g, b) / 510
}

/// Saturation of a pixel in whole percent, rounded down; 0 for a gray pixel.
///
/// The spread of the samples is divided by `1 - |2 * lightness - 1|`, which
/// on the scale of the samples is the distance of the doubled lightness from
/// the nearer end of its range.
pub open spec fn saturation_of_rgb(r: int, g: int, b: int) -> int {
    let delta = max3(r, g, b) - min3(r, g, b);
    let sum = double_lightness(r, g, b);
    if delta == 0 {
        0
    } else if sum <= 255 {
        100 * delta / sum
    } else {
        100 * delta / (510 - sum)
    }
}

/// The HSL colour of a pixel.
pub open spec fn hsl_of_rgb(r: int, g: int, b: int) -> Color {
    Color::HSL(
        hue_of_rgb(r, g, b) as u16,
        saturation_of_rgb(r, g, b) as u8,
        lightness_of_rgb(r, g, b) as u8,
    )
}

/// The RGB colour of a pixel: each channel as a percentage.
pub open spec fn percents_of_rgb(r: int, g: int, b: int) -> Color {
    Color::RGB(
        percent_of_channel(r, RED_LEVELS as int) as u8,
        percent_of_channel(g, GREEN_LEVELS as int) as u8,
        percent_of_channel(b, BLUE_LEVELS as int) as u8,
    )
}

/// The palette colour of a pixel in the given mode.
pub open spec fn quantize(pixel: Pixel, mode: ColorMode) -> Color {
    match mode {
        ColorMode::RGB => percents_of_rgb(pixel.r as int, pixel.g as int, pixel.b as int),
        ColorMode::HSL => hsl_of_rgb(pixel.r as int, pixel.g as int, pixel.b as int),
    }
}

/// The palette colours of a run of pixels, pixel by pixel.
pub open spec fn quantize_all(pixels: Seq<Pixel>, mode: ColorMode) -> Seq<Color> {
    Seq::new(pixels.len(), |i: int| quantize(pixels[i], mode))
}

/// A channel's bucket lies between 0 and `levels`.
pub proof fn lemma_bucket_bounds(channel: int, levels: int)
    requires
        0 <= channel <= 255,
        levels > 0,
    ensures
        0 <= bucket_of_channel(channel, levels) <= levels,
{
    assert(0 <= (channel + 1) * levels <= 256 * levels) by (nonlinear_arith)
        requires
            0 <= channel <= 255,
            levels > 0,
    ;
}

/// A channel's percentage lies between 0 and 100.
pub proof fn lemma_percent_bounds(channel: int, levels: int)
    requires
        0 <= channel <= 255,
        levels > 0,
    ensures
        0 <= percent_of_channel(channel, levels) <= 100,
{
    lemma_bucket_bounds(channel, levels);
    let bucket = bucket_of_channel(channel, levels);
    assert(0 <= bucket * 100 / levels <= 100) by (nonlinear_arith)
        requires
            0 <= bucket <= levels,
            levels > 0,
    ;
}

/// Quantization is monotonic: for a fixed number of levels, a larger sample
/// never gets a smaller percentage, and equal samples get the same.
pub proof fn lemma_percent_monotonic(low: int, high: int, levels: int)
    requires
        0 <= low <= high,
        levels > 0,
    ensures
        bucket_of_channel(low, levels) <= bucket_of_channel(high, levels),
        percent_of_channel(low, levels) <= percent_of_channel(high, levels),
        low == high ==> percent_of_channel(low, levels) == percent_of_channel(high, levels),
{
    assert((low + 1) * levels <= (high + 1) * levels) by (nonlinear_arith)
        requires
            0 <= low <= high,
            levels > 0,
    ;
    let lo = bucket_of_channel(low, levels);
    let hi = bucket_of_channel(high, levels);
    assert(lo <= hi);
    assert(lo * 100 / levels <= hi * 100 / levels) by (nonlinear_arith)
        requires
            lo <= hi,
            levels > 0,
    ;
}

/// A gray pixel has no hue and no saturation, whatever its lightness.
pub proof fn lemma_gray_is_unsaturated(v: int)
    ensures
        hue_of_rgb(v, v, v) == 0,
        saturation_of_rgb(v, v, v) == 0,
        double_lightness(v, v, v) == 2 * v,
{
}

/// The components of a pixel's HSL colour are in range: the hue is below 360
/// degrees, saturation and lightness are at most 100 percent.
pub proof fn lemma_hsl_bounds(r: int, g: int, b: int)
    requires
        0 <= r <= 255,
        0 <= g <= 255,
        0 <= b <= 255,
    ensures
        0 <= hue_of_rgb(r, g, b) < 360,
        0 <= saturation_of_rgb(r, g, b) <= 100,
        0 <= lightness_of_rgb(r, g, b) <= 100,
        hsl_of_rgb(r, g, b).in_range(),
{
    let hi = max3(r, g, b);
    let lo = min3(r, g, b);
    let delta = hi - lo;
    let sum = hi + lo;
    if delta != 0 {
        let sextant = scaled_sextant(r, g, b);
        assert(0 <= sextant < 6 * delta);
        assert(0 <= 60 * sextant / delta < 360) by (nonlinear_arith)
            requires
                0 <= sextant < 6 * delta,
                delta > 0,
        ;
        let span = if sum <= 255 {
            sum
        } else {
            510 - sum
        };
        assert(0 < delta <= span);
        assert(0 <= 100 * delta / span <= 100) by (nonlinear_arith)
            requires
                0 < delta <= span,
        ;
    }
}

} // verus!
