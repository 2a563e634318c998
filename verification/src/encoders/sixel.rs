//! The sixel encoder: the palette and the colour-index map of an image, and
//! the stream that renders them.

use vstd::prelude::*;
use bmp::Image;
use crate::color::{
    hsl_of_rgb, lemma_bucket_bounds, lemma_hsl_bounds, lemma_percent_bounds, percent_of_channel,
    percents_of_rgb, quantize, quantize_all, Color, ColorMode, Pixel, BLUE_LEVELS, GREEN_LEVELS,
    RED_LEVELS,
};
use crate::palette::{indexes, is_indexing, lemma_indexing_well_formed, palette_of};
use crate::protocol::{
    band_count, enter_sequence, leading_bands, palette_section, sixel_stream, write_band,
    write_palette_entry, write_raster_attributes, ESC, INTRODUCER, LINE_FEED, SIXEL_MODE,
    TERMINATOR,
};
use crate::raster::{image_height, image_raster, image_width, is_addressable, read_pixels};

verus! {

/// An image made ready for sixel output: its palette, and for every pixel the
/// index of its colour in the palette.
pub struct SixelEncoder {
    color_palette: Vec<Color>,
    image_color_map: Vec<usize>,
    width: usize,
    height: usize,
}

/// What an encoder holds, as mathematical values.
pub struct SixelEncoderView {
    /// The distinct colours of the image, in the order of first appearance.
    pub palette: Seq<Color>,
    /// For every pixel, in raster order, the palette index of its colour.
    pub color_map: Seq<usize>,
    /// Columns of the image.
    pub width: nat,
    /// Rows of the image.
    pub height: nat,
}

impl SixelEncoderView {
    /// The map has one entry for every pixel, every entry is a position of
    /// the palette, no colour stands twice in the palette, and the palette
    /// has no more entries than the image has pixels.
    pub open spec fn well_formed(self) -> bool {
        &&& self.color_map.len() == self.width * self.height
        &&& forall|i: int|
            0 <= i < self.color_map.len() ==> (#[trigger] self.color_map[i]) < self.palette.len()
        &&& self.palette.no_duplicates()
        &&& self.palette.len() <= self.color_map.len()
    }

    /// The encoder state that scanning the given pixels in the given mode
    /// leads to: the palette holds the quantized colours of the pixels in the
    /// order of first appearance, and the map leads from every pixel to its
    /// colour.
    pub open spec fn is_scan_of(
        self,
        width: nat,
        height: nat,
        pixels: Seq<Pixel>,
        mode: ColorMode,
    ) -> bool {
        &&& self.width == width
        &&& self.height == height
        &&& is_indexing(quantize_all(pixels, mode), self.palette, self.color_map)
    }

    /// The stream that renders the image.
    pub open spec fn stream(self) -> Seq<u8> {
        sixel_stream(self.palette, self.color_map, self.width, self.height)
    }
}

impl View for SixelEncoder {
    type V = SixelEncoderView;

    closed spec fn view(&self) -> SixelEncoderView {
        SixelEncoderView {
            palette: self.color_palette@,
            color_map: self.image_color_map@,
            width: self.width as nat,
            height: self.height as nat,
        }
    }
}

/// Scanning is a function of the image: two encoder states that come from
/// scanning the same pixels in the same mode have the same palette, in the
/// same order, and the same colour-index map, and so render the same stream.
pub proof fn lemma_rescan_identical(
    first: SixelEncoderView,
    second: SixelEncoderView,
    width: nat,
    height: nat,
    pixels: Seq<Pixel>,
    mode: ColorMode,
)
    requires
        first.is_scan_of(width, height, pixels, mode),
        second.is_scan_of(width, height, pixels, mode),
    ensures
        first.palette == second.palette,
        first.color_map == second.color_map,
        first == second,
        first.stream() == second.stream(),
{
    crate::palette::lemma_indexing_unique(
        quantize_all(pixels, mode),
        first.palette,
        first.color_map,
        second.palette,
        second.color_map,
    );
}

/// The state that a scan of `width * height` pixels leads to is well formed.
pub proof fn lemma_scan_well_formed(
    state: SixelEncoderView,
    width: nat,
    height: nat,
    pixels: Seq<Pixel>,
    mode: ColorMode,
)
    requires
        state.is_scan_of(width, height, pixels, mode),
        pixels.len() == width * height,
    ensures
        state.well_formed(),
{
    lemma_indexing_well_formed(quantize_all(pixels, mode), state.palette, state.color_map);
}

impl SixelEncoder {
    #[verifier::type_invariant]
    closed spec fn wf(self) -> bool {
        self@.well_formed()
    }

    /// Scans a decoded bitmap: quantizes every pixel in the given mode and
    /// builds the palette and the colour-index map.
    pub fn new(image: &Image, mode: ColorMode) -> (encoder: Self)
        requires
            is_addressable(*image),
        ensures
            encoder@.is_scan_of(
                image_width(*image) as nat,
                image_height(*image) as nat,
                image_raster(*image),
                mode,
            ),
            encoder@.well_formed(),
    {
        let width = image.get_width() as usize;
        let height = image.get_height() as usize;
        let pixels = read_pixels(image);
        Self::from_pixels(width, height, pixels.as_slice(), mode)
    }

    /// Scans a decoded bitmap as `new` does, if the bitmap has few enough
    /// pixels for its pixel positions to fit in 32 bits, and returns `None`
    /// if it has not.
    pub fn try_new(image: &Image, mode: ColorMode) -> (encoder: Option<Self>)
        ensures
            encoder.is_some() <==> is_addressable(*image),
            encoder matches Some(e) ==> e@.is_scan_of(
                image_width(*image) as nat,
                image_height(*image) as nat,
                image_raster(*image),
                mode,
            ) && e@.well_formed(),
    {
        let width = image.get_width() as u64;
        let height = image.get_height() as u64;
        assert(width * height <= 0xFFFF_FFFF * 0xFFFF_FFFF) by (nonlinear_arith)
            requires
                width <= 0xFFFF_FFFF,
                height <= 0xFFFF_FFFF,
        ;
        if width * height <= u32::MAX as u64 {
            Some(Self::new(image, mode))
        } else {
            None
        }
    }

    /// Scans `width * height` pixels given in raster order: quantizes every
    /// pixel in the given mode and builds the palette and the colour-index
    /// map.
    pub fn from_pixels(width: usize, height: usize, pixels: &[Pixel], mode: ColorMode) -> (encoder:
        Self)
        requires
            pixels@.len() == width * height,
        ensures
            encoder@.is_scan_of(width as nat, height as nat, pixels@, mode),
            encoder@.well_formed(),
    {
        let (color_palette, image_color_map) = Self::generate_image_color_map(pixels, mode);
        proof {
            lemma_indexing_well_formed(
                quantize_all(pixels@, mode),
                color_palette@,
                image_color_map@,
            );
        }
        SixelEncoder { color_palette, image_color_map, width, height }
    }

    /// The palette: the distinct colours of the image, in the order of first
    /// appearance.
    pub fn color_palette(&self) -> (palette: &Vec<Color>)
        ensures
            palette@ == self@.palette,
            self@.well_formed(),
    {
        proof {
            use_type_invariant(self);
        }
        &self.color_palette
    }

    /// The colour-index map: for every pixel, in raster order, the palette
    /// index of its colour.
    pub fn image_color_map(&self) -> (color_map: &Vec<usize>)
        ensures
            color_map@ == self@.color_map,
            self@.well_formed(),
    {
        proof {
            use_type_invariant(self);
        }
        &self.image_color_map
    }

    /// Columns of the image.
    pub fn width(&self) -> (width: usize)
        ensures
            width == self@.width,
    {
        self.width
    }

    /// Rows of the image.
    pub fn height(&self) -> (height: usize)
        ensures
            height == self@.height,
    {
        self.height
    }

    /// Renders the image: the enter sequence, the palette, the raster
    /// attributes, the bands and the exit sequence.
    pub fn encode(&self) -> (stream: Vec<u8>)
        ensures
            stream@ == self@.stream(),
            self@.well_formed(),
    {
        proof {
            use_type_invariant(self);
        }
        let mut out: Vec<u8> = Vec::new();
        out.push(ESC);
        out.push(INTRODUCER);
        out.push(SIXEL_MODE);
        out.push(LINE_FEED);
        assert(out@ =~= enter_sequence());

        let mut index: usize = 0;
        while index < self.color_palette.len()
            invariant
                index <= self.color_palette@.len(),
                out@ == enter_sequence() + palette_section(self.color_palette@.take(index as int)),
            decreases self.color_palette@.len() - index,
        {
            write_palette_entry(&mut out, index, self.color_palette[index]);
            proof {
                let defined = self.color_palette@.take(index + 1);
                assert(defined.drop_last() =~= self.color_palette@.take(index as int));
                assert(out@ =~= enter_sequence() + palette_section(defined));
            }
            index += 1;
        }
        assert(self.color_palette@.take(index as int) =~= self.color_palette@);

        write_raster_attributes(&mut out, self.width, self.height);
        let ghost head = out@;

        let full_bands = self.height / 6;
        let bands = if self.height % 6 == 0 {
            full_bands
        } else {
            full_bands + 1
        };
        let mut band: usize = 0;
        while band < bands
            invariant
                band <= bands,
                bands == band_count(self.height as nat),
                self.image_color_map@.len() == self.width * self.height,
                out@ == head + leading_bands(
                    self.image_color_map@,
                    self.width as nat,
                    self.height as nat,
                    band as nat,
                ),
            decreases bands - band,
        {
            let top = band * 6;
            write_band(&mut out, &self.image_color_map, self.width, self.height, top);
            proof {
                assert(out@ =~= head + leading_bands(
                    self.image_color_map@,
                    self.width as nat,
                    self.height as nat,
                    (band + 1) as nat,
                ));
            }
            band += 1;
        }

        out.push(ESC);
        out.push(TERMINATOR);
        out.push(LINE_FEED);
        proof {
            assert(out@ =~= self@.stream());
        }
        out
    }

    /// Indexes the pixels: quantizes each of them in raster order and looks
    /// its colour up in the palette so far. A colour that is found gives its
    /// index; one that is not is appended and gives the new last index.
    fn generate_image_color_map(pixels: &[Pixel], mode: ColorMode) -> (indexing: (
        Vec<Color>,
        Vec<usize>,
    ))
        ensures
            is_indexing(quantize_all(pixels@, mode), indexing.0@, indexing.1@),
    {
        let ghost colors = quantize_all(pixels@, mode);
        let mut color_palette: Vec<Color> = Vec::new();
        let mut image_color_map: Vec<usize> = Vec::new();
        let mut i: usize = 0;
        while i < pixels.len()
            invariant
                i <= pixels@.len(),
                colors == quantize_all(pixels@, mode),
                color_palette@ == palette_of(colors.take(i as int)),
                indexes(image_color_map@, color_palette@, colors.take(i as int)),
            decreases pixels@.len() - i,
        {
            let color = Self::quantize_pixel(pixels[i], mode);
            let ghost seen = colors.take(i as int);
            let ghost next = colors.take(i + 1);
            proof {
                assert(next.drop_last() =~= seen);
                assert(next.last() == color);
            }
            match Self::position(&color_palette, color) {
                Some(color_index) => {
                    image_color_map.push(color_index);
                },
                None => {
                    color_palette.push(color);
                    image_color_map.push(color_palette.len() - 1);
                },
            }
            proof {
                assert(color_palette@ == palette_of(next));
                assert forall|k: int| 0 <= k < next.len() implies (#[trigger] image_color_map@[k])
                    < color_palette@.len() && color_palette@[image_color_map@[k] as int]
                    == next[k] by {
                    if k < i {
                        assert(seen[k] == next[k]);
                    }
                }
            }
            i += 1;
        }
        proof {
            assert(colors.take(i as int) =~= colors);
        }
        (color_palette, image_color_map)
    }

    /// Where `color` stands in `palette`, if it does.
    fn position(palette: &Vec<Color>, color: Color) -> (found: Option<usize>)
        ensures
            match found {
                Some(index) => index < palette@.len() && palette@[index as int] == color,
                None => !palette@.contains(color),
            },
    {
        let mut index: usize = 0;
        while index < palette.len()
            invariant
                index <= palette@.len(),
                forall|k: int| 0 <= k < index ==> palette@[k] != color,
            decreases palette@.len() - index,
        {
            if palette[index] == color {
                return Some(index);
            }
            index += 1;
        }
        None
    }

    /// The palette colour of a pixel in the given mode.
    pub fn quantize_pixel(pixel: Pixel, mode: ColorMode) -> (color: Color)
        ensures
            color == quantize(pixel, mode),
            color.in_range(),
    {
        match mode {
            ColorMode::RGB => Self::rgb_to_percents(pixel),
            ColorMode::HSL => Self::rgb_to_hsl(pixel),
        }
    }

    /// The RGB colour of a pixel: red and green in eight levels, blue in
    /// four, each as a percentage.
    pub fn rgb_to_percents(pixel: Pixel) -> (color: Color)
        ensures
            color == percents_of_rgb(pixel.r as int, pixel.g as int, pixel.b as int),
            color.in_range(),
    {
        Color::RGB(
            Self::channel_to_percents(pixel.r, RED_LEVELS),
            Self::channel_to_percents(pixel.g, GREEN_LEVELS),
            Self::channel_to_percents(pixel.b, BLUE_LEVELS),
        )
    }

    /// The HSL colour of a pixel: hue in whole degrees, saturation and
    /// lightness in whole percent, each rounded down.
    pub fn rgb_to_hsl(pixel: Pixel) -> (color: Color)
        ensures
            color == hsl_of_rgb(pixel.r as int, pixel.g as int, pixel.b as int),
            color.in_range(),
    {
        let r = pixel.r as u32;
        let g = pixel.g as u32;
        let b = pixel.b as u32;
        let hi = if r >= g && r >= b {
            r
        } else if g >= b {
            g
        } else {
            b
        };
        let lo = if r <= g && r <= b {
            r
        } else if g <= b {
            g
        } else {
            b
        };
        proof {
            lemma_hsl_bounds(r as int, g as int, b as int);
        }
        let delta = hi - lo;
        let sum = hi + lo;
        let lightness = 100 * sum / 510;
        if delta == 0 {
            return Color::HSL(0, 0, lightness as u8);
        }
        let span = if sum <= 255 {
            sum
        } else {
            510 - sum
        };
        let saturation = 100 * delta / span;
        let sextant = if hi == r {
            if g >= b {
                g - b
            } else {
                6 * delta + g - b
            }
        } else if hi == g {
            2 * delta + b - r
        } else {
            4 * delta + r - g
        };
        let hue = 60 * sextant / delta;
        Color::HSL(hue as u16, saturation as u8, lightness as u8)
    }

    /// The percentage that stands for a channel sample when the channel is
    /// quantized to `levels` buckets.
    pub fn channel_to_percents(channel: u8, levels: u32) -> (percent: u8)
        requires
            levels > 0,
        ensures
            percent == percent_of_channel(channel as int, levels as int),
            percent <= 100,
    {
        proof {
            lemma_bucket_bounds(channel as int, levels as int);
            lemma_percent_bounds(channel as int, levels as int);
            assert((channel + 1) * levels <= 256 * levels) by (nonlinear_arith)
                requires
                    0 <= channel <= 255,
                    levels > 0,
            ;
        }
        let scaled: u64 = (channel as u64 + 1) * (levels as u64);
        let bucket: u64 = (scaled + 128) / 256;
        let percent: u64 = bucket * 100 / (levels as u64);
        percent as u8
    }
}

} // verus!
