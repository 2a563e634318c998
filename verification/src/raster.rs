//! Reading the pixels out of a decoded bitmap.
//!
//! The bitmap is a `bmp::Image`. Nothing of it is visible to the verifier, so
//! what its accessors report is given names here, and the contracts of the
//! encoder speak of an image through those names.

use vstd::prelude::*;
use bmp::Image;
use crate::color::Pixel;

verus! {

/// `bmp::Image`, a decoded bitmap, carried as an opaque value.
#[verifier::external_type_specification]
#[verifier::external_body]
pub struct ExImage(bmp::Image);

/// The width of an image in pixels, as `bmp::Image::get_width` reports it.
pub uninterp spec fn image_width(image: Image) -> u32;

/// The height of an image in pixels, as `bmp::Image::get_height` reports it.
pub uninterp spec fn image_height(image: Image) -> u32;

/// The red, green and blue sample of the pixel in column `x` of row `y`, row
/// 0 being the top one, as `bmp::Image::get_pixel` reports them.
pub uninterp spec fn image_pixel(image: Image, x: u32, y: u32) -> (u8, u8, u8);

/// `bmp::Image::get_width` returns the stored width. Unproved: that it is a
/// function of the image, which the name `image_width` says.
pub assume_specification[ bmp::Image::get_width ](image: &Image) -> (width: u32)
    ensures
        width == image_width(*image),
;

/// `bmp::Image::get_height` returns the stored height. Unproved: that it is a
/// function of the image, which the name `image_height` says.
pub assume_specification[ bmp::Image::get_height ](image: &Image) -> (height: u32)
    ensures
        height == image_height(*image),
;

/// The image has few enough pixels for `bmp` to address them: it computes
/// pixel positions in 32 bits.
pub open spec fn is_addressable(image: Image) -> bool {
    image_width(image) * image_height(image) <= u32::MAX
}

/// The pixel in column `x` of row `y`.
pub open spec fn pixel_of(image: Image, x: u32, y: u32) -> Pixel {
    let samples = image_pixel(image, x, y);
    Pixel { r: samples.0, g: samples.1, b: samples.2 }
}

/// The coordinates of an image in raster order: row by row from the top, each
/// row from the left.
pub open spec fn raster_order(width: u32, height: u32) -> Seq<(u32, u32)> {
    Seq::new((width * height) as nat, |i: int| ((i % width as int) as u32, (i / width as int) as u32))
}

/// The pixels of an image in raster order.
pub open spec fn image_raster(image: Image) -> Seq<Pixel> {
    Seq::new(
        (image_width(image) * image_height(image)) as nat,
        |i: int|
            pixel_of(
                image,
                (i % image_width(image) as int) as u32,
                (i / image_width(image) as int) as u32,
            ),
    )
}

/// Calls `bmp::Image::get_pixel` and hands its three samples on. Unproved:
/// that the call returns, which `bmp` does for a column and a row inside an
/// image whose pixel positions fit in 32 bits, and that its result is a
/// function of the image and the coordinates.
#[verifier::external_body]
fn pixel_at(image: &Image, x: u32, y: u32) -> (pixel: Pixel)
    requires
        x < image_width(*image),
        y < image_height(*image),
        is_addressable(*image),
    ensures
        (pixel.r, pixel.g, pixel.b) == image_pixel(*image, x, y),
{
    let pixel = image.get_pixel(x, y);
    Pixel { r: pixel.r, g: pixel.g, b: pixel.b }
}

/// Collects what `bmp::Image::coordinates` iterates over. Unproved: that the
/// iterator yields every coordinate of the image once, row by row from the
/// top and each row from the left, as its `next` is written.
#[verifier::external_body]
fn coordinates(image: &Image) -> (coords: Vec<(u32, u32)>)
    requires
        image_width(*image) * image_height(*image) <= usize::MAX,
    ensures
        coords@ == raster_order(image_width(*image), image_height(*image)),
{
    image.coordinates().collect()
}

/// In raster order, position `i` lies in column `i % width` of row
/// `i / width`, and both are inside the image.
pub proof fn lemma_raster_position(width: int, height: int, i: int)
    requires
        0 <= i < width * height,
        0 <= width,
        0 <= height,
    ensures
        width > 0,
        0 <= i % width < width,
        0 <= i / width < height,
        (i / width) * width + i % width == i,
{
    assert(width > 0) by (nonlinear_arith)
        requires
            0 <= i < width * height,
            0 <= width,
    ;
    vstd::arithmetic::div_mod::lemma_fundamental_div_mod(i, width);
    vstd::arithmetic::div_mod::lemma_mod_bound(i, width);
    let row = i / width;
    assert(0 <= row < height) by (nonlinear_arith)
        requires
            0 <= i < width * height,
            width > 0,
            i == width * row + i % width,
            0 <= i % width < width,
    ;
    assert(row * width == width * row) by (nonlinear_arith);
}

/// Reads all the pixels of an image, in raster order.
pub fn read_pixels(image: &Image) -> (pixels: Vec<Pixel>)
    requires
        is_addressable(*image),
    ensures
        pixels@ == image_raster(*image),
{
    let coords = coordinates(image);
    let mut pixels: Vec<Pixel> = Vec::new();
    let mut i: usize = 0;
    while i < coords.len()
        invariant
            is_addressable(*image),
            coords@ == raster_order(image_width(*image), image_height(*image)),
            i <= coords@.len(),
            pixels@ == image_raster(*image).take(i as int),
        decreases coords@.len() - i,
    {
        let (x, y) = coords[i];
        proof {
            lemma_raster_position(
                image_width(*image) as int,
                image_height(*image) as int,
                i as int,
            );
        }
        let pixel = pixel_at(image, x, y);
        pixels.push(pixel);
        proof {
            assert(pixels@ =~= image_raster(*image).take(i + 1));
        }
        i += 1;
    }
    proof {
        assert(pixels@ =~= image_raster(*image));
    }
    pixels
}

} // verus!
