//! The byte grammar of a sixel stream, and the writers of its parts.
//!
//! A stream is the enter sequence, one definition line per palette entry, the
//! raster attributes, the pixel bands, and the exit sequence. A band covers
//! six rows of the image (the last one possibly fewer). Within a band every
//! row is written in a pass of its own, which starts by returning to the
//! band's first column and sets, column by column, the one bit that belongs to
//! that row; the terminal adds the passes up.

use vstd::prelude::*;
use crate::color::Color;

verus! {

/// The escape byte that opens the enter and the exit sequence.
pub const ESC: u8 = 27;

/// The line break that ends a line of the stream.
pub const LINE_FEED: u8 = 10;

/// `"`, which opens the raster attributes.
pub const QUOTE: u8 = 34;

/// `#`, which opens a palette definition and selects a palette entry.
pub const SELECT: u8 = 35;

/// `$`, which returns to the first column of the current band.
pub const BAND_RESET: u8 = 36;

/// `-`, which moves on to the next band.
pub const LINE_ADVANCE: u8 = 45;

/// `0`, the first of the ASCII digits.
pub const DIGIT_ZERO: u8 = 48;

/// `1`, the colour space of an HSL entry and the two parts of the aspect ratio.
pub const DIGIT_ONE: u8 = 49;

/// `2`, the colour space of an RGB entry.
pub const DIGIT_TWO: u8 = 50;

/// `;`, which separates the fields of a line.
pub const SEPARATOR: u8 = 59;

/// `?`, the sixel character with no bit set; the others follow it.
pub const SIXEL_BASE: u8 = 0x3F;

/// `P`, which after the escape byte introduces a device control string.
pub const INTRODUCER: u8 = 80;

/// `\`, which after the escape byte terminates a device control string.
pub const TERMINATOR: u8 = 92;

/// `q`, which selects sixel mode.
pub const SIXEL_MODE: u8 = 113;

/// The ASCII digit for a number below ten.
pub open spec fn digit(d: nat) -> u8 {
    (DIGIT_ZERO + d) as u8
}

/// A number in decimal, without sign or leading zeros.
pub open spec fn decimal(n: nat) -> Seq<u8>
    decreases n,
{
    if n < 10 {
        seq![digit(n)]
    } else {
        decimal(n / 10).push(digit(n % 10))
    }
}

/// `ESC P q` and a line break: enters sixel mode.
pub open spec fn enter_sequence() -> Seq<u8> {
    seq![ESC, INTRODUCER, SIXEL_MODE, LINE_FEED]
}

/// `ESC \` and a line break: leaves sixel mode.
pub open spec fn exit_sequence() -> Seq<u8> {
    seq![ESC, TERMINATOR, LINE_FEED]
}

/// The colour space of a palette entry and its three components: `2;r;g;b`
/// for an RGB colour, `1;h;l;s` for an HSL colour, lightness before
/// saturation.
pub open spec fn color_fields(color: Color) -> Seq<u8> {
    match color {
        Color::RGB(r, g, b) => seq![DIGIT_TWO, SEPARATOR] + decimal(r as nat) + seq![SEPARATOR] + decimal(
            g as nat,
        ) + seq![SEPARATOR] + decimal(b as nat),
        Color::HSL(h, s, l) => seq![DIGIT_ONE, SEPARATOR] + decimal(h as nat) + seq![SEPARATOR] + decimal(
            l as nat,
        ) + seq![SEPARATOR] + decimal(s as nat),
    }
}

/// The definition line of one palette entry: `#index;space;c1;c2;c3`.
pub open spec fn palette_line(index: nat, color: Color) -> Seq<u8> {
    seq![SELECT] + decimal(index) + seq![SEPARATOR] + color_fields(color) + seq![LINE_FEED]
}

/// The definition lines of a palette, entry by entry from index 0.
pub open spec fn palette_section(palette: Seq<Color>) -> Seq<u8>
    decreases palette.len(),
{
    if palette.len() == 0 {
        Seq::empty()
    } else {
        palette_section(palette.drop_last()) + palette_line(
            (palette.len() - 1) as nat,
            palette.last(),
        )
    }
}

/// The raster attributes line: `"1;1;width;height`, a pixel aspect ratio of
/// one to one and the size of the image.
pub open spec fn raster_attributes(width: nat, height: nat) -> Seq<u8> {
    seq![QUOTE, DIGIT_ONE, SEPARATOR, DIGIT_ONE, SEPARATOR] + decimal(width) + seq![SEPARATOR] + decimal(height)
        + seq![LINE_FEED]
}

/// The character that sets the bit of row `offset` of a band and no other.
pub open spec fn sixel_char(offset: u8) -> u8 {
    (SIXEL_BASE + (1u8 << offset)) as u8
}

/// One pixel of a pass: the selector of its palette entry and the bit of the
/// row.
pub open spec fn pixel_token(index: nat, offset: u8) -> Seq<u8> {
    seq![SELECT] + decimal(index) + seq![sixel_char(offset)]
}

/// The pixels of one row, column by column.
pub open spec fn pixel_run(line: Seq<usize>, offset: u8) -> Seq<u8>
    decreases line.len(),
{
    if line.len() == 0 {
        Seq::empty()
    } else {
        pixel_run(line.drop_last(), offset) + pixel_token(line.last() as nat, offset)
    }
}

/// The palette indices of one row of the image.
pub open spec fn row_of(color_map: Seq<usize>, width: nat, row: nat) -> Seq<usize> {
    color_map.subrange((row * width) as int, ((row + 1) * width) as int)
}

/// The pass of one row: `$`, which returns to the band's first column, and
/// then the pixels of the row.
pub open spec fn row_pass(color_map: Seq<usize>, width: nat, row: nat, offset: u8) -> Seq<u8> {
    seq![BAND_RESET] + pixel_run(row_of(color_map, width, row), offset)
}

/// How many rows the band that starts at row `top` covers.
pub open spec fn rows_in_band(height: nat, top: nat) -> nat {
    if top + 6 <= height {
        6
    } else {
        (height - top) as nat
    }
}

/// The passes of the first `count` rows of the band that starts at row `top`.
pub open spec fn row_passes(color_map: Seq<usize>, width: nat, top: nat, count: nat) -> Seq<u8>
    decreases count,
{
    if count == 0 {
        Seq::empty()
    } else {
        row_passes(color_map, width, top, (count - 1) as nat) + row_pass(
            color_map,
            width,
            (top + count - 1) as nat,
            (count - 1) as u8,
        )
    }
}

/// One band: the passes of its rows, then `-`, which moves on to the next
/// band.
pub open spec fn band(color_map: Seq<usize>, width: nat, height: nat, top: nat) -> Seq<u8> {
    row_passes(color_map, width, top, rows_in_band(height, top)) + seq![LINE_ADVANCE]
}

/// How many bands an image of the given height has: one for every six rows,
/// and one more for the rows that are left over.
pub open spec fn band_count(height: nat) -> nat {
    (height + 5) / 6
}

/// The first `count` bands of the image. Band `k` starts at row `6 * k`.
pub open spec fn leading_bands(
    color_map: Seq<usize>,
    width: nat,
    height: nat,
    count: nat,
) -> Seq<u8>
    decreases count,
{
    if count == 0 {
        Seq::empty()
    } else {
        leading_bands(color_map, width, height, (count - 1) as nat) + band(
            color_map,
            width,
            height,
            (6 * (count - 1)) as nat,
        )
    }
}

/// All the bands of the image, from the top one down.
pub open spec fn band_section(color_map: Seq<usize>, width: nat, height: nat) -> Seq<u8> {
    leading_bands(color_map, width, height, band_count(height))
}

/// The whole stream of an image with the given palette and colour-index map.
pub open spec fn sixel_stream(
    palette: Seq<Color>,
    color_map: Seq<usize>,
    width: nat,
    height: nat,
) -> Seq<u8> {
    enter_sequence() + palette_section(palette) + raster_attributes(width, height) + band_section(
        color_map,
        width,
        height,
    ) + exit_sequence()
}

/// The six sixel characters, from the top row of a band to the bottom one:
/// `@`, `A`, `C`, `G`, `O` and `_`.
pub proof fn lemma_sixel_chars()
    ensures
        sixel_char(0) == 64,
        sixel_char(1) == 65,
        sixel_char(2) == 67,
        sixel_char(3) == 71,
        sixel_char(4) == 79,
        sixel_char(5) == 95,
{
    assert(1u8 << 0u8 == 1) by (bit_vector);
    assert(1u8 << 1u8 == 2) by (bit_vector);
    assert(1u8 << 2u8 == 4) by (bit_vector);
    assert(1u8 << 3u8 == 8) by (bit_vector);
    assert(1u8 << 4u8 == 16) by (bit_vector);
    assert(1u8 << 5u8 == 32) by (bit_vector);
}

/// Every byte is in the ASCII range.
pub open spec fn is_ascii(bytes: Seq<u8>) -> bool {
    forall|i: int| 0 <= i < bytes.len() ==> (#[trigger] bytes[i]) < 128
}

/// A sixel character of a row of a band lies between `@` and `_`.
pub proof fn lemma_sixel_char_range(offset: u8)
    requires
        offset < 6,
    ensures
        64 <= sixel_char(offset) <= 95,
{
    assert(1 <= (1u8 << offset) <= 32) by (bit_vector)
        requires
            offset < 6,
    ;
}

/// A number in decimal is a run of one or more ASCII digits.
pub proof fn lemma_decimal_is_digits(n: nat)
    ensures
        decimal(n).len() >= 1,
        forall|i: int|
            0 <= i < decimal(n).len() ==> DIGIT_ZERO <= (#[trigger] decimal(n)[i]) <= DIGIT_ZERO
                + 9,
        is_ascii(decimal(n)),
    decreases n,
{
    if n >= 10 {
        lemma_decimal_is_digits(n / 10);
    }
}

/// A palette definition line is ASCII.
pub proof fn lemma_palette_line_is_ascii(index: nat, color: Color)
    ensures
        is_ascii(palette_line(index, color)),
{
    lemma_decimal_is_digits(index);
    match color {
        Color::RGB(r, g, b) => {
            lemma_decimal_is_digits(r as nat);
            lemma_decimal_is_digits(g as nat);
            lemma_decimal_is_digits(b as nat);
        },
        Color::HSL(h, s, l) => {
            lemma_decimal_is_digits(h as nat);
            lemma_decimal_is_digits(s as nat);
            lemma_decimal_is_digits(l as nat);
        },
    }
    assert(is_ascii(color_fields(color)));
}

/// The definition lines of a palette are ASCII.
pub proof fn lemma_palette_section_is_ascii(palette: Seq<Color>)
    ensures
        is_ascii(palette_section(palette)),
    decreases palette.len(),
{
    if palette.len() > 0 {
        lemma_palette_section_is_ascii(palette.drop_last());
        lemma_palette_line_is_ascii((palette.len() - 1) as nat, palette.last());
    }
}

/// The pixels of a row are ASCII.
pub proof fn lemma_pixel_run_is_ascii(line: Seq<usize>, offset: u8)
    requires
        offset < 6,
    ensures
        is_ascii(pixel_run(line, offset)),
    decreases line.len(),
{
    if line.len() > 0 {
        lemma_pixel_run_is_ascii(line.drop_last(), offset);
        lemma_decimal_is_digits(line.last() as nat);
        lemma_sixel_char_range(offset);
        assert(is_ascii(pixel_token(line.last() as nat, offset)));
    }
}

/// The passes of the rows of a band are ASCII.
pub proof fn lemma_row_passes_is_ascii(color_map: Seq<usize>, width: nat, top: nat, count: nat)
    requires
        count <= 6,
    ensures
        is_ascii(row_passes(color_map, width, top, count)),
    decreases count,
{
    if count > 0 {
        lemma_row_passes_is_ascii(color_map, width, top, (count - 1) as nat);
        lemma_pixel_run_is_ascii(
            row_of(color_map, width, (top + count - 1) as nat),
            (count - 1) as u8,
        );
        assert(is_ascii(row_pass(color_map, width, (top + count - 1) as nat, (count - 1) as u8)));
    }
}

/// The bands of an image are ASCII.
pub proof fn lemma_leading_bands_is_ascii(
    color_map: Seq<usize>,
    width: nat,
    height: nat,
    count: nat,
)
    requires
        count <= band_count(height),
    ensures
        is_ascii(leading_bands(color_map, width, height, count)),
    decreases count,
{
    if count > 0 {
        let top = (6 * (count - 1)) as nat;
        lemma_leading_bands_is_ascii(color_map, width, height, (count - 1) as nat);
        lemma_row_passes_is_ascii(color_map, width, top, rows_in_band(height, top));
        assert(is_ascii(band(color_map, width, height, top)));
    }
}

/// The stream holds ASCII bytes only: printable characters, line breaks, and
/// the escape byte of the enter and the exit sequence.
pub proof fn lemma_stream_is_ascii(
    palette: Seq<Color>,
    color_map: Seq<usize>,
    width: nat,
    height: nat,
)
    ensures
        is_ascii(sixel_stream(palette, color_map, width, height)),
{
    lemma_palette_section_is_ascii(palette);
    lemma_decimal_is_digits(width);
    lemma_decimal_is_digits(height);
    assert(is_ascii(raster_attributes(width, height)));
    lemma_leading_bands_is_ascii(color_map, width, height, band_count(height));
    assert(is_ascii(enter_sequence()));
    assert(is_ascii(exit_sequence()));
}

/// The stream of an image starts with the enter sequence and ends with the
/// exit sequence.
pub proof fn lemma_stream_is_framed(
    palette: Seq<Color>,
    color_map: Seq<usize>,
    width: nat,
    height: nat,
)
    ensures
        ({
            let stream = sixel_stream(palette, color_map, width, height);
            &&& stream.len() >= 7
            &&& stream.take(4) == enter_sequence()
            &&& stream.skip(stream.len() - 3) == exit_sequence()
        }),
{
    let stream = sixel_stream(palette, color_map, width, height);
    assert(stream.take(4) =~= enter_sequence());
    assert(stream.skip(stream.len() - 3) =~= exit_sequence());
}

/// An image without rows and without colours has no palette lines and no
/// bands: its stream is the enter sequence, the raster attributes and the
/// exit sequence.
pub proof fn lemma_empty_image_stream(color_map: Seq<usize>, width: nat)
    ensures
        band_section(color_map, width, 0) == Seq::<u8>::empty(),
        sixel_stream(Seq::empty(), color_map, width, 0) == enter_sequence() + raster_attributes(
            width,
            0,
        ) + exit_sequence(),
{
    assert(sixel_stream(Seq::empty(), color_map, width, 0) =~= enter_sequence()
        + raster_attributes(width, 0) + exit_sequence());
}

/// Appends `n` in decimal.
pub fn write_decimal(out: &mut Vec<u8>, n: usize)
    ensures
        final(out)@ == old(out)@ + decimal(n as nat),
    decreases n,
{
    if n >= 10 {
        write_decimal(out, n / 10);
    }
    let d: u8 = (n % 10) as u8;
    out.push(DIGIT_ZERO + d);
    proof {
        assert(out@ =~= old(out)@ + decimal(n as nat));
    }
}

/// Appends the definition line of the palette entry `index`.
pub fn write_palette_entry(out: &mut Vec<u8>, index: usize, color: Color)
    ensures
        final(out)@ == old(out)@ + palette_line(index as nat, color),
{
    out.push(SELECT);
    write_decimal(out, index);
    out.push(SEPARATOR);
    match color {
        Color::RGB(r, g, b) => {
            out.push(DIGIT_TWO);
            out.push(SEPARATOR);
            write_decimal(out, r as usize);
            out.push(SEPARATOR);
            write_decimal(out, g as usize);
            out.push(SEPARATOR);
            write_decimal(out, b as usize);
        },
        Color::HSL(h, s, l) => {
            out.push(DIGIT_ONE);
            out.push(SEPARATOR);
            write_decimal(out, h as usize);
            out.push(SEPARATOR);
            write_decimal(out, l as usize);
            out.push(SEPARATOR);
            write_decimal(out, s as usize);
        },
    }
    out.push(LINE_FEED);
    proof {
        assert(out@ =~= old(out)@ + palette_line(index as nat, color));
    }
}

/// Appends the raster attributes line.
pub fn write_raster_attributes(out: &mut Vec<u8>, width: usize, height: usize)
    ensures
        final(out)@ == old(out)@ + raster_attributes(width as nat, height as nat),
{
    out.push(QUOTE);
    out.push(DIGIT_ONE);
    out.push(SEPARATOR);
    out.push(DIGIT_ONE);
    out.push(SEPARATOR);
    write_decimal(out, width);
    out.push(SEPARATOR);
    write_decimal(out, height);
    out.push(LINE_FEED);
    proof {
        assert(out@ =~= old(out)@ + raster_attributes(width as nat, height as nat));
    }
}

/// Appends the pixels `start..end` of the colour-index map, each with the bit
/// of row `offset` of its band.
pub fn write_pixel_line(
    out: &mut Vec<u8>,
    color_map: &Vec<usize>,
    start: usize,
    end: usize,
    offset: u8,
)
    requires
        start <= end <= color_map@.len(),
        offset < 6,
    ensures
        final(out)@ == old(out)@ + pixel_run(color_map@.subrange(start as int, end as int), offset),
{
    assert((1u8 << offset) <= 32) by (bit_vector)
        requires
            offset < 6,
    ;
    let chr: u8 = SIXEL_BASE + (1u8 << offset);
    let mut i: usize = start;
    while i < end
        invariant
            start <= i <= end <= color_map@.len(),
            chr == sixel_char(offset),
            out@ == old(out)@ + pixel_run(color_map@.subrange(start as int, i as int), offset),
        decreases end - i,
    {
        let ghost before = out@;
        out.push(SELECT);
        write_decimal(out, color_map[i]);
        out.push(chr);
        proof {
            let line = color_map@.subrange(start as int, i + 1);
            assert(line.drop_last() =~= color_map@.subrange(start as int, i as int));
            assert(line.last() == color_map@[i as int]);
            assert(out@ =~= before + pixel_token(color_map@[i as int] as nat, offset));
            assert(out@ =~= old(out)@ + pixel_run(line, offset));
        }
        i += 1;
    }
}

/// Appends the band that starts at row `top`: a pass for each of its rows,
/// and the move to the next band.
pub fn write_band(
    out: &mut Vec<u8>,
    color_map: &Vec<usize>,
    width: usize,
    height: usize,
    top: usize,
)
    requires
        top < height,
        color_map@.len() == width * height,
    ensures
        final(out)@ == old(out)@ + band(color_map@, width as nat, height as nat, top as nat),
{
    let rows: usize = if height - top < 6 {
        height - top
    } else {
        6
    };
    let mut vertical_offset: usize = 0;
    while vertical_offset < rows
        invariant
            vertical_offset <= rows <= 6,
            top + rows <= height,
            rows == rows_in_band(height as nat, top as nat),
            color_map@.len() == width * height,
            out@ == old(out)@ + row_passes(
                color_map@,
                width as nat,
                top as nat,
                vertical_offset as nat,
            ),
        decreases rows - vertical_offset,
    {
        let row = top + vertical_offset;
        proof {
            assert(row * width + width == (row + 1) * width) by (nonlinear_arith);
            assert((row + 1) * width <= height * width) by (nonlinear_arith)
                requires
                    row + 1 <= height,
                    0 <= width,
            ;
            assert(0 <= row * width) by (nonlinear_arith)
                requires
                    0 <= row,
                    0 <= width,
            ;
            assert(height * width == width * height) by (nonlinear_arith);
            assert(color_map@.len() == color_map.len());
        }
        let line_start = row * width;
        let line_end = line_start + width;
        let ghost before = out@;
        out.push(BAND_RESET);
        write_pixel_line(out, color_map, line_start, line_end, vertical_offset as u8);
        proof {
            assert(out@ =~= before + row_pass(
                color_map@,
                width as nat,
                row as nat,
                vertical_offset as u8,
            ));
            assert(out@ =~= old(out)@ + row_passes(
                color_map@,
                width as nat,
                top as nat,
                (vertical_offset + 1) as nat,
            ));
        }
        vertical_offset += 1;
    }
    out.push(LINE_ADVANCE);
    proof {
        assert(out@ =~= old(out)@ + band(color_map@, width as nat, height as nat, top as nat));
    }
}

} // verus!
