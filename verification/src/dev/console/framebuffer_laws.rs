//! Which pixels drawing changes, and to what.

use crate::dev::console::framebuffer::{
    pixel_on, Framebuffer, FramebufferModel, CELL_HEIGHT, CELL_WIDTH,
};
use vstd::arithmetic::power2::{lemma2_to64, pow2};
use vstd::bits::lemma_u8_shr_is_div;
use vstd::prelude::*;

verus! {

/// A pixel of a font line is on exactly if its bit is, the leftmost pixel being the lowest bit.
pub proof fn leftmost_pixel_is_the_lowest_bit(line: u8, col: int)
    requires
        0 <= col < 8,
    ensures
        pixel_on(line, col) <==> line as int / pow2(col as nat) as int % 2 == 1,
{
    let c: u8 = col as u8;
    lemma2_to64();
    lemma_u8_shr_is_div(line, c);
    let shifted: u8 = line >> c;
    assert(shifted & 1 == shifted % 2) by (bit_vector);
}

/// A glyph shows the lines of the font from the top, between two blank lines, in a cell of 8 by 10
/// pixels: pixel `px`, `py` of the screen is in the foreground color exactly if it is one of the
/// eight by eight pixels of the glyph and its bit in the font is on, in the background color if it
/// is another one of the cell, and as it was if it is not in the cell. Drawing changes nothing
/// else.
pub proof fn glyph_shows_the_font(
    screen: FramebufferModel,
    font: Seq<u8>,
    x: int,
    y: int,
    glyph: u8,
    fg_color: u32,
    bg_color: u32,
    px: int,
    py: int,
)
    requires
        glyph < 128,
        0 <= x,
        x + 8 <= screen.pitch / 4,
        0 <= y,
        0 <= px < screen.pitch / 4,
        0 <= py,
        py * (screen.pitch / 4) + px < screen.pixels.len(),
    ensures
        ({
            let after = screen.glyph_drawn(font, x, y, glyph, fg_color, bg_color);
            let pixel = after.pixels[py * (screen.pitch / 4) + px];
            let in_cell = x <= px < x + 8 && y <= py < y + 10;
            let in_glyph = x <= px < x + 8 && y + 1 <= py < y + 9;
            let line = font[glyph as int * 8 + (py - y - 1)];
            &&& in_glyph && line as int / pow2((px - x) as nat) as int % 2 == 1 ==> pixel
                == fg_color
            &&& in_glyph && line as int / pow2((px - x) as nat) as int % 2 != 1 ==> pixel
                == bg_color
            &&& in_cell && !in_glyph ==> pixel == bg_color
            &&& !in_cell ==> pixel == screen.pixels[py * (screen.pitch / 4) + px]
            &&& after.pixels.len() == screen.pixels.len()
            &&& after.width == screen.width
            &&& after.height == screen.height
            &&& after.pitch == screen.pitch
        }),
{
    assert(0 <= py * (screen.pitch / 4)) by (nonlinear_arith)
        requires
            0 <= py,
            0 <= screen.pitch / 4,
    ;
    screen.glyph_fills_its_cell(font, x, y, glyph, fg_color, bg_color, px, py);
    screen.lemma_glyph_drawn_shape(font, x, y, glyph, fg_color, bg_color);
    if x <= px < x + 8 && y + 1 <= py < y + 9 {
        leftmost_pixel_is_the_lowest_bit(font[glyph as int * 8 + (py - y - 1)], px - x);
    }
}

/// Nothing is drawn for a glyph that the font does not have.
pub proof fn missing_glyph_is_not_drawn(
    screen: FramebufferModel,
    font: Seq<u8>,
    x: int,
    y: int,
    glyph: u8,
    fg_color: u32,
    bg_color: u32,
)
    requires
        glyph >= 128,
    ensures
        screen.glyph_drawn(font, x, y, glyph, fg_color, bg_color) == screen,
{
}

/// The pixels lie line after line, a line every `pitch` bytes, a pixel every four bytes. A cell
/// lies in the framebuffer's memory exactly if its lower right pixel does. Filling gives every
/// pixel the color.
pub proof fn pixels_lie_line_after_line(
    screen: FramebufferModel,
    x: int,
    y: int,
    color: u32,
    i: int,
)
    requires
        0 <= x,
        0 <= y,
        0 <= screen.pitch,
        0 <= i < screen.pixels.len(),
    ensures
        screen.index(x, y) == y * (screen.pitch / 4) + x,
        screen.has_pixel(x, y) <==> y * (screen.pitch / 4) + x < screen.pixels.len(),
        screen.has_cell(x, y) <==> (y + 9) * (screen.pitch / 4) + x + 7 < screen.pixels.len() && y
            + 9 <= usize::MAX,
        screen.filled(color).pixels.len() == screen.pixels.len(),
        screen.filled(color).pixels[i] == color,
        screen.filled(color).width == screen.width,
        screen.filled(color).height == screen.height,
        screen.filled(color).pitch == screen.pitch,
        CELL_WIDTH == 8,
        CELL_HEIGHT == 10,
{
    assert(0 <= y * (screen.pitch / 4) && 0 <= (y + 9) * (screen.pitch / 4)) by (nonlinear_arith)
        requires
            0 <= y,
            0 <= screen.pitch / 4,
    ;
}

/// What is said of a framebuffer is said of its memory and its measures.
pub proof fn framebuffer_is_its_fields(framebuffer: Framebuffer<'_>)
    ensures
        framebuffer@.pixels == old(framebuffer.addr)@,
        framebuffer@.width == framebuffer.width,
        framebuffer@.height == framebuffer.height,
        framebuffer@.pitch == framebuffer.pitch,
{
}

} // verus!
