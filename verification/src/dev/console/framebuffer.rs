//! The framebuffer, and glyphs drawn on it.

use vstd::prelude::*;

verus! {

/// The height of a character cell: a blank line, the eight lines of the glyph, a blank line.
pub const CELL_HEIGHT: usize = 10;

/// The width of a character cell.
pub const CELL_WIDTH: usize = 8;

/// The bytes of an 8x8 font of 128 glyphs: eight lines for each glyph, the leftmost pixel of a
/// line in its lowest bit.
pub const FONT_BYTES: usize = 1024;

/// Whether pixel `col` of `line` is on.
pub open spec fn pixel_on(line: u8, col: int) -> bool {
    (line >> (col as u8)) & 1 != 0
}

/// The color of the pixel in line `row` and column `col` of the cell of `glyph`.
pub open spec fn cell_color(
    font: Seq<u8>,
    glyph: u8,
    fg_color: u32,
    bg_color: u32,
    row: int,
    col: int,
) -> u32 {
    if 1 <= row <= 8 && pixel_on(font[glyph * 8 + (row - 1)], col) {
        fg_color
    } else {
        bg_color
    }
}

/// What a framebuffer is: its pixels, line after line, the lines `pitch` bytes apart.
#[verifier::ext_equal]
pub struct FramebufferModel {
    pub pixels: Seq<u32>,
    pub width: int,
    pub height: int,
    pub pitch: int,
}

impl FramebufferModel {
    /// The pixels from one line to the next.
    pub open spec fn stride(self) -> int {
        self.pitch / 4
    }

    /// Where the pixel at `x`, `y` lies.
    pub open spec fn index(self, x: int, y: int) -> int {
        y * self.stride() + x
    }

    pub open spec fn has_pixel(self, x: int, y: int) -> bool {
        0 <= self.index(x, y) < self.pixels.len()
    }

    /// The framebuffer with the eight pixels from `x`, `y` on painted in `colors`.
    pub open spec fn line_painted(self, x: int, y: int, colors: spec_fn(int) -> u32) -> Self {
        let from = self.index(x, y);
        FramebufferModel {
            pixels: Seq::new(
                self.pixels.len(),
                |i: int|
                    if from <= i < from + CELL_WIDTH {
                        colors(i - from)
                    } else {
                        self.pixels[i]
                    },
            ),
            ..self
        }
    }

    /// The framebuffer with the first `rows` lines of the cell of `glyph` painted at `x`, `y`,
    /// one after the other.
    pub open spec fn cell_painted(
        self,
        font: Seq<u8>,
        x: int,
        y: int,
        glyph: u8,
        fg_color: u32,
        bg_color: u32,
        rows: int,
    ) -> Self
        decreases rows,
    {
        if rows <= 0 {
            self
        } else {
            self.cell_painted(font, x, y, glyph, fg_color, bg_color, rows - 1).line_painted(
                x,
                y + rows - 1,
                |col: int| cell_color(font, glyph, fg_color, bg_color, rows - 1, col),
            )
        }
    }

    /// The framebuffer with `glyph` drawn at `x`, `y`. The font has no glyph past 127: nothing
    /// is drawn for those.
    pub open spec fn glyph_drawn(
        self,
        font: Seq<u8>,
        x: int,
        y: int,
        glyph: u8,
        fg_color: u32,
        bg_color: u32,
    ) -> Self {
        if glyph >= 128 {
            self
        } else {
            self.cell_painted(font, x, y, glyph, fg_color, bg_color, CELL_HEIGHT as int)
        }
    }

    /// The framebuffer with every pixel in `color`.
    pub open spec fn filled(self, color: u32) -> Self {
        FramebufferModel { pixels: Seq::new(self.pixels.len(), |i: int| color), ..self }
    }

    /// Whether a cell at `x`, `y` ends inside the framebuffer's memory.
    pub open spec fn has_cell(self, x: int, y: int) -> bool {
        &&& y + CELL_HEIGHT - 1 <= usize::MAX
        &&& self.has_pixel(x + CELL_WIDTH - 1, y + CELL_HEIGHT - 1)
    }
}

/// The pixels that are shown on the screen.
pub struct Framebuffer<'a> {
    pub addr: &'a mut [u32],
    pub width: usize,
    pub height: usize,
    /// The bytes from one line to the next.
    pub pitch: usize,
}

impl<'a> View for Framebuffer<'a> {
    type V = FramebufferModel;

    open spec fn view(&self) -> FramebufferModel {
        FramebufferModel {
            pixels: self.addr@,
            width: self.width as int,
            height: self.height as int,
            pitch: self.pitch as int,
        }
    }
}

impl<'a> Framebuffer<'a> {
    /// How many pixels lie in a framebuffer of `height` lines that are `pitch` bytes apart.
    pub fn pixel_count(height: u64, pitch: u64) -> (count: u64)
        requires
            pitch as int / 4 * height as int <= u64::MAX,
        ensures
            count == pitch as int / 4 * height as int,
    {
        pitch / 4 * height
    }

    /// The framebuffer over the pixels `addr`, as many as `pixel_count` says.
    pub fn from(addr: &'a mut [u32], width: u64, height: u64, pitch: u64) -> (fb: Self)
        requires
            width <= usize::MAX,
            height <= usize::MAX,
            pitch <= usize::MAX,
            old(addr)@.len() == pitch as int / 4 * height as int,
        ensures
            fb@ == (FramebufferModel {
                pixels: old(addr)@,
                width: width as int,
                height: height as int,
                pitch: pitch as int,
            }),
            final(fb.addr)@ == final(addr)@,
    {
        Framebuffer { addr, width: width as usize, height: height as usize, pitch: pitch as usize }
    }

    pub fn put_pixel(&mut self, x: usize, y: usize, color: u32)
        requires
            old(self)@.has_pixel(x as int, y as int),
        ensures
            final(self)@ == (FramebufferModel {
                pixels: old(self)@.pixels.update(old(self)@.index(x as int, y as int), color),
                ..old(self)@
            }),
            final(final(self).addr)@ == final(old(self).addr)@,
    {
        assert(self.addr.len() == self.addr@.len());
        assert(0 <= y * (self.pitch as int / 4) <= self@.index(x as int, y as int))
            by (nonlinear_arith)
            requires
                self@.index(x as int, y as int) == y * (self.pitch as int / 4) + x,
                x >= 0,
                y >= 0,
                self.pitch >= 0,
        ;
        let index: usize = y * (self.pitch / 4) + x;
        self.addr[index] = color;
    }

    /// Paints the eight pixels from `x`, `y` on: those that are on in `line` in the foreground
    /// color, the others in the background color.
    fn paint_line(&mut self, x: usize, y: usize, line: u8, fg_color: u32, bg_color: u32)
        requires
            old(self)@.has_pixel(x + 7, y as int),
        ensures
            final(self)@ == old(self)@.line_painted(
                x as int,
                y as int,
                |col: int|
                    if pixel_on(line, col) {
                        fg_color
                    } else {
                        bg_color
                    },
            ),
            final(final(self).addr)@ == final(old(self).addr)@,
    {
        let ghost from = self@.index(x as int, y as int);
        assert(self.addr.len() == self.addr@.len());
        assert(0 <= y * (self.pitch as int / 4)) by (nonlinear_arith)
            requires
                y >= 0,
                self.pitch >= 0,
        ;
        let mut col: usize = 0;
        while col < 8
            invariant
                col <= 8,
                x + 7 <= usize::MAX,
                from == self@.index(x as int, y as int),
                0 <= from,
                from + 7 < self.addr@.len(),
                self.width == old(self).width,
                self.height == old(self).height,
                self.pitch == old(self).pitch,
                self.addr@.len() == old(self).addr@.len(),
                final(self.addr)@ == final(old(self).addr)@,
                forall|i: int|
                    0 <= i < self.addr@.len() ==> self.addr@[i] == (if from <= i < from + col {
                        if pixel_on(line, i - from) {
                            fg_color
                        } else {
                            bg_color
                        }
                    } else {
                        old(self).addr@[i]
                    }),
            decreases 8 - col,
        {
            let color: u32 = if (line >> (col as u8)) & 1 != 0 {
                fg_color
            } else {
                bg_color
            };
            self.put_pixel(x + col, y, color);
            col = col + 1;
        }
        assert(self@ =~= old(self)@.line_painted(
            x as int,
            y as int,
            |col: int|
                if pixel_on(line, col) {
                    fg_color
                } else {
                    bg_color
                },
        ));
    }

    /// Draws `glyph` of `font` with its upper left corner at `x`, `y`.
    pub fn draw_glyph(
        &mut self,
        font: &[u8; FONT_BYTES],
        x: usize,
        y: usize,
        glyph: u8,
        fg_color: u32,
        bg_color: u32,
    )
        requires
            glyph < 128 ==> old(self)@.has_cell(x as int, y as int),
        ensures
            final(self)@ == old(self)@.glyph_drawn(
                font@,
                x as int,
                y as int,
                glyph,
                fg_color,
                bg_color,
            ),
            final(final(self).addr)@ == final(old(self).addr)@,
    {
        if glyph >= 128 {
            return;  // Unsupported by current font
        }
        let ghost model = self@;
        proof {
            model.lemma_cell_lines(x as int, y as int);
            lemma_blank_line();
            reveal_with_fuel(FramebufferModel::cell_painted, 2);
        }
        self.paint_line(x, y, 0, fg_color, bg_color);
        assert(self@ =~= model.cell_painted(
            font@,
            x as int,
            y as int,
            glyph,
            fg_color,
            bg_color,
            1,
        ));
        let mut row: usize = 0;
        while row < 8
            invariant
                row <= 8,
                glyph < 128,
                y + 9 <= usize::MAX,
                model == old(self)@,
                forall|r: int| 0 <= r < 10 ==> #[trigger] model.has_pixel(x + 7, y + r),
                self@ == model.cell_painted(
                    font@,
                    x as int,
                    y as int,
                    glyph,
                    fg_color,
                    bg_color,
                    row + 1,
                ),
                final(self.addr)@ == final(old(self).addr)@,
            decreases 8 - row,
        {
            proof {
                model.lemma_cell_painted_shape(
                    font@,
                    x as int,
                    y as int,
                    glyph,
                    fg_color,
                    bg_color,
                    row + 1,
                );
                assert(model.has_pixel(x + 7, y + (row + 1)));
            }
            let line: u8 = font[glyph as usize * 8 + row];
            self.paint_line(x, y + row + 1, line, fg_color, bg_color);
            assert(self@ =~= model.cell_painted(
                font@,
                x as int,
                y as int,
                glyph,
                fg_color,
                bg_color,
                row + 2,
            ));
            row = row + 1;
        }
        proof {
            model.lemma_cell_painted_shape(
                font@,
                x as int,
                y as int,
                glyph,
                fg_color,
                bg_color,
                9,
            );
            assert(model.has_pixel(x + 7, y + 9));
        }
        self.paint_line(x, y + 9, 0, fg_color, bg_color);
        assert(self@ =~= model.cell_painted(
            font@,
            x as int,
            y as int,
            glyph,
            fg_color,
            bg_color,
            10,
        ));
    }

    /// Whether a cell at `x`, `y` ends inside the framebuffer's memory.
    pub fn has_cell_at(&self, x: usize, y: usize) -> (inside: bool)
        ensures
            inside == self@.has_cell(x as int, y as int),
    {
        let ghost stride = self@.stride();
        assert(self.addr.len() == self.addr@.len());
        if y > usize::MAX - (CELL_HEIGHT - 1) || x > usize::MAX - (CELL_WIDTH - 1) {
            assert(0 <= (y + 9) * stride) by (nonlinear_arith)
                requires
                    y >= 0,
                    stride >= 0,
            ;
            return false;
        }
        assert(0 <= (y + 9) * stride) by (nonlinear_arith)
            requires
                y >= 0,
                stride >= 0,
        ;
        match (y + (CELL_HEIGHT - 1)).checked_mul(self.pitch / 4) {
            None => false,
            Some(line) => match line.checked_add(x + (CELL_WIDTH - 1)) {
                None => false,
                Some(last) => last < self.addr.len(),
            },
        }
    }

    /// Gives every pixel the color `color`.
    pub fn fill(&mut self, color: u32)
        ensures
            final(self)@ == old(self)@.filled(color),
            final(final(self).addr)@ == final(old(self).addr)@,
    {
        let mut i: usize = 0;
        while i < self.addr.len()
            invariant
                i <= self.addr@.len(),
                self.width == old(self).width,
                self.height == old(self).height,
                self.pitch == old(self).pitch,
                self.addr@.len() == old(self).addr@.len(),
                final(self.addr)@ == final(old(self).addr)@,
                forall|k: int| 0 <= k < i ==> self.addr@[k] == color,
            decreases self.addr@.len() - i,
        {
            self.addr[i] = color;
            i = i + 1;
        }
        assert(self@ =~= old(self)@.filled(color));
    }
}

/// No pixel of an empty line is on.
proof fn lemma_blank_line()
    ensures
        forall|col: int| !#[trigger] pixel_on(0, col),
{
    assert forall|col: int| !#[trigger] pixel_on(0, col) by {
        let c: u8 = col as u8;
        assert((0u8 >> c) & 1 == 0) by (bit_vector);
    }
}

impl FramebufferModel {
    /// A drawn glyph fills its cell and nothing else: each pixel of the cell has the color that
    /// the font gives it, and every other pixel of the screen is as it was.
    pub proof fn glyph_fills_its_cell(
        self,
        font: Seq<u8>,
        x: int,
        y: int,
        glyph: u8,
        fg_color: u32,
        bg_color: u32,
        px: int,
        py: int,
    )
        requires
            glyph < 128,
            0 <= x,
            x + CELL_WIDTH <= self.stride(),
            0 <= y,
            0 <= px < self.stride(),
            0 <= py,
            self.has_pixel(px, py),
        ensures
            ({
                let after = self.glyph_drawn(font, x, y, glyph, fg_color, bg_color);
                after.pixels[self.index(px, py)] == if x <= px < x + CELL_WIDTH && y <= py < y
                    + CELL_HEIGHT {
                    cell_color(font, glyph, fg_color, bg_color, py - y, px - x)
                } else {
                    self.pixels[self.index(px, py)]
                }
            }),
    {
        self.lemma_rows_fill_their_cell(font, x, y, glyph, fg_color, bg_color, px, py, 10);
    }

    proof fn lemma_rows_fill_their_cell(
        self,
        font: Seq<u8>,
        x: int,
        y: int,
        glyph: u8,
        fg_color: u32,
        bg_color: u32,
        px: int,
        py: int,
        rows: int,
    )
        requires
            0 <= x,
            x + CELL_WIDTH <= self.stride(),
            0 <= y,
            0 <= px < self.stride(),
            0 <= py,
            self.has_pixel(px, py),
            0 <= rows,
        ensures
            ({
                let after = self.cell_painted(font, x, y, glyph, fg_color, bg_color, rows);
                after.pixels[self.index(px, py)] == if x <= px < x + CELL_WIDTH && y <= py < y
                    + rows {
                    cell_color(font, glyph, fg_color, bg_color, py - y, px - x)
                } else {
                    self.pixels[self.index(px, py)]
                }
            }),
        decreases rows,
    {
        if rows > 0 {
            self.lemma_rows_fill_their_cell(
                font,
                x,
                y,
                glyph,
                fg_color,
                bg_color,
                px,
                py,
                rows - 1,
            );
            self.lemma_cell_painted_shape(font, x, y, glyph, fg_color, bg_color, rows - 1);
            let row = y + rows - 1;
            let from = self.index(x, row);
            let at = self.index(px, py);
            let stride = self.stride();
            if py == row {
                assert(at - from == px - x);
            } else {
                assert(!(from <= at < from + CELL_WIDTH)) by (nonlinear_arith)
                    requires
                        at == py * stride + px,
                        from == row * stride + x,
                        0 <= px < stride,
                        0 <= x,
                        x + CELL_WIDTH <= stride,
                        CELL_WIDTH == 8,
                        py != row,
                ;
            }
        }
    }

    /// The lines of a cell lie inside the framebuffer's memory where its last one does.
    proof fn lemma_cell_lines(self, x: int, y: int)
        requires
            0 <= x,
            0 <= y,
            0 <= self.pitch,
            self.has_cell(x, y),
        ensures
            forall|r: int| 0 <= r < 10 ==> #[trigger] self.has_pixel(x + 7, y + r),
            self.has_pixel(x + 7, y),
    {
        let stride = self.stride();
        assert forall|r: int| 0 <= r < 10 implies #[trigger] self.has_pixel(x + 7, y + r) by {
            assert(0 <= (y + r) * stride <= (y + 9) * stride) by (nonlinear_arith)
                requires
                    0 <= y,
                    0 <= r < 10,
                    0 <= stride,
            ;
        }
        assert(self.has_pixel(x + 7, y + 0));
    }

    /// Drawing changes colors only.
    pub proof fn lemma_glyph_drawn_shape(
        self,
        font: Seq<u8>,
        x: int,
        y: int,
        glyph: u8,
        fg_color: u32,
        bg_color: u32,
    )
        ensures
            ({
                let after = self.glyph_drawn(font, x, y, glyph, fg_color, bg_color);
                &&& after.pixels.len() == self.pixels.len()
                &&& after.width == self.width
                &&& after.height == self.height
                &&& after.pitch == self.pitch
            }),
    {
        self.lemma_cell_painted_shape(font, x, y, glyph, fg_color, bg_color, CELL_HEIGHT as int);
    }

    proof fn lemma_cell_painted_shape(
        self,
        font: Seq<u8>,
        x: int,
        y: int,
        glyph: u8,
        fg_color: u32,
        bg_color: u32,
        rows: int,
    )
        ensures
            ({
                let after = self.cell_painted(font, x, y, glyph, fg_color, bg_color, rows);
                &&& after.pixels.len() == self.pixels.len()
                &&& after.width == self.width
                &&& after.height == self.height
                &&& after.pitch == self.pitch
            }),
        decreases rows,
    {
        if rows > 0 {
            self.lemma_cell_painted_shape(font, x, y, glyph, fg_color, bg_color, rows - 1);
        }
    }
}

} // verus!
