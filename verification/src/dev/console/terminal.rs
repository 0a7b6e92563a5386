//! A terminal on a framebuffer: it draws the bytes it receives as glyphs, and takes the escape
//! sequences that select colors.

use crate::dev::console::framebuffer::{
    Framebuffer, FramebufferModel, CELL_HEIGHT, CELL_WIDTH, FONT_BYTES,
};
use crate::dev::console::theme::{tokyo_night, tokyo_night_theme, Colors, Theme};
use crate::sync::WellFormed;
use vstd::prelude::*;

verus! {

/// How many parameters of an escape sequence are kept.
pub const MAX_ARGS: usize = 8;

/// The parameters of an escape sequence that have been read so far. Those past `count` are zero.
#[derive(Debug, Clone, Copy, PartialEq, Eq)]
pub struct AnsiArgs {
    pub count: usize,
    pub args: [usize; MAX_ARGS],
}

impl AnsiArgs {
    pub open spec fn wf(self) -> bool {
        &&& 1 <= self.count <= MAX_ARGS
        &&& forall|i: int| self.count <= i < MAX_ARGS ==> self.args@[i] == 0
    }

    pub open spec fn params(self) -> Seq<usize> {
        self.args@.take(self.count as int)
    }
}

impl Default for AnsiArgs {
    /// A single parameter, zero.
    fn default() -> (args: Self)
        ensures
            args.wf(),
            args.params() == seq![0usize],
    {
        let args = AnsiArgs { count: 1, args: [0; MAX_ARGS] };
        assert(args.params() =~= seq![0usize]);
        args
    }
}

#[derive(Debug, Clone, Copy, PartialEq, Eq)]
pub enum AnsiState {
    Ground,
    Escape,
    Arg(AnsiArgs),
}

/// How far into an escape sequence the terminal is: not in one, behind its first byte, or in its
/// parameters.
#[verifier::ext_equal]
pub enum AnsiModel {
    Ground,
    Escape,
    Arg(Seq<usize>),
}

impl AnsiState {
    pub open spec fn wf(self) -> bool {
        self matches AnsiState::Arg(args) ==> args.wf()
    }
}

impl View for AnsiState {
    type V = AnsiModel;

    open spec fn view(&self) -> AnsiModel {
        match *self {
            AnsiState::Ground => AnsiModel::Ground,
            AnsiState::Escape => AnsiModel::Escape,
            AnsiState::Arg(args) => AnsiModel::Arg(args.params()),
        }
    }
}

/// What a terminal is.
#[verifier::ext_equal]
pub struct TerminalModel {
    pub screen: FramebufferModel,
    pub font: Seq<u8>,
    pub cursor_x: int,
    pub cursor_y: int,
    pub colors: Colors,
    pub ansi: AnsiModel,
}

/// The byte that starts an escape sequence.
pub const ESC: u8 = 0x1b;

/// The byte that ends a line, `\n`.
pub const NEWLINE: u8 = 0x0a;

/// `[`, which comes before the parameters of an escape sequence.
pub const OPEN_BRACKET: u8 = 0x5b;

/// `;`, which separates parameters.
pub const SEMICOLON: u8 = 0x3b;

/// `m`, which ends a sequence that selects colors.
pub const LETTER_M: u8 = 0x6d;

/// `0`.
pub const DIGIT_ZERO: u8 = 0x30;

/// `9`.
pub const DIGIT_NINE: u8 = 0x39;

impl TerminalModel {
    /// The terminal after it was cleared: every pixel in the background color, and the cursor in
    /// the upper left corner.
    pub open spec fn cleared(self) -> Self {
        TerminalModel {
            screen: self.screen.filled(self.colors.bg),
            cursor_x: 0,
            cursor_y: 0,
            ..self
        }
    }

    /// The terminal after the cursor went to the start of the next line. Where the next line
    /// does not fit the screen, the terminal is cleared.
    pub open spec fn next_line(self) -> Self {
        let moved = TerminalModel {
            cursor_x: 0,
            cursor_y: self.cursor_y + CELL_HEIGHT,
            ..self
        };
        if moved.cursor_y + CELL_HEIGHT > self.screen.height {
            moved.cleared()
        } else {
            moved
        }
    }

    /// The terminal after the glyph `c` was drawn and the cursor moved past it, to the next line
    /// where the current one has no room for another glyph.
    pub open spec fn glyph_put(self, c: u8) -> Self {
        let drawn = TerminalModel {
            screen: self.screen.glyph_drawn(
                self.font,
                self.cursor_x,
                self.cursor_y,
                c,
                self.colors.fg,
                self.colors.bg,
            ),
            cursor_x: self.cursor_x + CELL_WIDTH,
            ..self
        };
        if drawn.cursor_x + CELL_WIDTH > self.screen.width {
            drawn.next_line()
        } else {
            drawn
        }
    }

    /// The terminal after the character `c` was put.
    pub open spec fn char_put(self, c: u8) -> Self {
        if c == NEWLINE {
            self.next_line()
        } else {
            self.glyph_put(c)
        }
    }

    /// Whether the next line's position fits a `usize`.
    pub open spec fn can_go_down(self) -> bool {
        self.cursor_y + 2 * CELL_HEIGHT <= usize::MAX
    }

    /// Whether the character `c` can be put: its cell lies inside the framebuffer's memory, and
    /// the cursor's next position fits a `usize`.
    pub open spec fn can_put(self, c: u8) -> bool {
        if c == NEWLINE {
            self.can_go_down()
        } else {
            &&& c < 128 ==> self.screen.has_cell(self.cursor_x, self.cursor_y)
            &&& self.cursor_x + 2 * CELL_WIDTH <= usize::MAX
            &&& self.cursor_x + 2 * CELL_WIDTH > self.screen.width ==> self.can_go_down()
        }
    }

    /// The terminal after it received the byte `c`.
    ///
    /// Outside of an escape sequence, ESC starts one and any other byte is put. ESC must be
    /// followed by `[`, or the sequence ends there. Then digits add to the last parameter, `;`
    /// starts another one where there is room, `m` selects the colors and ends the sequence, and
    /// any other byte is ignored.
    pub open spec fn received(self, c: u8) -> Self {
        match self.ansi {
            AnsiModel::Ground => if c == ESC {
                TerminalModel { ansi: AnsiModel::Escape, ..self }
            } else {
                self.char_put(c)
            },
            AnsiModel::Escape => if c == OPEN_BRACKET {
                TerminalModel { ansi: AnsiModel::Arg(seq![0usize]), ..self }
            } else {
                TerminalModel { ansi: AnsiModel::Ground, ..self }
            },
            AnsiModel::Arg(params) => if DIGIT_ZERO <= c <= DIGIT_NINE {
                TerminalModel {
                    ansi: AnsiModel::Arg(
                        params.update(
                            params.len() - 1,
                            (params.last() * 10 + (c - DIGIT_ZERO)) as usize,
                        ),
                    ),
                    ..self
                }
            } else if c == SEMICOLON {
                if params.len() < MAX_ARGS {
                    TerminalModel { ansi: AnsiModel::Arg(params.push(0)), ..self }
                } else {
                    self
                }
            } else if c == LETTER_M {
                TerminalModel {
                    colors: tokyo_night().select_all(self.colors, params),
                    ansi: AnsiModel::Ground,
                    ..self
                }
            } else {
                self
            },
        }
    }

    /// Whether the terminal can receive the byte `c`: a byte that is put can be put, and a
    /// parameter that a digit adds to still fits a `usize`.
    pub open spec fn can_receive(self, c: u8) -> bool {
        match self.ansi {
            AnsiModel::Ground => c != ESC ==> self.can_put(c),
            AnsiModel::Escape => true,
            AnsiModel::Arg(params) => DIGIT_ZERO <= c <= DIGIT_NINE ==> params.last() * 10 + (c
                - DIGIT_ZERO) <= usize::MAX,
        }
    }

    /// The terminal after it received the bytes `buf`, in order.
    pub open spec fn received_all(self, buf: Seq<u8>) -> Self
        decreases buf.len(),
    {
        if buf.len() == 0 {
            self
        } else {
            self.received_all(buf.drop_last()).received(buf.last())
        }
    }

    /// A terminal whose cursor is on the screen can put any character, which leaves its cursor on
    /// the screen. Putting a character does not change the size of the screen.
    pub proof fn lemma_put_stays_on_screen(self, c: u8)
        ensures
            on_screen(self) ==> self.can_put(c) && on_screen(self.char_put(c)),
            has_room(self.char_put(c).screen) == has_room(self.screen),
    {
        let screen = self.screen;
        let stride = screen.stride();
        screen.lemma_glyph_drawn_shape(
            self.font,
            self.cursor_x,
            self.cursor_y,
            c,
            self.colors.fg,
            self.colors.bg,
        );
        if on_screen(self) {
            let y = self.cursor_y;
            assert(0 <= (y + 9) * stride && (y + 9) * stride + stride <= stride * screen.height)
                by (nonlinear_arith)
                requires
                    0 <= y,
                    y + 10 <= screen.height,
                    0 <= stride,
            ;
        }
    }

    /// Whether the terminal can receive each of the bytes `buf` when its turn comes.
    pub open spec fn can_receive_all(self, buf: Seq<u8>) -> bool {
        forall|i: int|
            0 <= i < buf.len() ==> #[trigger] self.received_all(buf.take(i)).can_receive(buf[i])
    }
}

/// Whether the screen has room for at least one character cell, its lines are as long as its
/// memory makes them, and its size leaves room to compute with.
pub open spec fn has_room(screen: FramebufferModel) -> bool {
    &&& screen.pixels.len() == screen.stride() * screen.height
    &&& CELL_WIDTH <= screen.stride()
    &&& 0 <= screen.width <= screen.stride()
    &&& CELL_HEIGHT <= screen.height
    &&& screen.width + 2 * CELL_WIDTH <= usize::MAX
    &&& screen.height + 2 * CELL_HEIGHT <= usize::MAX
}

/// Whether the cell at the cursor lies on the screen: the cursor is at the start of a line or
/// leaves room for a cell on it, and the line fits the screen.
pub open spec fn on_screen(terminal: TerminalModel) -> bool {
    &&& has_room(terminal.screen)
    &&& 0 <= terminal.cursor_x
    &&& terminal.cursor_x == 0 || terminal.cursor_x + CELL_WIDTH <= terminal.screen.width
    &&& 0 <= terminal.cursor_y
    &&& terminal.cursor_y + CELL_HEIGHT <= terminal.screen.height
}

pub struct Terminal<'a> {
    pub framebuffer: Framebuffer<'a>,
    pub font: &'a [u8; FONT_BYTES],
    pub cursor_x: usize,
    pub cursor_y: usize,
    pub fg_color: u32,
    pub bg_color: u32,
    pub ansi_state: AnsiState,
}

impl<'a> View for Terminal<'a> {
    type V = TerminalModel;

    open spec fn view(&self) -> TerminalModel {
        TerminalModel {
            screen: self.framebuffer@,
            font: self.font@,
            cursor_x: self.cursor_x as int,
            cursor_y: self.cursor_y as int,
            colors: Colors { fg: self.fg_color, bg: self.bg_color },
            ansi: self.ansi_state@,
        }
    }
}

impl<'a> WellFormed for Terminal<'a> {
    /// The parameters are in order, and the cursor is on the screen, if that has room at all.
    open spec fn wf(&self) -> bool {
        &&& self.ansi_state.wf()
        &&& has_room(self@.screen) ==> on_screen(self@)
    }
}

impl<'a> Terminal<'a> {
    /// A terminal on `framebuffer` that draws with `font`, in the default colors and with the
    /// cursor in the upper left corner.
    pub fn new(framebuffer: Framebuffer<'a>, font: &'a [u8; FONT_BYTES]) -> (terminal: Self)
        ensures
            terminal.wf(),
            terminal@ == (TerminalModel {
                screen: framebuffer@,
                font: font@,
                cursor_x: 0,
                cursor_y: 0,
                colors: tokyo_night().initial(),
                ansi: AnsiModel::Ground,
            }),
            final(terminal.framebuffer.addr)@ == final(framebuffer.addr)@,
    {
        let theme: Theme = tokyo_night_theme();
        Terminal {
            framebuffer,
            font,
            cursor_x: 0,
            cursor_y: 0,
            fg_color: theme.default_fg,
            bg_color: theme.default_bg,
            ansi_state: AnsiState::Ground,
        }
    }

    /// Empties the screen, and puts the cursor into the upper left corner.
    pub fn clear(&mut self)
        ensures
            final(self)@ == old(self)@.cleared(),
            final(self).ansi_state == old(self).ansi_state,
            old(self).ansi_state.wf() ==> final(self).wf(),
            final(final(self).framebuffer.addr)@ == final(old(self).framebuffer.addr)@,
    {
        self.framebuffer.fill(self.bg_color);
        self.cursor_x = 0;
        self.cursor_y = 0;
    }

    /// Makes room at the bottom. The terminal keeps no lines: it starts over on an empty screen.
    pub fn scroll(&mut self, _n: usize)
        ensures
            final(self)@ == old(self)@.cleared(),
            final(self).ansi_state == old(self).ansi_state,
            old(self).ansi_state.wf() ==> final(self).wf(),
            final(final(self).framebuffer.addr)@ == final(old(self).framebuffer.addr)@,
    {
        self.clear();
        self.cursor_y = 0;
    }

    fn line_feed(&mut self)
        requires
            old(self)@.can_go_down(),
        ensures
            final(self).ansi_state == old(self).ansi_state,
            final(self)@ == old(self)@.next_line(),
            final(final(self).framebuffer.addr)@ == final(old(self).framebuffer.addr)@,
    {
        self.cursor_x = 0;
        self.cursor_y = self.cursor_y + CELL_HEIGHT;
        if self.cursor_y + CELL_HEIGHT > self.framebuffer.height {
            self.scroll(1);
        }
    }

    /// Puts the character `c` at the cursor.
    pub fn put_char(&mut self, c: u8)
        requires
            old(self).wf(),
            old(self)@.can_put(c),
        ensures
            final(self).wf(),
            final(self)@ == old(self)@.char_put(c),
            final(final(self).framebuffer.addr)@ == final(old(self).framebuffer.addr)@,
    {
        proof {
            self@.lemma_put_stays_on_screen(c);
        }
        if c == NEWLINE {
            self.line_feed();
            return;
        }
        proof {
            self.framebuffer@.lemma_glyph_drawn_shape(
                self.font@,
                self.cursor_x as int,
                self.cursor_y as int,
                c,
                self.fg_color,
                self.bg_color,
            );
        }
        self.framebuffer.draw_glyph(
            self.font,
            self.cursor_x,
            self.cursor_y,
            c,
            self.fg_color,
            self.bg_color,
        );
        self.cursor_x = self.cursor_x + CELL_WIDTH;
        if self.cursor_x + CELL_WIDTH > self.framebuffer.width {
            self.line_feed();
        }
    }

    /// Selects the colors that the parameters `args` ask for, in order.
    fn select_colors(&mut self, args: &AnsiArgs)
        requires
            args.wf(),
        ensures
            final(self).ansi_state == old(self).ansi_state,
            final(self)@ == (TerminalModel {
                colors: tokyo_night().select_all(old(self)@.colors, args.params()),
                ..old(self)@
            }),
            final(final(self).framebuffer.addr)@ == final(old(self).framebuffer.addr)@,
    {
        let theme: Theme = tokyo_night_theme();
        let mut colors: Colors = Colors { fg: self.fg_color, bg: self.bg_color };
        let mut i: usize = 0;
        while i < args.count
            invariant
                args.wf(),
                i <= args.count,
                theme == tokyo_night(),
                colors == theme.select_all(old(self)@.colors, args.params().take(i as int)),
            decreases args.count - i,
        {
            assert(args.params().take(i as int + 1).drop_last() =~= args.params().take(i as int));
            colors = theme.apply(colors, args.args[i]);
            i = i + 1;
        }
        assert(args.params().take(args.count as int) =~= args.params());
        self.fg_color = colors.fg;
        self.bg_color = colors.bg;
    }

    /// Receives the byte `c`.
    pub fn recv_byte(&mut self, c: u8)
        requires
            old(self).wf(),
            old(self)@.can_receive(c),
        ensures
            final(self).wf(),
            final(self)@ == old(self)@.received(c),
            final(final(self).framebuffer.addr)@ == final(old(self).framebuffer.addr)@,
    {
        match self.ansi_state {
            AnsiState::Ground => {
                if c == ESC {
                    self.ansi_state = AnsiState::Escape;
                } else {
                    self.put_char(c);
                    // stay in Ground
                }
            },
            AnsiState::Escape => {
                if c == OPEN_BRACKET {
                    self.ansi_state = AnsiState::Arg(AnsiArgs::default());
                } else {
                    self.ansi_state = AnsiState::Ground;
                }
            },
            AnsiState::Arg(mut args) => {
                let ghost params = args.params();
                if c >= DIGIT_ZERO && c <= DIGIT_NINE {
                    let last: usize = args.args[args.count - 1];
                    assert(last == params.last());
                    args.args[args.count - 1] = last * 10 + (c - DIGIT_ZERO) as usize;
                    assert(args.params() =~= params.update(
                        params.len() - 1,
                        (params.last() * 10 + (c - DIGIT_ZERO)) as usize,
                    ));
                    self.ansi_state = AnsiState::Arg(args);
                } else if c == SEMICOLON {
                    if args.count < MAX_ARGS {
                        args.count = args.count + 1;
                        assert(args.params() =~= params.push(0));
                    }
                    self.ansi_state = AnsiState::Arg(args);
                } else if c == LETTER_M {
                    self.select_colors(&args);
                    self.ansi_state = AnsiState::Ground;
                } else {
                    // ignore and stay in Arg
                }
            },
        }
    }

    /// Whether the terminal can receive the byte `c`.
    pub fn can_recv(&self, c: u8) -> (can: bool)
        requires
            self.wf(),
        ensures
            can == self@.can_receive(c),
    {
        match self.ansi_state {
            AnsiState::Ground => c == ESC || self.can_put_char(c),
            AnsiState::Escape => true,
            AnsiState::Arg(args) => {
                assert(args.args@[args.count - 1] == args.params().last());
                if c >= DIGIT_ZERO && c <= DIGIT_NINE {
                    let last: usize = args.args[args.count - 1];
                    let digit: usize = (c - DIGIT_ZERO) as usize;
                    last <= usize::MAX / 10 && last * 10 <= usize::MAX - digit
                } else {
                    true
                }
            },
        }
    }

    /// Whether the character `c` can be put.
    fn can_put_char(&self, c: u8) -> (can: bool)
        ensures
            can == self@.can_put(c),
    {
        let down: bool = self.cursor_y <= usize::MAX - 2 * CELL_HEIGHT;
        if c == NEWLINE {
            return down;
        }
        if c < 128 && !self.framebuffer.has_cell_at(self.cursor_x, self.cursor_y) {
            return false;
        }
        if self.cursor_x > usize::MAX - 2 * CELL_WIDTH {
            return false;
        }
        self.cursor_x + 2 * CELL_WIDTH <= self.framebuffer.width || down
    }

    /// Receives the bytes `buf`, in order.
    pub fn recv_bytes(&mut self, buf: &[u8])
        requires
            old(self).wf(),
            old(self)@.can_receive_all(buf@),
        ensures
            final(self).wf(),
            final(self)@ == old(self)@.received_all(buf@),
            final(final(self).framebuffer.addr)@ == final(old(self).framebuffer.addr)@,
    {
        let mut i: usize = 0;
        while i < buf.len()
            invariant
                i <= buf@.len(),
                self.wf(),
                old(self)@.can_receive_all(buf@),
                self@ == old(self)@.received_all(buf@.take(i as int)),
                final(self.framebuffer.addr)@ == final(old(self).framebuffer.addr)@,
            decreases buf@.len() - i,
        {
            assert(old(self)@.received_all(buf@.take(i as int)).can_receive(buf@[i as int]));
            assert(buf@.take(i as int + 1).drop_last() =~= buf@.take(i as int));
            self.recv_byte(buf[i]);
            i = i + 1;
        }
        assert(buf@.take(buf@.len() as int) =~= buf@);
    }

    /// Receives the bytes of `s`.
    pub fn write_str(&mut self, s: &str)
        requires
            old(self).wf(),
            old(self)@.can_receive_all(vstd::utf8::encode_utf8(s@)),
        ensures
            final(self).wf(),
            final(self)@ == old(self)@.received_all(vstd::utf8::encode_utf8(s@)),
            final(final(self).framebuffer.addr)@ == final(old(self).framebuffer.addr)@,
    {
        self.recv_bytes(s.as_bytes());
    }
}

} // verus!
