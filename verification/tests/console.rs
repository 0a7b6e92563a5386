use kernel::dev::console::framebuffer::Framebuffer;
use kernel::dev::console::terminal::{AnsiArgs, AnsiState, Terminal};
use kernel::dev::console::theme::{gruvbox_theme, tokyo_night_theme, vga_theme, Colors};
use kernel::dev::console::{init, log};

const FG: u32 = 0xC0C0C0;
const BG: u32 = 0x1A1B26;

/// A font in which `A` is a diagonal, `B` is a block, and everything else is empty.
fn font() -> [u8; 1024] {
    let mut font = [0u8; 1024];
    for row in 0..8 {
        font[65 * 8 + row] = 1 << row;
        font[66 * 8 + row] = 0xff;
    }
    font
}

/// Runs `f` on a terminal of `width` by `height` pixels, and returns the pixels.
fn on_screen(width: usize, height: usize, f: impl FnOnce(&mut Terminal)) -> Vec<u32> {
    let font = font();
    let mut pixels = vec![7u32; width * height];
    {
        let fb = Framebuffer::from(&mut pixels, width as u64, height as u64, width as u64 * 4);
        let mut terminal = Terminal::new(fb, &font);
        f(&mut terminal);
    }
    pixels
}

#[test]
fn pixel_count_comes_from_the_pitch() {
    assert_eq!(Framebuffer::pixel_count(600, 3200), 480_000);
    assert_eq!(Framebuffer::pixel_count(10, 35), 80);
    assert_eq!(Framebuffer::pixel_count(0, 3200), 0);
}

#[test]
fn put_pixel_uses_the_pitch() {
    let mut pixels = vec![0u32; 12 * 3];
    {
        let mut fb = Framebuffer::from(&mut pixels, 10, 3, 48);
        fb.put_pixel(2, 1, 9);
    }
    for (i, pixel) in pixels.iter().enumerate() {
        assert_eq!(*pixel, if i == 14 { 9 } else { 0 });
    }
}

#[test]
fn glyph_fills_its_cell_and_nothing_else() {
    let (width, height) = (24, 20);
    let font = font();
    let mut pixels = vec![7u32; width * height];
    {
        let mut fb = Framebuffer::from(&mut pixels, 24, 20, 96);
        fb.draw_glyph(&font, 9, 6, 65, 1, 2);
    }
    for y in 0..height {
        for x in 0..width {
            let expected = if (9..17).contains(&x) && (6..16).contains(&y) {
                if (7..15).contains(&y) && x - 9 == y - 7 { 1 } else { 2 }
            } else {
                7
            };
            assert_eq!(pixels[y * width + x], expected, "at {x}, {y}");
        }
    }
}

#[test]
fn glyphs_past_the_font_are_not_drawn() {
    let pixels = on_screen(24, 20, |terminal| {
        terminal.put_char(128);
        assert_eq!((terminal.cursor_x, terminal.cursor_y), (8, 0));
        terminal.put_char(255);
        assert_eq!((terminal.cursor_x, terminal.cursor_y), (16, 0));
    });
    assert!(pixels.iter().all(|&p| p == 7));
}

#[test]
fn has_cell_at_tells_where_glyphs_can_be_drawn() {
    let mut pixels = vec![0u32; 16 * 20];
    let fb = Framebuffer::from(&mut pixels, 16, 20, 64);
    assert!(fb.has_cell_at(8, 10));
    assert!(!fb.has_cell_at(9, 10));
    assert!(!fb.has_cell_at(0, 11));
    assert!(!fb.has_cell_at(0, usize::MAX));
    assert!(!fb.has_cell_at(usize::MAX, 0));
}

#[test]
fn cursor_wraps_and_scrolls() {
    on_screen(20, 25, |terminal| {
        terminal.put_char(b'A');
        assert_eq!((terminal.cursor_x, terminal.cursor_y), (8, 0));
        terminal.put_char(b'A');
        // 16 + 8 > 20: no room for a third glyph.
        assert_eq!((terminal.cursor_x, terminal.cursor_y), (0, 10));
        terminal.put_char(b'A');
        assert_eq!((terminal.cursor_x, terminal.cursor_y), (8, 10));
        terminal.put_char(b'\n');
        // 20 + 10 > 25: the screen is cleared.
        assert_eq!((terminal.cursor_x, terminal.cursor_y), (0, 0));
        assert!(terminal.framebuffer.addr.iter().all(|&p| p == BG));
    });
}

#[test]
fn last_glyph_of_the_screen_clears_it() {
    let pixels = on_screen(16, 10, |terminal| {
        terminal.recv_bytes(b"BB");
        assert_eq!((terminal.cursor_x, terminal.cursor_y), (0, 0));
    });
    assert!(pixels.iter().all(|&p| p == BG));
}

#[test]
fn newline_at_the_start_of_a_screen() {
    on_screen(16, 20, |terminal| {
        terminal.recv_byte(b'\n');
        assert_eq!((terminal.cursor_x, terminal.cursor_y), (0, 10));
    });
}

#[test]
fn clear_and_scroll_start_over() {
    let pixels = on_screen(16, 20, |terminal| {
        terminal.recv_bytes(b"A\x1b[41m");
        terminal.clear();
        assert_eq!((terminal.cursor_x, terminal.cursor_y), (0, 0));
        assert!(terminal.framebuffer.addr.iter().all(|&p| p == 0xF7768E));
        terminal.recv_bytes(b"\x1b[42mA");
        terminal.scroll(3);
        assert_eq!((terminal.cursor_x, terminal.cursor_y), (0, 0));
    });
    assert!(pixels.iter().all(|&p| p == 0x9ECE6A));
}

#[test]
fn text_is_drawn_in_the_current_colors() {
    let pixels = on_screen(32, 20, |terminal| {
        terminal.recv_bytes(b"B\x1b[91;44mB");
    });
    // In the second line of the cells, all pixels are on.
    assert_eq!(pixels[32..40], [FG; 8]);
    assert_eq!(pixels[40..48], [0xFF7A93; 8]);
    // The first line is blank.
    assert_eq!(pixels[0..8], [BG; 8]);
    assert_eq!(pixels[8..16], [0x7AA2F7; 8]);
    assert_eq!(pixels[16..24], [7; 8]);
}

#[test]
fn color_sequences() {
    on_screen(32, 20, |terminal| {
        let mut check = |bytes: &[u8], fg: u32, bg: u32| {
            terminal.recv_bytes(bytes);
            assert_eq!((terminal.fg_color, terminal.bg_color), (fg, bg));
            assert_eq!(terminal.ansi_state, AnsiState::Ground);
        };
        check(b"\x1b[30m", 0x1A1B26, BG);
        check(b"\x1b[37m", 0xC0C0C0, BG);
        check(b"\x1b[90m", 0x414868, BG);
        check(b"\x1b[97m", 0xFFFFFF, BG);
        check(b"\x1b[40m", 0xFFFFFF, 0x1A1B26);
        check(b"\x1b[47m", 0xFFFFFF, 0xC0C0C0);
        check(b"\x1b[100m", 0xFFFFFF, 0x414868);
        check(b"\x1b[107m", 0xFFFFFF, 0xFFFFFF);
        check(b"\x1b[39m", FG, 0xFFFFFF);
        check(b"\x1b[49m", FG, BG);
        check(b"\x1b[93m", 0xE6C384, BG);
        check(b"\x1b[38m", 0xE6C384, BG);
        check(b"\x1b[98m", 0xE6C384, BG);
        check(b"\x1b[108m", 0xE6C384, BG);
        check(b"\x1b[m", FG, BG);
        check(b"\x1b[31;42;0m", FG, BG);
        check(b"\x1b[0;31;42m", 0xF7768E, 0x9ECE6A);
        // An empty parameter is zero.
        check(b"\x1b[;32m", 0x9ECE6A, BG);
        check(b"\x1b[32;m", FG, BG);
        // Leading zeros.
        check(b"\x1b[0032m", 0x9ECE6A, BG);
        // The ninth parameter runs into the eighth: 0, then 31.
        check(b"\x1b[1;1;1;1;1;1;1;0;31m", 0xF7768E, BG);
    });
}

#[test]
fn escape_sequences_draw_nothing() {
    let pixels = on_screen(32, 20, |terminal| {
        terminal.recv_byte(0x1b);
        assert_eq!(terminal.ansi_state, AnsiState::Escape);
        // Not a bracket: the sequence is dropped, and the byte with it.
        terminal.recv_byte(b'B');
        assert_eq!(terminal.ansi_state, AnsiState::Ground);
        terminal.recv_bytes(b"\x1b[B?H3 1");
        assert_eq!(
            terminal.ansi_state,
            AnsiState::Arg(AnsiArgs { count: 1, args: [31, 0, 0, 0, 0, 0, 0, 0] })
        );
        terminal.recv_byte(b'm');
        assert_eq!(terminal.fg_color, 0xF7768E);
        assert_eq!((terminal.cursor_x, terminal.cursor_y), (0, 0));
    });
    assert!(pixels.iter().all(|&p| p == 7));
}

#[test]
fn default_args_are_a_single_zero() {
    assert_eq!(AnsiArgs::default(), AnsiArgs { count: 1, args: [0; 8] });
}

#[test]
fn bytes_can_come_in_pieces() {
    let text = b"AB\x1b[3";
    let rest = b"3;101mBA\nB";
    let whole = on_screen(40, 30, |terminal| {
        terminal.recv_bytes(&[&text[..], &rest[..]].concat());
    });
    let pieces = on_screen(40, 30, |terminal| {
        terminal.recv_bytes(text);
        terminal.recv_bytes(rest);
    });
    assert_eq!(whole, pieces);
}

#[test]
fn parameters_that_do_not_fit_are_refused() {
    on_screen(32, 20, |terminal| {
        terminal.recv_bytes(b"\x1b[1844674407370955161");
        assert!(terminal.can_recv(b'5'));
        assert!(!terminal.can_recv(b'6'));
        assert!(terminal.can_recv(b';'));
        terminal.recv_byte(b'5');
        assert!(!terminal.can_recv(b'0'));
        assert!(terminal.can_recv(b'm'));
    });
}

#[test]
fn characters_that_do_not_fit_are_refused() {
    // Nine lines are too few for a cell.
    on_screen(32, 9, |terminal| {
        assert!(!terminal.can_recv(b'A'));
        assert!(terminal.can_recv(200));
        assert!(terminal.can_recv(b'\n'));
        assert!(terminal.can_recv(0x1b));
    });
}

#[test]
fn console_needs_a_framebuffer() {
    let font = font();
    let mut console: Option<Terminal> = None;
    assert!(!init(&mut console, None, &font));
    assert!(console.is_none());
    log(&mut console, "lost");
    assert!(console.is_none());
}

#[test]
fn console_starts_cleared_and_logs() {
    let font = font();
    let mut pixels = vec![0u32; 32 * 20];
    {
        let mut console = None;
        let fb = Framebuffer::from(&mut pixels, 32, 20, 128);
        assert!(init(&mut console, Some(fb), &font));
        assert!(console.as_ref().unwrap().framebuffer.addr.iter().all(|&p| p == BG));
        log(&mut console, "B\u{e9}");
        // The second character is two bytes, neither of which has a glyph.
        assert_eq!(console.as_ref().unwrap().cursor_x, 24);
    }
    assert_eq!(pixels[32..40], [FG; 8]);
    assert_eq!(pixels[40..48], [BG; 8]);
}

#[test]
fn themes() {
    let vga = vga_theme();
    assert_eq!((vga.default_fg, vga.default_bg), (0xC0C0C0, 0x000000));
    assert_eq!(vga.colors[3], 0xAA5500);
    assert_eq!(vga.bright_colors[7], 0xFFFFFF);
    let gruvbox = gruvbox_theme();
    assert_eq!((gruvbox.default_fg, gruvbox.default_bg), (0xEBDBB2, 0x282828));
    assert_eq!(gruvbox.colors[4], 0x458588);
    assert_eq!(gruvbox.bright_colors[0], 0x665C54);
    let tokyo_night = tokyo_night_theme();
    assert_eq!((tokyo_night.default_fg, tokyo_night.default_bg), (FG, BG));
    let colors = Colors { fg: 1, bg: 2 };
    assert_eq!(vga.apply(colors, 33), Colors { fg: 0xAA5500, bg: 2 });
    assert_eq!(gruvbox.apply(colors, 104), Colors { fg: 1, bg: 0x83A598 });
    assert_eq!(vga.apply(colors, 5), colors);
}

#[test]
fn plain_text_is_never_refused() {
    on_screen(20, 25, |terminal| {
        for round in 0..1000u32 {
            let byte = (round * 37 % 256) as u8;
            if byte == 0x1b {
                continue;
            }
            assert!(terminal.can_recv(byte));
            terminal.recv_byte(byte);
            assert!(terminal.cursor_x == 0 || terminal.cursor_x + 8 <= 20);
            assert!(terminal.cursor_y + 10 <= 25);
            assert_eq!((terminal.fg_color, terminal.bg_color), (FG, BG));
        }
    });
}

#[test]
fn eight_parameters_are_taken_in_order() {
    on_screen(32, 20, |terminal| {
        terminal.recv_bytes(b"\x1b[31;41;32;42;;33;43;34m");
        assert_eq!((terminal.fg_color, terminal.bg_color), (0x7AA2F7, 0xE0AF68));
    });
}
