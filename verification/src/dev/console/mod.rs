//! The console: a terminal on the framebuffer.

pub mod framebuffer;
pub mod framebuffer_laws;
pub mod terminal;
pub mod terminal_laws;
pub mod theme;

use crate::dev::console::framebuffer::{Framebuffer, FONT_BYTES};
use crate::dev::console::terminal::{AnsiModel, Terminal, TerminalModel};
use crate::dev::console::theme::tokyo_night;
use crate::sync::WellFormed;
use vstd::prelude::*;

verus! {

/// Puts a cleared terminal on `framebuffer` into the slot `console`, and says whether there was
/// a framebuffer to put it on.
pub fn init<'a>(
    console: &mut Option<Terminal<'a>>,
    framebuffer: Option<Framebuffer<'a>>,
    font: &'a [u8; FONT_BYTES],
) -> (ready: bool)
    ensures
        ready == (framebuffer is Some),
        match framebuffer {
            Some(fb) => {
                &&& *final(console) matches Some(terminal)
                &&& terminal.wf()
                &&& terminal@ == (TerminalModel {
                    screen: fb@,
                    font: font@,
                    cursor_x: 0,
                    cursor_y: 0,
                    colors: tokyo_night().initial(),
                    ansi: AnsiModel::Ground,
                }).cleared()
                &&& final(terminal.framebuffer.addr)@ == final(fb.addr)@
            },
            None => *final(console) == *old(console),
        },
{
    let fb: Framebuffer<'a> = match framebuffer {
        Some(fb) => fb,
        None => return false,
    };
    let mut terminal = Terminal::new(fb, font);
    terminal.clear();
    *console = Some(terminal);
    true
}

/// Writes `text` to the terminal in the slot `console`, if there is one.
pub fn log(console: &mut Option<Terminal<'_>>, text: &str)
    requires
        *old(console) matches Some(terminal) ==> terminal.wf() && terminal@.can_receive_all(
            vstd::utf8::encode_utf8(text@),
        ),
    ensures
        match *old(console) {
            Some(terminal) => {
                &&& *final(console) matches Some(after)
                &&& after.wf()
                &&& after@ == terminal@.received_all(vstd::utf8::encode_utf8(text@))
                &&& final(after.framebuffer.addr)@ == final(terminal.framebuffer.addr)@
            },
            None => *final(console) is None,
        },
{
    if let Some(terminal) = console {
        terminal.write_str(text);
    }
}

} // verus!
