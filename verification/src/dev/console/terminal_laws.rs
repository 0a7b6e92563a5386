//! What holds of the terminal as a whole.

use crate::dev::console::terminal::{
    on_screen, AnsiModel, AnsiState, Terminal, TerminalModel, DIGIT_NINE, DIGIT_ZERO, ESC,
    LETTER_M, MAX_ARGS, OPEN_BRACKET, SEMICOLON,
};
use crate::dev::console::theme::{tokyo_night, Colors, Theme};
use vstd::prelude::*;

verus! {

/// The number that the digits `digits` write.
pub open spec fn decimal(digits: Seq<u8>) -> int
    decreases digits.len(),
{
    if digits.len() == 0 {
        0
    } else {
        decimal(digits.drop_last()) * 10 + (digits.last() - DIGIT_ZERO)
    }
}

/// Whether `digits` are digits.
pub open spec fn is_number(digits: Seq<u8>) -> bool {
    forall|i: int| 0 <= i < digits.len() ==> DIGIT_ZERO <= #[trigger] digits[i] <= DIGIT_NINE
}

/// Whether each of `numbers` is written in digits, and small enough for a parameter.
pub open spec fn are_parameters(numbers: Seq<Seq<u8>>) -> bool {
    forall|i: int|
        0 <= i < numbers.len() ==> is_number(#[trigger] numbers[i]) && decimal(numbers[i])
            <= usize::MAX
}

/// The numbers in a row, with `;` between them.
pub open spec fn joined(numbers: Seq<Seq<u8>>) -> Seq<u8>
    decreases numbers.len(),
{
    if numbers.len() == 0 {
        Seq::empty()
    } else if numbers.len() == 1 {
        numbers[0]
    } else {
        joined(numbers.drop_last()).push(SEMICOLON) + numbers.last()
    }
}

/// The values of the numbers.
pub open spec fn values(numbers: Seq<Seq<u8>>) -> Seq<usize> {
    Seq::new(numbers.len(), |i: int| decimal(numbers[i]) as usize)
}

/// It does not matter how a stream of bytes is cut into pieces: the terminal ends up the same, and
/// the whole can be received exactly if the pieces can, one after the other.
pub proof fn receiving_in_pieces(terminal: TerminalModel, first: Seq<u8>, second: Seq<u8>)
    ensures
        terminal.received_all(first + second) == terminal.received_all(first).received_all(second),
        terminal.can_receive_all(first + second) <==> terminal.can_receive_all(first)
            && terminal.received_all(first).can_receive_all(second),
    decreases second.len(),
{
    if second.len() == 0 {
        assert(first + second =~= first);
    } else {
        let rest = second.drop_last();
        receiving_in_pieces(terminal, first, rest);
        assert((first + second).drop_last() =~= first + rest);
        lemma_can_receive_last(terminal, first + second);
        lemma_can_receive_last(terminal.received_all(first), second);
    }
}

/// Bytes can be received if all but the last of them can, and then the last one.
proof fn lemma_can_receive_last(terminal: TerminalModel, buf: Seq<u8>)
    requires
        buf.len() > 0,
    ensures
        terminal.can_receive_all(buf) <==> terminal.can_receive_all(buf.drop_last())
            && terminal.received_all(buf.drop_last()).can_receive(buf.last()),
{
    let rest = buf.drop_last();
    let last = buf.len() - 1;
    assert(buf.take(last) =~= rest);
    assert forall|i: int| 0 <= i < last implies #[trigger] buf.take(i) == rest.take(i) by {
        assert(buf.take(i) =~= rest.take(i));
    }
    if terminal.can_receive_all(buf) {
        assert forall|i: int| 0 <= i < rest.len() implies #[trigger] terminal.received_all(
            rest.take(i),
        ).can_receive(rest[i]) by {
            assert(buf.take(i) == rest.take(i));
            assert(terminal.received_all(buf.take(i)).can_receive(buf[i]));
        }
        assert(terminal.received_all(buf.take(last)).can_receive(buf[last]));
    }
    if terminal.can_receive_all(rest) && terminal.received_all(rest).can_receive(buf.last()) {
        assert forall|i: int| 0 <= i < buf.len() implies #[trigger] terminal.received_all(
            buf.take(i),
        ).can_receive(buf[i]) by {
            if i < last {
                assert(terminal.received_all(rest.take(i)).can_receive(rest[i]));
            }
        }
    }
}

/// Receiving nothing changes nothing, and receiving a single byte is receiving that byte.
pub proof fn receiving_few_bytes(terminal: TerminalModel, c: u8)
    ensures
        terminal.received_all(Seq::empty()) == terminal,
        terminal.received_all(seq![c]) == terminal.received(c),
        terminal.can_receive_all(Seq::empty()),
        terminal.can_receive_all(seq![c]) <==> terminal.can_receive(c),
{
    assert(seq![c].drop_last() =~= Seq::<u8>::empty());
    reveal_with_fuel(TerminalModel::received_all, 2);
    lemma_can_receive_last(terminal, seq![c]);
}

/// Outside of an escape sequence, any byte but ESC is put, and nothing else happens.
pub proof fn bytes_outside_of_sequences_are_put(terminal: TerminalModel, c: u8)
    requires
        terminal.ansi is Ground,
        c != ESC,
    ensures
        terminal.received(c) == terminal.char_put(c),
        terminal.received(c).ansi is Ground,
        terminal.can_receive(c) <==> terminal.can_put(c),
{
}

/// Whether the terminal has read at least one parameter of an escape sequence and no more than
/// are kept, if it is in one.
pub open spec fn parameters_in_bounds(terminal: TerminalModel) -> bool {
    terminal.ansi matches AnsiModel::Arg(params) ==> 1 <= params.len() <= MAX_ARGS
}

/// No bytes, however many `;` they hold, make the terminal read more parameters than are kept.
pub proof fn parameters_stay_in_bounds(terminal: TerminalModel, buf: Seq<u8>)
    requires
        parameters_in_bounds(terminal),
    ensures
        parameters_in_bounds(terminal.received_all(buf)),
    decreases buf.len(),
{
    if buf.len() > 0 {
        parameters_stay_in_bounds(terminal, buf.drop_last());
    }
}

/// The bytes of an escape sequence draw nothing and do not move the cursor.
pub proof fn escape_sequences_draw_nothing(terminal: TerminalModel, c: u8)
    requires
        terminal.ansi !is Ground || c == ESC,
    ensures
        terminal.received(c).screen == terminal.screen,
        terminal.received(c).cursor_x == terminal.cursor_x,
        terminal.received(c).cursor_y == terminal.cursor_y,
{
}

/// Only the `m` of an escape sequence changes the colors.
pub proof fn only_sequences_change_colors(terminal: TerminalModel, c: u8)
    requires
        terminal.ansi !is Arg || c != LETTER_M,
    ensures
        terminal.received(c).colors == terminal.colors,
{
}

/// A terminal whose cursor is on the screen can put any character, and its cursor stays on the
/// screen whatever it receives.
pub proof fn cursor_stays_on_screen(terminal: TerminalModel, c: u8)
    requires
        on_screen(terminal),
    ensures
        terminal.can_put(c),
        on_screen(terminal.received(c)),
{
    terminal.lemma_put_stays_on_screen(c);
}

/// A terminal whose cursor is on the screen can receive any bytes whose parameters stay small
/// enough: it is only a digit of a parameter that it may have to refuse.
pub proof fn only_digits_are_refused(terminal: TerminalModel, c: u8)
    requires
        on_screen(terminal),
        !terminal.can_receive(c),
    ensures
        terminal.ansi is Arg,
        DIGIT_ZERO <= c <= DIGIT_NINE,
{
    cursor_stays_on_screen(terminal, c);
}

/// Text without ESC can always be written to a terminal whose cursor is on the screen: no byte of
/// it has to be refused, and it leaves the cursor on the screen and the colors as they are.
pub proof fn plain_text_can_be_received(terminal: TerminalModel, text: Seq<u8>)
    requires
        on_screen(terminal),
        terminal.ansi is Ground,
        !text.contains(ESC),
    ensures
        terminal.can_receive_all(text),
        on_screen(terminal.received_all(text)),
        terminal.received_all(text).ansi is Ground,
        terminal.received_all(text).colors == terminal.colors,
    decreases text.len(),
{
    if text.len() > 0 {
        let rest = text.drop_last();
        let last = text.len() - 1;
        assert forall|i: int| 0 <= i < rest.len() implies rest[i] != ESC by {
            assert(text[i] == rest[i]);
        }
        plain_text_can_be_received(terminal, rest);
        assert(text[last] != ESC);
        cursor_stays_on_screen(terminal.received_all(rest), text[last]);
        lemma_can_receive_last(terminal, text);
    }
}

/// The bytes of the sequence that selects the colors `numbers`.
pub open spec fn color_sequence(numbers: Seq<Seq<u8>>) -> Seq<u8> {
    (seq![ESC, OPEN_BRACKET] + joined(numbers)).push(LETTER_M)
}

/// The digits of a parameter are collected into it.
proof fn lemma_collect_digits(terminal: TerminalModel, params: Seq<usize>, digits: Seq<u8>)
    requires
        terminal.ansi == AnsiModel::Arg(params),
        params.len() > 0,
        params.last() == 0,
        is_number(digits),
        decimal(digits) <= usize::MAX,
    ensures
        0 <= decimal(digits),
        terminal.received_all(digits) == (TerminalModel {
            ansi: AnsiModel::Arg(params.update(params.len() - 1, decimal(digits) as usize)),
            ..terminal
        }),
        terminal.can_receive_all(digits),
    decreases digits.len(),
{
    if digits.len() == 0 {
        assert(params.update(params.len() - 1, 0) =~= params);
    } else {
        let rest = digits.drop_last();
        assert(DIGIT_ZERO <= digits[digits.len() - 1] <= DIGIT_NINE);
        assert forall|i: int| 0 <= i < rest.len() implies DIGIT_ZERO <= #[trigger] rest[i]
            <= DIGIT_NINE by {
            assert(DIGIT_ZERO <= digits[i] <= DIGIT_NINE);
        }
        lemma_decimal_grows(digits);
        lemma_collect_digits(terminal, params, rest);
        let before = params.update(params.len() - 1, decimal(rest) as usize);
        assert(before.last() == decimal(rest));
        lemma_can_receive_last(terminal, digits);
        assert(before.update(before.len() - 1, decimal(digits) as usize) =~= params.update(
            params.len() - 1,
            decimal(digits) as usize,
        ));
    }
}

/// After ESC and `[`, the parameters are collected one after the other.
proof fn lemma_collect_numbers(terminal: TerminalModel, numbers: Seq<Seq<u8>>)
    requires
        terminal.ansi is Ground,
        1 <= numbers.len() <= MAX_ARGS,
        are_parameters(numbers),
    ensures
        terminal.received_all(seq![ESC, OPEN_BRACKET] + joined(numbers)) == (TerminalModel {
            ansi: AnsiModel::Arg(values(numbers)),
            ..terminal
        }),
        terminal.can_receive_all(seq![ESC, OPEN_BRACKET] + joined(numbers)),
    decreases numbers.len(),
{
    let opened = seq![ESC, OPEN_BRACKET];
    let last = numbers.len() - 1;
    assert(is_number(numbers[last]) && decimal(numbers[last]) <= usize::MAX);
    if numbers.len() == 1 {
        assert(opened.drop_last() =~= seq![ESC]);
        assert(seq![ESC].drop_last() =~= Seq::<u8>::empty());
        reveal_with_fuel(TerminalModel::received_all, 3);
        lemma_can_receive_last(terminal, opened);
        lemma_can_receive_last(terminal, seq![ESC]);
        let start = terminal.received_all(opened);
        assert(start == (TerminalModel { ansi: AnsiModel::Arg(seq![0usize]), ..terminal }));
        receiving_in_pieces(terminal, opened, numbers[0]);
        lemma_collect_digits(start, seq![0usize], numbers[0]);
        assert(seq![0usize].update(0, decimal(numbers[0]) as usize) =~= values(numbers));
    } else {
        let rest = numbers.drop_last();
        assert forall|i: int| 0 <= i < rest.len() implies is_number(#[trigger] rest[i]) && decimal(
            rest[i],
        ) <= usize::MAX by {
            assert(rest[i] == numbers[i]);
        }
        lemma_collect_numbers(terminal, rest);
        let before = opened + joined(rest);
        assert(before.push(SEMICOLON).drop_last() =~= before);
        lemma_can_receive_last(terminal, before.push(SEMICOLON));
        let next = terminal.received_all(before.push(SEMICOLON));
        let params = values(rest).push(0);
        assert(next == (TerminalModel { ansi: AnsiModel::Arg(params), ..terminal }));
        assert(opened + joined(numbers) =~= before.push(SEMICOLON) + numbers[last]);
        receiving_in_pieces(terminal, before.push(SEMICOLON), numbers[last]);
        lemma_collect_digits(next, params, numbers[last]);
        assert(params.update(params.len() - 1, decimal(numbers[last]) as usize) =~= values(
            numbers,
        ));
    }
}

proof fn lemma_decimal_grows(digits: Seq<u8>)
    requires
        digits.len() > 0,
        is_number(digits),
    ensures
        0 <= decimal(digits.drop_last()) <= decimal(digits),
    decreases digits.len(),
{
    let rest = digits.drop_last();
    assert(DIGIT_ZERO <= digits[digits.len() - 1] <= DIGIT_NINE);
    assert forall|i: int| 0 <= i < rest.len() implies DIGIT_ZERO <= #[trigger] rest[i]
        <= DIGIT_NINE by {
        assert(DIGIT_ZERO <= digits[i] <= DIGIT_NINE);
    }
    if rest.len() > 0 {
        lemma_decimal_grows(rest);
    }
}

/// The sequence ESC `[` numbers `m`, with `;` between the numbers, selects the colors that the
/// numbers stand for, in order, and does nothing else. An empty number is zero. No byte of it has
/// to be refused.
pub proof fn sequence_selects_colors(terminal: TerminalModel, numbers: Seq<Seq<u8>>)
    requires
        terminal.ansi is Ground,
        1 <= numbers.len() <= MAX_ARGS,
        are_parameters(numbers),
    ensures
        terminal.received_all(color_sequence(numbers)) == (TerminalModel {
            colors: tokyo_night().select_all(terminal.colors, values(numbers)),
            ..terminal
        }),
        terminal.can_receive_all(color_sequence(numbers)),
{
    lemma_collect_numbers(terminal, numbers);
    let sequence = seq![ESC, OPEN_BRACKET] + joined(numbers);
    assert(sequence.push(LETTER_M).drop_last() =~= sequence);
    lemma_can_receive_last(terminal, sequence.push(LETTER_M));
}

/// The sequence ESC `[` digits `m` selects the color that the number written by the digits
/// stands for, and does nothing else. Without digits the number is zero.
pub proof fn sequence_selects_color(terminal: TerminalModel, digits: Seq<u8>)
    requires
        terminal.ansi is Ground,
        is_number(digits),
        decimal(digits) <= usize::MAX,
    ensures
        terminal.received_all((seq![ESC, OPEN_BRACKET] + digits).push(LETTER_M)) == (
        TerminalModel {
            colors: tokyo_night().select(terminal.colors, decimal(digits)),
            ..terminal
        }),
        terminal.can_receive_all((seq![ESC, OPEN_BRACKET] + digits).push(LETTER_M)),
{
    let numbers = seq![digits];
    sequence_selects_colors(terminal, numbers);
    lemma_collect_digits(
        TerminalModel { ansi: AnsiModel::Arg(seq![0usize]), ..terminal },
        seq![0usize],
        digits,
    );
    let params = values(numbers);
    assert(params =~= seq![decimal(digits) as usize]);
    assert(params.drop_last() =~= Seq::<usize>::empty());
    reveal_with_fuel(Theme::select_all, 2);
}

/// ESC `[` `m` restores the colors that the terminal started with.
pub proof fn empty_sequence_resets_colors(terminal: TerminalModel)
    requires
        terminal.ansi is Ground,
    ensures
        terminal.received_all(seq![ESC, OPEN_BRACKET, LETTER_M]) == (TerminalModel {
            colors: tokyo_night().initial(),
            ..terminal
        }),
        terminal.can_receive_all(seq![ESC, OPEN_BRACKET, LETTER_M]),
{
    sequence_selects_color(terminal, Seq::empty());
    assert((seq![ESC, OPEN_BRACKET] + Seq::<u8>::empty()).push(LETTER_M) =~= seq![
        ESC,
        OPEN_BRACKET,
        LETTER_M,
    ]);
}

/// Text without ESC between two sequences that select colors can always be written to a terminal
/// whose cursor is on the screen. It leaves the cursor on the screen.
pub proof fn colored_text_can_be_received(
    terminal: TerminalModel,
    before: Seq<Seq<u8>>,
    text: Seq<u8>,
    after: Seq<Seq<u8>>,
)
    requires
        on_screen(terminal),
        terminal.ansi is Ground,
        1 <= before.len() <= MAX_ARGS,
        are_parameters(before),
        !text.contains(ESC),
        1 <= after.len() <= MAX_ARGS,
        are_parameters(after),
    ensures
        ({
            let message = color_sequence(before) + text + color_sequence(after);
            &&& terminal.can_receive_all(message)
            &&& on_screen(terminal.received_all(message))
            &&& terminal.received_all(message).ansi is Ground
        }),
{
    sequence_selects_colors(terminal, before);
    let colored = terminal.received_all(color_sequence(before));
    plain_text_can_be_received(colored, text);
    receiving_in_pieces(terminal, color_sequence(before), text);
    sequence_selects_colors(colored.received_all(text), after);
    receiving_in_pieces(terminal, color_sequence(before) + text, color_sequence(after));
}

/// A new line puts the cursor at the start of the line below, whatever the column was, and changes
/// no pixel; where there is no room for another line, the screen is emptied and the cursor starts
/// over. The colors stay as they are.
pub proof fn new_line_starts_the_next_line(terminal: TerminalModel)
    ensures
        ({
            let after = terminal.char_put(0x0a);
            &&& after.cursor_x == 0
            &&& terminal.cursor_y + 20 <= terminal.screen.height ==> after.cursor_y
                == terminal.cursor_y + 10 && after.screen == terminal.screen
            &&& terminal.cursor_y + 20 > terminal.screen.height ==> {
                &&& after.cursor_y == 0
                &&& after.screen.pixels.len() == terminal.screen.pixels.len()
                &&& forall|i: int|
                    0 <= i < terminal.screen.pixels.len() ==> #[trigger] after.screen.pixels[i]
                        == terminal.colors.bg
            }
            &&& after.screen.width == terminal.screen.width
            &&& after.screen.height == terminal.screen.height
            &&& after.screen.pitch == terminal.screen.pitch
            &&& after.colors == terminal.colors
            &&& after.font == terminal.font
            &&& after.ansi == terminal.ansi
        }),
{
}

/// A character other than a new line is drawn at the cursor, in the current colors. Then the cursor
/// is eight pixels further to the right, where that leaves room for another character on the line;
/// otherwise a new line follows.
pub proof fn character_is_drawn_at_the_cursor(terminal: TerminalModel, c: u8)
    requires
        c != 0x0a,
    ensures
        ({
            let after = terminal.char_put(c);
            let drawn = terminal.screen.glyph_drawn(
                terminal.font,
                terminal.cursor_x,
                terminal.cursor_y,
                c,
                terminal.colors.fg,
                terminal.colors.bg,
            );
            &&& terminal.cursor_x + 16 <= terminal.screen.width ==> after.cursor_x
                == terminal.cursor_x + 8 && after.cursor_y == terminal.cursor_y && after.screen
                == drawn
            &&& terminal.cursor_x + 16 > terminal.screen.width ==> after.cursor_x == 0
            &&& terminal.cursor_x + 16 > terminal.screen.width && terminal.cursor_y + 20
                <= terminal.screen.height ==> after.cursor_y == terminal.cursor_y + 10
                && after.screen == drawn
            &&& terminal.cursor_x + 16 > terminal.screen.width && terminal.cursor_y + 20
                > terminal.screen.height ==> {
                &&& after.cursor_y == 0
                &&& after.screen.pixels.len() == terminal.screen.pixels.len()
                &&& forall|i: int|
                    0 <= i < terminal.screen.pixels.len() ==> #[trigger] after.screen.pixels[i]
                        == terminal.colors.bg
            }
            &&& after.screen.width == terminal.screen.width
            &&& after.screen.height == terminal.screen.height
            &&& after.screen.pitch == terminal.screen.pitch
            &&& after.colors == terminal.colors
            &&& after.font == terminal.font
            &&& after.ansi == terminal.ansi
        }),
{
    terminal.screen.lemma_glyph_drawn_shape(
        terminal.font,
        terminal.cursor_x,
        terminal.cursor_y,
        c,
        terminal.colors.fg,
        terminal.colors.bg,
    );
}

/// Clearing empties the screen and puts the cursor into the upper left corner. It keeps the colors
/// and what has been read of an escape sequence.
pub proof fn clearing_empties_the_screen(terminal: TerminalModel, i: int)
    requires
        0 <= i < terminal.screen.pixels.len(),
    ensures
        terminal.cleared().screen.pixels[i] == terminal.colors.bg,
        terminal.cleared().screen.pixels.len() == terminal.screen.pixels.len(),
        terminal.cleared().screen.width == terminal.screen.width,
        terminal.cleared().screen.height == terminal.screen.height,
        terminal.cleared().screen.pitch == terminal.screen.pitch,
        terminal.cleared().cursor_x == 0,
        terminal.cleared().cursor_y == 0,
        terminal.cleared().colors == terminal.colors,
        terminal.cleared().font == terminal.font,
        terminal.cleared().ansi == terminal.ansi,
{
}

/// How a terminal reads an escape sequence: ESC begins one, and only `[` goes on with it; then a
/// digit is appended to the last parameter, `;` begins another one where fewer than eight are
/// there, `m` ends the sequence, and any other byte is skipped.
pub proof fn escape_sequences_are_read_byte_by_byte(terminal: TerminalModel, c: u8)
    ensures
        terminal.ansi is Ground && c == 0x1b ==> terminal.received(c).ansi is Escape,
        terminal.ansi is Escape && c == 0x5b ==> terminal.received(c).ansi == AnsiModel::Arg(
            seq![0usize],
        ),
        terminal.ansi is Escape && c != 0x5b ==> terminal.received(c).ansi is Ground,
        terminal.ansi matches AnsiModel::Arg(params) ==> {
            let after = terminal.received(c).ansi;
            let last = params.len() - 1;
            &&& 0x30 <= c <= 0x39 && params.len() > 0 && params[last] * 10 + (c - 0x30)
                <= usize::MAX ==> (after matches AnsiModel::Arg(read) && read.len() == params.len()
                && read[last] == params[last] * 10 + (c - 0x30) && forall|i: int|
                0 <= i < last ==> #[trigger] read[i] == params[i])
            &&& c == 0x3b && params.len() < 8 ==> (after matches AnsiModel::Arg(read) && read.len()
                == params.len() + 1 && read[params.len() as int] == 0 && forall|i: int|
                0 <= i < params.len() ==> #[trigger] read[i] == params[i])
            &&& c == 0x3b && params.len() >= 8 ==> after == terminal.ansi
            &&& c == 0x6d ==> after is Ground
            &&& !(0x30 <= c <= 0x39) && c != 0x3b && c != 0x6d ==> terminal.received(c) == terminal
        },
        !(terminal.ansi is Arg && c == 0x6d) ==> terminal.received(c).colors == terminal.colors,
        terminal.received(c).font == terminal.font,
{
}

/// Bytes are received one after the other.
pub proof fn bytes_are_received_in_order(terminal: TerminalModel, buf: Seq<u8>, c: u8)
    ensures
        terminal.received_all(Seq::empty()) == terminal,
        terminal.received_all(buf.push(c)) == terminal.received_all(buf).received(c),
        terminal.can_receive_all(Seq::empty()),
        terminal.can_receive_all(buf.push(c)) <==> terminal.can_receive_all(buf)
            && terminal.received_all(buf).can_receive(c),
{
    assert(buf.push(c).drop_last() =~= buf);
    lemma_can_receive_last(terminal, buf.push(c));
}

/// Which bytes can be received: those of an escape sequence, but for a digit that would make its
/// parameter too large; a new line, unless the cursor is too far down to be moved; and any other
/// byte whose cell lies in the framebuffer's memory, unless the cursor is too far out to be moved.
pub proof fn only_bytes_that_do_not_fit_are_refused(terminal: TerminalModel, c: u8)
    requires
        0 <= terminal.cursor_x,
        0 <= terminal.cursor_y,
        0 <= terminal.screen.pitch,
    ensures
        terminal.ansi is Escape ==> terminal.can_receive(c),
        terminal.ansi is Ground && c == 0x1b ==> terminal.can_receive(c),
        terminal.ansi is Ground && c == 0x0a ==> (terminal.can_receive(c) <==> terminal.cursor_y
            + 20 <= usize::MAX),
        terminal.ansi is Ground && c != 0x1b && c != 0x0a && terminal.cursor_x + 16 <= usize::MAX
            && terminal.cursor_y + 20 <= usize::MAX && (c >= 128 || (terminal.cursor_y + 9) * (
        terminal.screen.pitch / 4) + terminal.cursor_x + 7 < terminal.screen.pixels.len())
            ==> terminal.can_receive(c),
        terminal.ansi is Ground && c != 0x1b && c != 0x0a && c < 128 && (terminal.cursor_y + 9) * (
        terminal.screen.pitch / 4) + terminal.cursor_x + 7 >= terminal.screen.pixels.len()
            ==> !terminal.can_receive(c),
        terminal.ansi matches AnsiModel::Arg(params) ==> (params.len() > 0 ==> (
        terminal.can_receive(c) <==> !(0x30 <= c <= 0x39) || params[params.len() - 1] * 10 + (c
            - 0x30) <= usize::MAX)),
{
    assert(0 <= (terminal.cursor_y + 9) * (terminal.screen.pitch / 4)) by (nonlinear_arith)
        requires
            0 <= terminal.cursor_y,
            0 <= terminal.screen.pitch / 4,
    ;
}

/// Which colors a parameter of a sequence selects, in any theme: 30 to 37 and 90 to 97 the
/// foreground, 40 to 47 and 100 to 107 the background, 39 and 49 the default of each, 0 both
/// defaults, and any other number nothing.
pub proof fn parameters_stand_for_colors(theme: Theme, colors: Colors, param: int)
    ensures
        ({
            let after = theme.select(colors, param);
            &&& param == 0 ==> after.fg == theme.default_fg && after.bg == theme.default_bg
            &&& 30 <= param <= 37 ==> after.fg == theme.colors@[param - 30] && after.bg
                == colors.bg
            &&& param == 39 ==> after.fg == theme.default_fg && after.bg == colors.bg
            &&& 40 <= param <= 47 ==> after.bg == theme.colors@[param - 40] && after.fg
                == colors.fg
            &&& param == 49 ==> after.bg == theme.default_bg && after.fg == colors.fg
            &&& 90 <= param <= 97 ==> after.fg == theme.bright_colors@[param - 90] && after.bg
                == colors.bg
            &&& 100 <= param <= 107 ==> after.bg == theme.bright_colors@[param - 100] && after.fg
                == colors.fg
            &&& param != 0 && !(30 <= param <= 37) && param != 39 && !(40 <= param <= 47) && param
                != 49 && !(90 <= param <= 97) && !(100 <= param <= 107) ==> after == colors
        }),
{
}

/// The parameters of a sequence take effect one after the other, all of them at its `m`, which
/// does nothing else than that.
pub proof fn parameters_take_effect_in_order(
    terminal: TerminalModel,
    params: Seq<usize>,
    last: usize,
)
    ensures
        ({
            let theme = tokyo_night();
            let before = theme.select_all(terminal.colors, params);
            &&& theme.select_all(terminal.colors, Seq::empty()) == terminal.colors
            &&& theme.select_all(terminal.colors, params.push(last)) == theme.select(
                before,
                last as int,
            )
            &&& terminal.ansi == AnsiModel::Arg(params) ==> terminal.received(0x6d) == (
            TerminalModel { colors: before, ansi: AnsiModel::Ground, ..terminal })
            &&& theme.initial().fg == theme.default_fg
            &&& theme.initial().bg == theme.default_bg
        }),
{
    assert(params.push(last).drop_last() =~= params);
}

/// The colors that the terminal draws with.
pub proof fn terminal_colors()
    ensures
        tokyo_night().default_fg == 0xC0C0C0,
        tokyo_night().default_bg == 0x1A1B26,
        tokyo_night().colors@ == seq![
            0x1A1B26u32,
            0xF7768E,
            0x9ECE6A,
            0xE0AF68,
            0x7AA2F7,
            0xBB9AF7,
            0x7DCFFF,
            0xC0C0C0,
        ],
        tokyo_night().bright_colors@ == seq![
            0x414868u32,
            0xFF7A93,
            0xB9F27C,
            0xE6C384,
            0x7AA2F7,
            0xBB9AF7,
            0x7DCFFF,
            0xFFFFFF,
        ],
{
}

/// What is said of a terminal is said of its fields.
pub proof fn terminal_is_its_fields(terminal: Terminal<'_>)
    ensures
        terminal@.screen == terminal.framebuffer@,
        terminal@.font == terminal.font@,
        terminal@.cursor_x == terminal.cursor_x,
        terminal@.cursor_y == terminal.cursor_y,
        terminal@.colors.fg == terminal.fg_color,
        terminal@.colors.bg == terminal.bg_color,
        match terminal.ansi_state {
            AnsiState::Ground => terminal@.ansi is Ground,
            AnsiState::Escape => terminal@.ansi is Escape,
            AnsiState::Arg(args) => args.count <= 8 ==> (terminal@.ansi matches AnsiModel::Arg(
                params,
            ) && params.len() == args.count && forall|i: int|
                0 <= i < args.count ==> #[trigger] params[i] == args.args@[i]),
        },
{
}

/// Where the cursor is on the screen: at the start of a line or with room for a cell of eight by ten
/// pixels on it, on a line that fits the screen, on a screen whose lines are at least eight pixels
/// long and as many as its memory holds.
pub proof fn cursor_on_screen_has_room_for_a_cell(terminal: TerminalModel)
    ensures
        on_screen(terminal) <==> {
            let screen = terminal.screen;
            &&& screen.pixels.len() == (screen.pitch / 4) * screen.height
            &&& 8 <= screen.pitch / 4
            &&& 0 <= screen.width <= screen.pitch / 4
            &&& 10 <= screen.height
            &&& screen.width + 16 <= usize::MAX
            &&& screen.height + 20 <= usize::MAX
            &&& terminal.cursor_x == 0 || 0 <= terminal.cursor_x && terminal.cursor_x + 8
                <= screen.width
            &&& 0 <= terminal.cursor_y
            &&& terminal.cursor_y + 10 <= screen.height
        },
{
}

} // verus!
