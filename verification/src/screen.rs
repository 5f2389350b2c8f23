//! The screen of a terminal session, as the `vt100` emulator follows it.
//!
//! The emulator fails where it would draw over half a wide character, which a screen
//! that becomes narrower leaves behind, and in a few cases on screens of an extreme
//! size. Where that can happen the tracker looks at the screen before each character,
//! and draws what is in view again on a new emulator where the old one would fail.

use vstd::prelude::*;

use crate::decode;
use crate::text;

verus! {

broadcast use vstd::string::group_string_axioms;

/// Something that an emulator went through.
pub enum ScreenEvent {
    /// It was made, with so many rows, columns and lines of scrollback.
    Started(u16, u16, usize),
    /// It processed this text.
    Text(Seq<char>),
    /// It got so many rows and columns.
    Resized(u16, u16),
}

/// What kind of code the text that an emulator has processed ends in the middle of.
#[derive(Debug, Clone, Copy, PartialEq, Eq, Structural)]
pub enum CodeState {
    /// None: the next character is drawn. Text behind a character other than ASCII
    /// in a device control string counts as this too.
    Text,
    /// An escape character.
    Escape,
    /// An escape character and intermediate characters.
    Intermediate,
    /// An escape character, `[`, and parameters.
    Csi,
    /// An operating system command.
    Osc,
    /// A string that means nothing.
    Ignored,
    /// A device control string.
    Dcs,
}

/// What matters of an emulator for what it can take.
pub struct ScreenShape {
    pub rows: u16,
    pub cols: u16,
    /// A character that can take more than one column was processed.
    pub wide: bool,
    /// The screen became narrower after such a character, so that halves of wide
    /// characters may stand on either of the two grids that an emulator has.
    pub suspect: bool,
    pub state: CodeState,
    /// The code that the text ends in the middle of, if it is one that parameters
    /// stand in, without control characters.
    pub code: Seq<char>,
}

/// Whether a character can take more than one column. The first of them is
/// `U+1100`; the ranges named here, of arrows, box drawing, marks, Braille and
/// private use, have none.
pub open spec fn may_be_wide(c: char) -> bool {
    &&& c >= '\u{1100}'
    &&& !('\u{2000}' <= c <= '\u{2319}')
    &&& !('\u{2500}' <= c <= '\u{25fc}')
    &&& !('\u{270c}' <= c <= '\u{2727}')
    &&& !('\u{2758}' <= c <= '\u{2794}')
    &&& !('\u{2798}' <= c <= '\u{27af}')
    &&& !('\u{2800}' <= c <= '\u{2b1a}')
    &&& !('\u{e000}' <= c <= '\u{f8ff}')
}

/// Whether a text has a character that can take more than one column.
pub open spec fn has_wide(s: Seq<char>) -> bool {
    exists|i: int| 0 <= i < s.len() && may_be_wide(#[trigger] s[i])
}

/// The most columns that a character can take. Only `U+17D8` takes three.
pub open spec fn char_width(c: char) -> int {
    if c == '\u{17d8}' {
        3
    } else if may_be_wide(c) {
        2
    } else {
        1
    }
}

/// The state behind `c`.
pub open spec fn next_state(state: CodeState, c: char) -> CodeState {
    if c == '\u{1b}' {
        CodeState::Escape
    } else if c == '\u{18}' || c == '\u{1a}' {
        CodeState::Text
    } else {
        match state {
            CodeState::Text => CodeState::Text,
            CodeState::Escape => if ' ' <= c <= '/' {
                CodeState::Intermediate
            } else if c == '[' {
                CodeState::Csi
            } else if c == ']' {
                CodeState::Osc
            } else if c == 'X' || c == '^' || c == '_' {
                CodeState::Ignored
            } else if c == 'P' {
                CodeState::Dcs
            } else if '0' <= c <= '~' {
                CodeState::Text
            } else {
                CodeState::Escape
            },
            CodeState::Intermediate => if '0' <= c <= '~' {
                CodeState::Text
            } else {
                CodeState::Intermediate
            },
            CodeState::Csi => if '@' <= c <= '~' {
                CodeState::Text
            } else {
                CodeState::Csi
            },
            CodeState::Osc => if c == '\u{7}' {
                CodeState::Text
            } else {
                CodeState::Osc
            },
            CodeState::Ignored => CodeState::Ignored,
            CodeState::Dcs => if c <= '\u{7f}' {
                CodeState::Dcs
            } else {
                CodeState::Text
            },
        }
    }
}

/// The code that the text is in the middle of behind `c`.
pub open spec fn next_code(state: CodeState, code: Seq<char>, c: char) -> Seq<char> {
    let next = next_state(state, c);
    if c == '\u{1b}' {
        seq![c]
    } else if next != CodeState::Escape && next != CodeState::Csi {
        Seq::empty()
    } else if c <= '\u{1f}' {
        code
    } else {
        code.push(c)
    }
}

/// The state behind the text `s`.
pub open spec fn state_after(state: CodeState, s: Seq<char>) -> CodeState
    decreases s.len(),
{
    if s.len() == 0 {
        state
    } else {
        next_state(state_after(state, s.drop_last()), s.last())
    }
}

/// The code that the text is in the middle of behind `s`.
pub open spec fn code_after(state: CodeState, code: Seq<char>, s: Seq<char>) -> Seq<char>
    decreases s.len(),
{
    if s.len() == 0 {
        code
    } else {
        let before = s.drop_last();
        next_code(state_after(state, before), code_after(state, code, before), s.last())
    }
}

/// The shape of an emulator with this past.
pub open spec fn shape(log: Seq<ScreenEvent>) -> ScreenShape
    decreases log.len(),
{
    if log.len() == 0 {
        ScreenShape {
            rows: 0,
            cols: 0,
            wide: false,
            suspect: false,
            state: CodeState::Text,
            code: Seq::empty(),
        }
    } else {
        let before = shape(log.drop_last());
        match log.last() {
            ScreenEvent::Started(rows, cols, scrollback) => ScreenShape {
                rows,
                cols,
                wide: false,
                suspect: false,
                state: CodeState::Text,
                code: Seq::empty(),
            },
            ScreenEvent::Text(s) => ScreenShape {
                wide: before.wide || has_wide(s),
                state: state_after(before.state, s),
                code: code_after(before.state, before.code, s),
                ..before
            },
            ScreenEvent::Resized(rows, cols) => ScreenShape {
                rows,
                cols,
                suspect: before.suspect || (before.wide && cols < before.cols),
                ..before
            },
        }
    }
}

/// Whether an emulator of this size takes every text, as long as it is not made
/// narrower.
pub open spec fn usable_size(rows: u16, cols: u16) -> bool {
    rows >= 2 && 3 <= cols <= 65527
}

/// Whether an emulator of this shape takes every text.
pub open spec fn ordinary(s: ScreenShape) -> bool {
    usable_size(s.rows, s.cols) && !s.suspect
}

/// Whether a character is never drawn: a control character, or the one that stands
/// for what is none.
pub open spec fn is_undrawn(c: char) -> bool {
    c <= '\u{1f}' || '\u{7f}' <= c <= '\u{9f}' || c == '\u{fffd}'
}

/// Whether `c` is drawn.
pub open spec fn is_drawn(log: Seq<ScreenEvent>, c: char) -> bool {
    shape(log).state == CodeState::Text && !is_undrawn(c)
}

/// Whether `c` ends a code that can change single cells of the cursor's row.
pub open spec fn edits_row(log: Seq<ScreenEvent>, c: char) -> bool {
    shape(log).state == CodeState::Csi && (c == '@' || c == 'J' || c == 'K' || c == 'P' || c
        == 'X')
}

/// Whether `c` can be the first character of the next line.
pub open spec fn may_wrap(log: Seq<ScreenEvent>, c: char) -> bool {
    is_drawn(log, c) && cursor(log).1 + char_width(c) > shape(log).cols
}

/// Whether the first half of a wide character stands in this cell in view, without
/// the second half.
pub open spec fn half(log: Seq<ScreenEvent>, row: int, col: int) -> bool {
    &&& 0 <= row <= u16::MAX
    &&& 0 <= col <= u16::MAX
    &&& wide_cell(log, row as u16, col as u16)
    &&& !(col < u16::MAX && second_half(log, row as u16, (col + 1) as u16))
}

/// Whether a half stands in one of two cells in view.
pub open spec fn half_in_two(log: Seq<ScreenEvent>, row: int, col: int) -> bool {
    half(log, row, col) || half(log, row, col + 1)
}

/// Whether a half stands in a row in view.
pub open spec fn half_in_row(log: Seq<ScreenEvent>, row: int) -> bool {
    exists|col: int| 0 <= col < shape(log).cols && #[trigger] half(log, row, col)
}

/// Whether `c` can meet a half: where it is drawn, in this line or in the next, or in
/// the row that it can change as the end of a code.
pub open spec fn meets_half(log: Seq<ScreenEvent>, c: char) -> bool {
    let row = cursor(log).0 as int;
    let col = cursor(log).1 as int;
    ||| edits_row(log, c) && half_in_row(log, row)
    ||| is_drawn(log, c) && half_in_two(log, row, col)
    ||| may_wrap(log, c) && (half_in_two(log, row, 0) || half_in_two(log, row + 1, 0))
}

/// Whether an emulator with this past takes the character `c`. It fails on a tab stop
/// that it cannot count to, on a character that is wider than the screen, where it has
/// to wrap a line in a single row, and on halves of wide characters.
pub open spec fn takes_char(log: Seq<ScreenEvent>, c: char) -> bool {
    let now = shape(log);
    &&& now.rows >= 1
    &&& now.cols >= 1
    &&& c == '\t' ==> now.cols <= 65527 || cursor(log).1 <= 65527
    &&& is_drawn(log, c) ==> char_width(c) <= now.cols
    &&& now.rows == 1 ==> !may_wrap(log, c)
    &&& now.suspect ==> !meets_half(log, c)
}

/// Whether an emulator with this past takes the text `s`: any text if it is an
/// ordinary one, and otherwise single characters that it takes.
pub open spec fn takes(log: Seq<ScreenEvent>, s: Seq<char>) -> bool {
    ordinary(shape(log)) || (s.len() == 1 && takes_char(log, s[0]))
}

/// Whether a text has printable ASCII characters only.
pub open spec fn is_plain(s: Seq<char>) -> bool {
    forall|i: int| 0 <= i < s.len() ==> ' ' <= #[trigger] s[i] <= '~'
}

/// The line that an emulator shows which has processed plain text only, no more
/// than fits into its first line.
pub open spec fn line_of(log: Seq<ScreenEvent>) -> Option<Seq<char>>
    decreases log.len(),
{
    if log.len() == 0 {
        None
    } else {
        match log.last() {
            ScreenEvent::Started(rows, cols, scrollback) => if log.len() == 1 {
                Some(Seq::empty())
            } else {
                None
            },
            ScreenEvent::Text(s) => match line_of(log.drop_last()) {
                Some(line) => if is_plain(s) && line.len() + s.len() <= shape(log).cols {
                    Some(line + s)
                } else {
                    None
                },
                None => None,
            },
            ScreenEvent::Resized(rows, cols) => None,
        }
    }
}

/// All text that an emulator has processed, in order.
pub open spec fn screen_text(log: Seq<ScreenEvent>) -> Seq<char>
    decreases log.len(),
{
    if log.len() == 0 {
        Seq::empty()
    } else {
        match log.last() {
            ScreenEvent::Text(s) => screen_text(log.drop_last()) + s,
            _ => screen_text(log.drop_last()),
        }
    }
}

/// An emulator of the `vt100` crate.
#[verifier::external_body]
pub struct Emulator {
    parser: vt100::Parser,
}

/// A screen of the `vt100` crate.
#[verifier::external_type_specification]
#[verifier::external_body]
pub struct ExScreen(vt100::Screen);

/// All that an emulator went through, oldest first.
pub uninterp spec fn emulator_log(emulator: Emulator) -> Seq<ScreenEvent>;

/// All that the emulator of a screen had gone through.
pub uninterp spec fn screen_log(screen: vt100::Screen) -> Seq<ScreenEvent>;

/// The text on the screen of an emulator with this past.
pub uninterp spec fn rendered(log: Seq<ScreenEvent>) -> Seq<char>;

/// Whether a wide character begins in this cell in view, after this past.
pub uninterp spec fn wide_cell(log: Seq<ScreenEvent>, row: u16, col: u16) -> bool;

/// Whether this cell in view is the second half of a wide character, after this past.
pub uninterp spec fn second_half(log: Seq<ScreenEvent>, row: u16, col: u16) -> bool;

/// The codes that draw `width` columns of a row in view, from `start` on, after this past.
pub uninterp spec fn row_codes(
    log: Seq<ScreenEvent>,
    row: u16,
    start: u16,
    width: u16,
) -> Seq<u8>;

/// The codes that set the drawing attributes as they are after this past.
pub uninterp spec fn attribute_codes(log: Seq<ScreenEvent>) -> Seq<u8>;

/// The codes that set the input modes as they are after this past.
pub uninterp spec fn mode_codes(log: Seq<ScreenEvent>) -> Seq<u8>;

/// The row and column of the cursor after this past.
pub uninterp spec fn cursor(log: Seq<ScreenEvent>) -> (u16, u16);

/// Whether the cursor is hidden after this past.
pub uninterp spec fn cursor_hidden(log: Seq<ScreenEvent>) -> bool;

/// Whether the alternate grid is in view after this past.
pub uninterp spec fn in_alternate(log: Seq<ScreenEvent>) -> bool;

/// `vt100::Parser::new`: an emulator with a blank screen of the given size. It
/// computes the last row's number, so there must be a row.
#[verifier::external_body]
fn new_emulator(rows: u16, cols: u16, scrollback: usize) -> (r: Emulator)
    requires
        rows > 0,
    ensures
        emulator_log(r) == seq![ScreenEvent::Started(rows, cols, scrollback)],
        rendered(emulator_log(r)) == Seq::<char>::empty(),
{
    Emulator { parser: vt100::Parser::new(rows, cols, scrollback) }
}

/// `vt100::Parser::process` on the bytes of `text`: the emulator goes through the
/// text and through nothing else. Plain text that fits into the first line of a
/// blank screen stands there as it is.
///
/// The emulator can fail on a text that `takes` leaves out, and on no other. Only
/// `vt100::Screen::set_size` makes halves of wide characters, on both grids:
/// it cuts a row behind a first half, and keeps that. One character is drawn at the
/// cursor or at the start of the next line, where it looks at no other half than one
/// in the two cells that it can take; or it ends a code, and only `@`, `J`, `K`, `P`
/// and `X` then look at single cells, all in the cursor's row.
#[verifier::external_body]
fn process(emulator: &mut Emulator, text: &str)
    requires
        takes(emulator_log(*old(emulator)), text@),
    ensures
        emulator_log(*final(emulator)) == emulator_log(*old(emulator)).push(
            ScreenEvent::Text(text@),
        ),
        line_of(emulator_log(*final(emulator))) matches Some(line) ==> rendered(
            emulator_log(*final(emulator)),
        ) == line,
{
    emulator.parser.process(text.as_bytes());
}

/// `vt100::Screen::set_size` on the screen of the emulator. It computes the
/// numbers of the last row and column, before and after.
#[verifier::external_body]
fn set_size(emulator: &mut Emulator, rows: u16, cols: u16)
    requires
        shape(emulator_log(*old(emulator))).rows > 0,
        rows > 0,
        cols > 0,
    ensures
        emulator_log(*final(emulator)) == emulator_log(*old(emulator)).push(
            ScreenEvent::Resized(rows, cols),
        ),
{
    emulator.parser.screen_mut().set_size(rows, cols);
}

/// `vt100::Screen::contents` of the emulator's screen: a text that depends only on
/// what the emulator went through, without line ends at its end.
#[verifier::external_body]
fn contents_of(emulator: &Emulator) -> (r: String)
    ensures
        r@ == rendered(emulator_log(*emulator)),
        r@.len() > 0 ==> r@.last() != '\n',
{
    emulator.parser.screen().contents()
}

/// `vt100::Screen::clone` of the emulator's screen: the screen of an emulator that
/// has gone through the same.
#[verifier::external_body]
fn clone_of(emulator: &Emulator) -> (r: vt100::Screen)
    ensures
        screen_log(r) == emulator_log(*emulator),
{
    emulator.parser.screen().clone()
}

/// `vt100::Cell::is_wide` of a cell in view, which `vt100::Screen::cell` gives; a
/// cell that is not there is not wide.
#[verifier::external_body]
fn cell_is_wide(emulator: &Emulator, row: u16, col: u16) -> (r: bool)
    ensures
        r == wide_cell(emulator_log(*emulator), row, col),
{
    emulator.parser.screen().cell(row, col).is_some_and(|cell| cell.is_wide())
}

/// `vt100::Cell::is_wide_continuation` of a cell in view, which `vt100::Screen::cell`
/// gives; a cell that is not there is none.
#[verifier::external_body]
fn cell_is_second_half(emulator: &Emulator, row: u16, col: u16) -> (r: bool)
    ensures
        r == second_half(emulator_log(*emulator), row, col),
{
    emulator.parser.screen().cell(row, col).is_some_and(|cell| cell.is_wide_continuation())
}

/// One row of `vt100::Screen::rows_formatted`: codes that depend only on what the
/// emulator went through and on what is asked for. It looks at the cell at `start`
/// in each row.
#[verifier::external_body]
fn row_codes_of(emulator: &Emulator, row: u16, start: u16, width: u16) -> (r: Vec<u8>)
    requires
        start < shape(emulator_log(*emulator)).cols,
        row < shape(emulator_log(*emulator)).rows,
    ensures
        r@ == row_codes(emulator_log(*emulator), row, start, width),
{
    emulator.parser.screen().rows_formatted(start, width).nth(usize::from(row)).unwrap_or_default()
}

/// `vt100::Screen::attributes_formatted`: codes that depend only on what the
/// emulator went through.
#[verifier::external_body]
fn attribute_codes_of(emulator: &Emulator) -> (r: Vec<u8>)
    ensures
        r@ == attribute_codes(emulator_log(*emulator)),
{
    emulator.parser.screen().attributes_formatted()
}

/// `vt100::Screen::input_mode_formatted`: codes that depend only on what the
/// emulator went through.
#[verifier::external_body]
fn mode_codes_of(emulator: &Emulator) -> (r: Vec<u8>)
    ensures
        r@ == mode_codes(emulator_log(*emulator)),
{
    emulator.parser.screen().input_mode_formatted()
}

/// `vt100::Screen::cursor_position`: the row and column of the cursor, which depend
/// only on what the emulator went through.
#[verifier::external_body]
fn cursor_of(emulator: &Emulator) -> (r: (u16, u16))
    ensures
        r == cursor(emulator_log(*emulator)),
{
    emulator.parser.screen().cursor_position()
}

/// `vt100::Screen::hide_cursor`: whether the cursor is hidden, which depends only on
/// what the emulator went through.
#[verifier::external_body]
fn cursor_is_hidden(emulator: &Emulator) -> (r: bool)
    ensures
        r == cursor_hidden(emulator_log(*emulator)),
{
    emulator.parser.screen().hide_cursor()
}

/// `vt100::Screen::alternate_screen`: whether the alternate grid is in view, which
/// depends only on what the emulator went through.
#[verifier::external_body]
fn is_in_alternate(emulator: &Emulator) -> (r: bool)
    ensures
        r == in_alternate(emulator_log(*emulator)),
{
    emulator.parser.screen().alternate_screen()
}

/// The decimal digits of a number.
pub open spec fn decimal(n: nat) -> Seq<char>
    decreases n,
{
    if n < 10 {
        seq![('0' as u32 + n) as char]
    } else {
        decimal(n / 10).push(('0' as u32 + n % 10) as char)
    }
}

/// The codes that move the cursor to the start of a row, with no drawing attributes.
pub open spec fn row_start(row: u16) -> Seq<char> {
    "\u{1b}[m\u{1b}["@ + decimal((row + 1) as nat) + "H"@
}

/// How many columns of a row are drawn again: all of them, but for half a wide
/// character at the edge.
pub open spec fn row_width(log: Seq<ScreenEvent>, row: u16) -> u16 {
    let edge = (shape(log).cols - 1) as u16;
    if wide_cell(log, row, edge) {
        edge
    } else {
        u16::MAX
    }
}

/// The codes that draw the first `n` rows in view again.
pub open spec fn rows_again(log: Seq<ScreenEvent>, n: nat) -> Seq<char>
    decreases n,
{
    if n == 0 {
        Seq::empty()
    } else {
        let row = (n - 1) as u16;
        rows_again(log, (n - 1) as nat) + row_start(row) + decode::decoded(
            row_codes(log, row, 0, row_width(log, row)),
        )
    }
}

/// The codes that move the cursor.
pub open spec fn cursor_move(row: u16, col: u16) -> Seq<char> {
    "\u{1b}["@ + decimal((row + 1) as nat) + ";"@ + decimal((col + 1) as nat) + "H"@
}

/// The codes that set the cursor as it is after the past `log`. A cursor behind the
/// last column comes there by drawing the last character of its row once more.
pub open spec fn cursor_again(log: Seq<ScreenEvent>) -> Seq<char> {
    let (row, col) = cursor(log);
    let cols = shape(log).cols;
    let edge = (cols - 1) as u16;
    if col < cols || row >= shape(log).rows || wide_cell(log, row, edge) {
        cursor_move(row, col)
    } else {
        let start = if cols >= 2 && second_half(log, row, edge) {
            (cols - 2) as u16
        } else {
            edge
        };
        "\u{1b}[m"@ + cursor_move(row, start) + decode::decoded(
            row_codes(log, row, start, u16::MAX),
        )
    }
}

/// The codes that put the same grid in view as after the past `log`.
pub open spec fn grid_again(log: Seq<ScreenEvent>) -> Seq<char> {
    if in_alternate(log) {
        "\u{1b}[?1049h"@
    } else {
        ""@
    }
}

/// The codes that set the attributes and modes as they are after the past `log`.
pub open spec fn modes_again(log: Seq<ScreenEvent>) -> Seq<char> {
    let hide = if cursor_hidden(log) {
        "\u{1b}[?25l"@
    } else {
        ""@
    };
    decode::decoded(attribute_codes(log)) + decode::decoded(mode_codes(log)) + hide
}

/// The codes that draw on a blank screen the rows in view, and set the cursor.
pub open spec fn view_again(log: Seq<ScreenEvent>) -> Seq<char> {
    rows_again(log, shape(log).rows as nat) + cursor_again(log)
}

/// The codes that a blank screen gets in the place of one with the past `log` that
/// does not take `c`: for the same grid, what is in view, unless `c` is to begin the
/// next line of a single row, for the same modes, and for the code that `c` is part of.
pub open spec fn codes_again(log: Seq<ScreenEvent>, c: char) -> Seq<char> {
    let rows = if shape(log).rows == 1 && may_wrap(log, c) {
        Seq::empty()
    } else {
        view_again(log)
    };
    grid_again(log) + rows + modes_again(log) + shape(log).code
}

/// A blank emulator of the size of one with the past `log`.
pub open spec fn blank(log: Seq<ScreenEvent>, scrollback: usize) -> Seq<ScreenEvent> {
    seq![ScreenEvent::Started(shape(log).rows, shape(log).cols, scrollback)]
}

/// What an emulator has gone through once it got the characters of `s` that it takes,
/// one by one.
pub open spec fn typed(log: Seq<ScreenEvent>, s: Seq<char>) -> Seq<ScreenEvent>
    decreases s.len(),
{
    if s.len() == 0 {
        log
    } else {
        let before = typed(log, s.drop_last());
        let one = seq![s.last()];
        if takes(before, one) {
            before.push(ScreenEvent::Text(one))
        } else {
            before
        }
    }
}

/// What takes the place of an emulator with the past `log` that does not take `c`.
pub open spec fn replacement(log: Seq<ScreenEvent>, scrollback: usize, c: char) -> Seq<
    ScreenEvent,
> {
    let fresh = blank(log, scrollback);
    if ordinary(shape(fresh)) {
        fresh.push(ScreenEvent::Text(codes_again(log, c)))
    } else {
        typed(fresh, codes_again(log, c))
    }
}

/// What an emulator has gone through once `c` is shown to it. One that does not take
/// it is replaced, if the replacement does.
pub open spec fn char_shown(log: Seq<ScreenEvent>, scrollback: usize, c: char) -> Seq<
    ScreenEvent,
> {
    let one = seq![c];
    if takes(log, one) {
        log.push(ScreenEvent::Text(one))
    } else if c == '\t' || char_width(c) > shape(log).cols {
        log
    } else {
        let other = replacement(log, scrollback, c);
        if takes(other, one) {
            other.push(ScreenEvent::Text(one))
        } else {
            log
        }
    }
}

/// What an emulator has gone through once `s` is shown to it, one by one.
pub open spec fn chars_shown(log: Seq<ScreenEvent>, scrollback: usize, s: Seq<char>) -> Seq<
    ScreenEvent,
>
    decreases s.len(),
{
    if s.len() == 0 {
        log
    } else {
        char_shown(chars_shown(log, scrollback, s.drop_last()), scrollback, s.last())
    }
}

/// What an emulator has gone through once `s` is shown to it: at once, if it is an
/// ordinary one.
pub open spec fn shown(log: Seq<ScreenEvent>, scrollback: usize, s: Seq<char>) -> Seq<
    ScreenEvent,
> {
    if ordinary(shape(log)) {
        log.push(ScreenEvent::Text(s))
    } else {
        chars_shown(log, scrollback, s)
    }
}

/// Whether `c` can take more than one column.
fn wide(c: char) -> (r: bool)
    ensures
        r == may_be_wide(c),
{
    c >= '\u{1100}' && !('\u{2000}' <= c && c <= '\u{2319}') && !('\u{2500}' <= c && c <= '\u{25fc}')
        && !('\u{270c}' <= c && c <= '\u{2727}') && !('\u{2758}' <= c && c <= '\u{2794}') && !(
    '\u{2798}' <= c && c <= '\u{27af}') && !('\u{2800}' <= c && c <= '\u{2b1a}') && !('\u{e000}' <= c
        && c <= '\u{f8ff}')
}

/// The most columns that `c` can take.
fn width_of(c: char) -> (r: u32)
    ensures
        r == char_width(c),
{
    if c == '\u{17d8}' {
        3
    } else if wide(c) {
        2
    } else {
        1
    }
}

/// The state behind `c`.
fn state_behind(state: CodeState, c: char) -> (r: CodeState)
    ensures
        r == next_state(state, c),
{
    if c == '\u{1b}' {
        return CodeState::Escape;
    }
    if c == '\u{18}' || c == '\u{1a}' {
        return CodeState::Text;
    }
    match state {
        CodeState::Text => CodeState::Text,
        CodeState::Escape => if ' ' <= c && c <= '/' {
            CodeState::Intermediate
        } else if c == '[' {
            CodeState::Csi
        } else if c == ']' {
            CodeState::Osc
        } else if c == 'X' || c == '^' || c == '_' {
            CodeState::Ignored
        } else if c == 'P' {
            CodeState::Dcs
        } else if '0' <= c && c <= '~' {
            CodeState::Text
        } else {
            CodeState::Escape
        },
        CodeState::Intermediate => if '0' <= c && c <= '~' {
            CodeState::Text
        } else {
            CodeState::Intermediate
        },
        CodeState::Csi => if '@' <= c && c <= '~' {
            CodeState::Text
        } else {
            CodeState::Csi
        },
        CodeState::Osc => if c == '\u{7}' {
            CodeState::Text
        } else {
            CodeState::Osc
        },
        CodeState::Ignored => CodeState::Ignored,
        CodeState::Dcs => if c <= '\u{7f}' {
            CodeState::Dcs
        } else {
            CodeState::Text
        },
    }
}

/// What matters of a text for what an emulator takes behind it.
struct TextShape {
    wide: bool,
    state: CodeState,
    code: String,
}

/// Goes through the text `s` behind the code `code`.
fn look_through(s: &str, state: CodeState, code: &str) -> (r: TextShape)
    ensures
        r.wide == has_wide(s@),
        r.state == state_after(state, s@),
        r.code@ == code_after(state, code@, s@),
{
    let v: Vec<char> = text::chars_of(s);
    let n: usize = v.len();
    let mut found: bool = false;
    let mut end: CodeState = state;
    let mut open: String = code.to_owned();
    let mut i: usize = 0;
    assert(s@.take(0) == Seq::<char>::empty());
    while i < n
        invariant
            n == v@.len(),
            v@ == s@,
            i <= n,
            found == has_wide(s@.take(i as int)),
            end == state_after(state, s@.take(i as int)),
            open@ == code_after(state, code@, s@.take(i as int)),
        decreases n - i,
    {
        let c: char = v[i];
        proof {
            let before = s@.take(i as int);
            let now = s@.take(i + 1);
            assert(now.drop_last() == before);
            assert(now.last() == c);
            if has_wide(before) {
                let k = choose|k: int| 0 <= k < before.len() && may_be_wide(#[trigger] before[k]);
                assert(now[k] == before[k]);
            }
            assert(now[i as int] == c);
            assert(forall|k: int| 0 <= k < i ==> now[k] == before[k]);
        }
        if wide(c) {
            found = true;
        }
        end = state_behind(end, c);
        if c == '\u{1b}' {
            open = one_char(c);
        } else if end != CodeState::Escape && end != CodeState::Csi {
            open = String::new();
        } else if c >= ' ' {
            open.push(c);
        }
        i = i + 1;
    }
    assert(s@.take(n as int) == s@);
    TextShape { wide: found, state: end, code: open }
}

/// The text of one character.
fn one_char(c: char) -> (r: String)
    ensures
        r@ == seq![c],
{
    let mut r: String = String::new();
    r.push(c);
    assert(r@ == seq![c]);
    r
}

/// The decimal digits of a number.
fn decimal_text(n: u32) -> (r: String)
    ensures
        r@ == decimal(n as nat),
    decreases n,
{
    let digit: char = (48u8 + (n % 10) as u8) as char;
    if n < 10 {
        let mut r: String = String::new();
        r.push(digit);
        assert(r@ == seq![digit]);
        r
    } else {
        let mut r: String = decimal_text(n / 10);
        r.push(digit);
        r
    }
}

/// The codes that move the cursor.
fn move_text(row: u16, col: u16) -> (r: String)
    ensures
        r@ == cursor_move(row, col),
{
    let mut r: String = "\u{1b}[".to_owned();
    r.append(decimal_text(row as u32 + 1).as_str());
    r.append(";");
    r.append(decimal_text(col as u32 + 1).as_str());
    r.append("H");
    r
}

/// An emulator that follows the output of a session.
pub struct ScreenTracker {
    emulator: Emulator,
    rows: u16,
    cols: u16,
    scrollback: usize,
    wide: bool,
    suspect: bool,
    state: CodeState,
    code: String,
}

impl View for ScreenTracker {
    type V = Seq<ScreenEvent>;

    /// All that the emulator went through, oldest first.
    closed spec fn view(&self) -> Seq<ScreenEvent> {
        emulator_log(self.emulator)
    }
}

impl ScreenTracker {
    /// The tracker knows the shape of its emulator, which has a row, and a line of
    /// plain text that it has been shown is on the screen.
    pub closed spec fn wf(&self) -> bool {
        &&& shape(self@) == (ScreenShape {
            rows: self.rows,
            cols: self.cols,
            wide: self.wide,
            suspect: self.suspect,
            state: self.state,
            code: self.code@,
        })
        &&& self.rows > 0
        &&& line_of(self@) matches Some(line) ==> rendered(self@) == line
    }

    /// How many lines that left the screen its emulator keeps.
    pub closed spec fn scrollback(&self) -> usize {
        self.scrollback
    }

    /// A tracker of a blank screen.
    pub fn new(rows: u16, cols: u16, scrollback: usize) -> (r: ScreenTracker)
        requires
            rows > 0,
        ensures
            r.wf(),
            r@ == seq![ScreenEvent::Started(rows, cols, scrollback)],
            r.scrollback() == scrollback,
            rendered(r@) == Seq::<char>::empty(),
    {
        let emulator = new_emulator(rows, cols, scrollback);
        ScreenTracker {
            emulator,
            rows,
            cols,
            scrollback,
            wide: false,
            suspect: false,
            state: CodeState::Text,
            code: String::new(),
        }
    }

    /// Whether the emulator takes every text.
    fn is_ordinary(&self) -> (r: bool)
        requires
            self.wf(),
        ensures
            r == ordinary(shape(self@)),
    {
        self.rows >= 2 && 3 <= self.cols && self.cols <= 65527 && !self.suspect
    }

    /// Whether the first half of a wide character stands in this cell in view,
    /// without the second half.
    fn has_half(&self, row: u32, col: u32) -> (r: bool)
        ensures
            r == half(self@, row as int, col as int),
    {
        if row > 65535 || col > 65535 {
            return false;
        }
        cell_is_wide(&self.emulator, row as u16, col as u16) && !(col < 65535
            && cell_is_second_half(&self.emulator, row as u16, (col + 1) as u16))
    }

    /// Whether a half stands in one of two cells in view.
    fn has_half_in_two(&self, row: u32, col: u32) -> (r: bool)
        requires
            col < u32::MAX,
        ensures
            r == half_in_two(self@, row as int, col as int),
    {
        self.has_half(row, col) || self.has_half(row, col + 1)
    }

    /// Whether a half stands in a row in view.
    fn has_half_in_row(&self, row: u32) -> (r: bool)
        requires
            self.wf(),
        ensures
            r == half_in_row(self@, row as int),
    {
        let mut col: u32 = 0;
        while col < self.cols as u32
            invariant
                self.wf(),
                col <= self.cols,
                forall|k: int| 0 <= k < col ==> !#[trigger] half(self@, row as int, k),
            decreases self.cols - col,
        {
            if self.has_half(row, col) {
                return true;
            }
            col = col + 1;
        }
        false
    }

    /// Whether `c` is drawn.
    fn draws(&self, c: char) -> (r: bool)
        requires
            self.wf(),
        ensures
            r == is_drawn(self@, c),
    {
        self.state == CodeState::Text && !(c <= '\u{1f}' || ('\u{7f}' <= c && c <= '\u{9f}') || c
            == '\u{fffd}')
    }

    /// Whether `c` can be the first character of the next line.
    fn can_wrap(&self, c: char) -> (r: bool)
        requires
            self.wf(),
        ensures
            r == may_wrap(self@, c),
    {
        let at: (u16, u16) = cursor_of(&self.emulator);
        self.draws(c) && at.1 as u32 + width_of(c) > self.cols as u32
    }

    /// Whether `c` can meet a half.
    fn can_meet_half(&self, c: char) -> (r: bool)
        requires
            self.wf(),
        ensures
            r == meets_half(self@, c),
    {
        let at: (u16, u16) = cursor_of(&self.emulator);
        let row: u32 = at.0 as u32;
        let col: u32 = at.1 as u32;
        if self.state == CodeState::Csi && (c == '@' || c == 'J' || c == 'K' || c == 'P' || c
            == 'X') && self.has_half_in_row(row) {
            return true;
        }
        if self.draws(c) && self.has_half_in_two(row, col) {
            return true;
        }
        self.can_wrap(c) && (self.has_half_in_two(row, 0) || self.has_half_in_two(row + 1, 0))
    }

    /// Whether the emulator takes the character `c`.
    pub fn takes_char(&self, c: char) -> (r: bool)
        requires
            self.wf(),
        ensures
            r == takes(self@, seq![c]),
    {
        if self.is_ordinary() {
            return true;
        }
        assert(seq![c][0] == c);
        if self.cols == 0 || (self.draws(c) && width_of(c) > self.cols as u32) {
            return false;
        }
        if c == '\t' && self.cols > 65527 && cursor_of(&self.emulator).1 > 65527 {
            return false;
        }
        !(self.rows == 1 && self.can_wrap(c)) && !(self.suspect && self.can_meet_half(c))
    }

    /// Shows `text` to the emulator, which takes it.
    fn process(&mut self, text: &str)
        requires
            old(self).wf(),
            takes(old(self)@, text@),
        ensures
            final(self).wf(),
            final(self)@ == old(self)@.push(ScreenEvent::Text(text@)),
            final(self).scrollback() == old(self).scrollback(),
    {
        let found: TextShape = look_through(text, self.state, self.code.as_str());
        process(&mut self.emulator, text);
        proof {
            assert(self@.drop_last() == old(self)@);
        }
        self.wide = self.wide || found.wide;
        self.state = found.state;
        self.code = found.code;
    }

    /// The codes that set the cursor as it is.
    fn set_cursor(&self) -> (r: String)
        requires
            self.wf(),
            self.cols >= 1,
        ensures
            r@ == cursor_again(self@),
    {
        let (row, col): (u16, u16) = cursor_of(&self.emulator);
        let edge: u16 = self.cols - 1;
        if col < self.cols || row >= self.rows || cell_is_wide(&self.emulator, row, edge) {
            return move_text(row, col);
        }
        let start: u16 = if self.cols >= 2 && cell_is_second_half(&self.emulator, row, edge) {
            self.cols - 2
        } else {
            edge
        };
        let codes: Vec<u8> = row_codes_of(&self.emulator, row, start, u16::MAX);
        let mut r: String = "\u{1b}[m".to_owned();
        r.append(move_text(row, start).as_str());
        r.append(decode::decode_bytes(codes.as_slice()).as_str());
        r
    }

    /// The codes that draw on a blank screen the rows in view, and set the cursor.
    fn draw_view(&self) -> (r: String)
        requires
            self.wf(),
            self.cols >= 1,
        ensures
            r@ == view_again(self@),
    {
        let mut r: String = String::new();
        let mut row: u16 = 0;
        assert(r@ == rows_again(self@, 0));
        while row < self.rows
            invariant
                self.wf(),
                self.cols >= 1,
                row <= self.rows,
                r@ == rows_again(self@, row as nat),
            decreases self.rows - row,
        {
            let ghost before = rows_again(self@, row as nat);
            let edge: u16 = self.cols - 1;
            let width: u16 = if cell_is_wide(&self.emulator, row, edge) {
                edge
            } else {
                u16::MAX
            };
            let codes: Vec<u8> = row_codes_of(&self.emulator, row, 0, width);
            let drawn: String = decode::decode_bytes(codes.as_slice());
            let number: String = decimal_text(row as u32 + 1);
            r.append("\u{1b}[m\u{1b}[");
            r.append(number.as_str());
            r.append("H");
            r.append(drawn.as_str());
            proof {
                assert(r@ == before + row_start(row) + drawn@);
            }
            row = row + 1;
        }
        r.append(self.set_cursor().as_str());
        r
    }

    /// The codes that set the attributes and modes as they are.
    fn set_modes(&self) -> (r: String)
        ensures
            r@ == modes_again(self@),
    {
        let attributes: Vec<u8> = attribute_codes_of(&self.emulator);
        let mut r: String = decode::decode_bytes(attributes.as_slice());
        let modes: Vec<u8> = mode_codes_of(&self.emulator);
        r.append(decode::decode_bytes(modes.as_slice()).as_str());
        if cursor_is_hidden(&self.emulator) {
            r.append("\u{1b}[?25l");
        } else {
            r.append("");
        }
        r
    }

    /// The codes for a blank screen in the place of this one, which does not take `c`.
    fn draw_again(&self, c: char) -> (r: String)
        requires
            self.wf(),
            self.cols >= 1,
        ensures
            r@ == codes_again(self@, c),
    {
        let mut r: String = if is_in_alternate(&self.emulator) {
            "\u{1b}[?1049h".to_owned()
        } else {
            "".to_owned()
        };
        let ghost grid = r@;
        if self.rows == 1 && self.can_wrap(c) {
            assert(grid + Seq::<char>::empty() == grid);
        } else {
            r.append(self.draw_view().as_str());
        }
        r.append(self.set_modes().as_str());
        r.append(self.code.as_str());
        r
    }

    /// Gives the emulator the characters of `s` that it takes, one by one.
    fn type_all(&mut self, s: &str)
        requires
            old(self).wf(),
        ensures
            final(self).wf(),
            final(self)@ == typed(old(self)@, s@),
            final(self).scrollback() == old(self).scrollback(),
    {
        let v: Vec<char> = text::chars_of(s);
        let mut i: usize = 0;
        assert(v@.take(0) == Seq::<char>::empty());
        while i < v.len()
            invariant
                i <= v@.len(),
                v@ == s@,
                self.wf(),
                self.scrollback() == old(self).scrollback(),
                self@ == typed(old(self)@, v@.take(i as int)),
            decreases v@.len() - i,
        {
            let c: char = v[i];
            proof {
                assert(v@.take(i + 1).drop_last() == v@.take(i as int));
                assert(v@.take(i + 1).last() == c);
            }
            if self.takes_char(c) {
                self.process(one_char(c).as_str());
            }
            i = i + 1;
        }
        assert(v@.take(i as int) == v@);
    }

    /// A tracker to take the place of this one, whose emulator does not take `c`.
    fn replaced(&self, c: char) -> (r: ScreenTracker)
        requires
            self.wf(),
            self.cols >= 1,
        ensures
            r.wf(),
            r@ == replacement(self@, self.scrollback(), c),
            r.scrollback() == self.scrollback(),
    {
        let mut r = ScreenTracker::new(self.rows, self.cols, self.scrollback);
        let codes: String = self.draw_again(c);
        if r.is_ordinary() {
            r.process(codes.as_str());
        } else {
            r.type_all(codes.as_str());
        }
        r
    }

    /// Shows the character `c` to the emulator. One that does not take it is replaced
    /// by a new one with the same in view, if that takes it.
    fn show_char(&mut self, c: char)
        requires
            old(self).wf(),
        ensures
            final(self).wf(),
            final(self)@ == char_shown(old(self)@, old(self).scrollback(), c),
            final(self).scrollback() == old(self).scrollback(),
    {
        if self.takes_char(c) {
            self.process(one_char(c).as_str());
        } else if c != '\t' && width_of(c) <= self.cols as u32 {
            let mut other: ScreenTracker = self.replaced(c);
            if other.takes_char(c) {
                other.process(one_char(c).as_str());
                *self = other;
            }
        }
    }

    /// Shows `text` to the emulator. Where it would fail on a character, a new one with
    /// the same in view takes its place; a character on which that fails too is left
    /// out.
    pub fn show(&mut self, text: &str)
        requires
            old(self).wf(),
        ensures
            final(self).wf(),
            final(self)@ == shown(old(self)@, old(self).scrollback(), text@),
            final(self).scrollback() == old(self).scrollback(),
    {
        if self.is_ordinary() {
            self.process(text);
            return;
        }
        let v: Vec<char> = text::chars_of(text);
        let mut i: usize = 0;
        assert(v@.take(0) == Seq::<char>::empty());
        while i < v.len()
            invariant
                i <= v@.len(),
                v@ == text@,
                self.wf(),
                self.scrollback() == old(self).scrollback(),
                self@ == chars_shown(old(self)@, old(self).scrollback(), v@.take(i as int)),
            decreases v@.len() - i,
        {
            proof {
                assert(v@.take(i + 1).drop_last() == v@.take(i as int));
                assert(v@.take(i + 1).last() == v@[i as int]);
            }
            self.show_char(v[i]);
            i = i + 1;
        }
        assert(v@.take(i as int) == v@);
    }

    /// Gives the screen another size.
    pub fn set_size(&mut self, rows: u16, cols: u16)
        requires
            old(self).wf(),
            rows > 0,
            cols > 0,
        ensures
            final(self).wf(),
            final(self)@ == old(self)@.push(ScreenEvent::Resized(rows, cols)),
            final(self).scrollback() == old(self).scrollback(),
    {
        set_size(&mut self.emulator, rows, cols);
        proof {
            assert(self@.drop_last() == old(self)@);
        }
        if self.wide && cols < self.cols {
            self.suspect = true;
        }
        self.rows = rows;
        self.cols = cols;
    }

    /// The text on the screen.
    pub fn contents(&self) -> (r: String)
        requires
            self.wf(),
        ensures
            r@ == rendered(self@),
            line_of(self@) matches Some(line) ==> r@ == line,
            r@.len() > 0 ==> r@.last() != '\n',
    {
        contents_of(&self.emulator)
    }

    /// A copy of the screen.
    pub fn screen(&self) -> (r: vt100::Screen)
        ensures
            screen_log(r) == self@,
    {
        clone_of(&self.emulator)
    }
}

/// An emulator of ordinary size that was never made narrower behind a wide character
/// goes through every text as it is, and stays such an emulator of that size.
pub proof fn ordinary_screens_take_all_text(log: Seq<ScreenEvent>, scrollback: usize, s: Seq<char>)
    requires
        ordinary(shape(log)),
    ensures
        shown(log, scrollback, s) == log.push(ScreenEvent::Text(s)),
        shape(shown(log, scrollback, s)).rows == shape(log).rows,
        shape(shown(log, scrollback, s)).cols == shape(log).cols,
        ordinary(shape(shown(log, scrollback, s))),
        screen_text(shown(log, scrollback, s)) == screen_text(log) + s,
{
    assert(log.push(ScreenEvent::Text(s)).drop_last() == log);
}

/// Plain text that fits behind the plain line on a screen is part of that line.
pub proof fn plain_text_joins_the_line(log: Seq<ScreenEvent>, scrollback: usize, s: Seq<char>)
    requires
        ordinary(shape(log)),
        line_of(log) is Some,
        is_plain(s),
        line_of(log)->0.len() + s.len() <= shape(log).cols,
    ensures
        line_of(shown(log, scrollback, s)) == Some(line_of(log)->0 + s),
{
    assert(log.push(ScreenEvent::Text(s)).drop_last() == log);
}

/// A screen that was made narrower is kept, with all that it went through, as long as
/// no character meets half a wide one: the character is drawn on what was there.
pub proof fn narrowed_screens_are_kept(log: Seq<ScreenEvent>, scrollback: usize, c: char)
    requires
        usable_size(shape(log).rows, shape(log).cols),
        !meets_half(log, c),
    ensures
        char_shown(log, scrollback, c) == log.push(ScreenEvent::Text(seq![c])),
{
    assert(seq![c][0] == c);
}

/// Where a character would meet half a wide one, a new emulator of the same size goes
/// through the codes for what is in view and the code that the character is part of,
/// and then through the character. It is an ordinary one, without halves.
pub proof fn halves_are_drawn_again(log: Seq<ScreenEvent>, scrollback: usize, c: char)
    requires
        usable_size(shape(log).rows, shape(log).cols),
        !takes(log, seq![c]),
    ensures
        char_shown(log, scrollback, c) == blank(log, scrollback).push(
            ScreenEvent::Text(
                grid_again(log) + view_again(log) + modes_again(log) + shape(log).code,
            ),
        ).push(ScreenEvent::Text(seq![c])),
        ordinary(shape(char_shown(log, scrollback, c))),
{
    assert(seq![c][0] == c);
    let fresh = blank(log, scrollback);
    let other = replacement(log, scrollback, c);
    assert(other.drop_last() == fresh);
    assert(other.push(ScreenEvent::Text(seq![c])).drop_last() == other);
}

/// What is not drawn reaches the emulator whatever its size and past, but for a tab on
/// a very broad screen and for codes that change single cells next to halves.
pub proof fn codes_are_taken_on_every_screen(log: Seq<ScreenEvent>, scrollback: usize, c: char)
    requires
        shape(log).rows >= 1,
        shape(log).cols >= 1,
        !is_drawn(log, c),
        c == '\t' ==> shape(log).cols <= 65527,
        shape(log).suspect ==> !edits_row(log, c),
    ensures
        char_shown(log, scrollback, c) == log.push(ScreenEvent::Text(seq![c])),
{
    assert(seq![c][0] == c);
}

/// A new screen takes every text if it has two rows or more and from three to 65527
/// columns, and so does one that gets such a size without becoming narrower, or
/// without having been shown a wide character.
pub proof fn usual_screens_are_ordinary(
    log: Seq<ScreenEvent>,
    rows: u16,
    cols: u16,
    scrollback: usize,
)
    requires
        2 <= rows,
        3 <= cols <= 65527,
    ensures
        ordinary(shape(seq![ScreenEvent::Started(rows, cols, scrollback)])),
        ordinary(shape(log.push(ScreenEvent::Started(rows, cols, scrollback)))),
        ordinary(shape(log)) && (shape(log).cols <= cols || !shape(log).wide) ==> ordinary(
            shape(log.push(ScreenEvent::Resized(rows, cols))),
        ),
        !shape(log).wide && !shape(log).suspect ==> ordinary(
            shape(log.push(ScreenEvent::Resized(rows, cols))),
        ),
        !shape(log.push(ScreenEvent::Started(rows, cols, scrollback))).wide,
{
    assert(seq![ScreenEvent::Started(rows, cols, scrollback)].drop_last() == Seq::<
        ScreenEvent,
    >::empty());
    assert(log.push(ScreenEvent::Started(rows, cols, scrollback)).drop_last() == log);
    assert(log.push(ScreenEvent::Resized(rows, cols)).drop_last() == log);
}

/// The size of a screen is the one that it was last given, and text does not change it.
/// All text that it went through is what it was shown, in order; other sizes are none.
pub proof fn sizes_and_text_of_a_screen(
    log: Seq<ScreenEvent>,
    rows: u16,
    cols: u16,
    scrollback: usize,
    s: Seq<char>,
)
    ensures
        shape(log.push(ScreenEvent::Started(rows, cols, scrollback))).rows == rows,
        shape(log.push(ScreenEvent::Started(rows, cols, scrollback))).cols == cols,
        shape(log.push(ScreenEvent::Resized(rows, cols))).rows == rows,
        shape(log.push(ScreenEvent::Resized(rows, cols))).cols == cols,
        shape(log.push(ScreenEvent::Text(s))).rows == shape(log).rows,
        shape(log.push(ScreenEvent::Text(s))).cols == shape(log).cols,
        screen_text(Seq::empty()) == Seq::<char>::empty(),
        screen_text(log.push(ScreenEvent::Text(s))) == screen_text(log) + s,
        screen_text(log.push(ScreenEvent::Resized(rows, cols))) == screen_text(log),
{
    assert(log.push(ScreenEvent::Started(rows, cols, scrollback)).drop_last() == log);
    assert(log.push(ScreenEvent::Resized(rows, cols)).drop_last() == log);
    assert(log.push(ScreenEvent::Text(s)).drop_last() == log);
}

/// A screen that does not take every text at once is shown each character in its turn:
/// none is left out, and none comes before its turn.
pub proof fn characters_are_shown_in_their_turn(
    log: Seq<ScreenEvent>,
    scrollback: usize,
    a: Seq<char>,
    c: char,
    b: Seq<char>,
)
    ensures
        chars_shown(log, scrollback, a + b) == chars_shown(
            chars_shown(log, scrollback, a),
            scrollback,
            b,
        ),
        chars_shown(log, scrollback, seq![c]) == char_shown(log, scrollback, c),
        chars_shown(log, scrollback, Seq::empty()) == log,
        !ordinary(shape(log)) ==> shown(log, scrollback, a) == chars_shown(log, scrollback, a),
    decreases b.len(),
{
    assert(seq![c].drop_last() == Seq::<char>::empty());
    assert(chars_shown(log, scrollback, seq![c].drop_last()) == log);
    if b.len() == 0 {
        assert(a + b == a);
    } else {
        characters_are_shown_in_their_turn(log, scrollback, a, c, b.drop_last());
        assert((a + b).drop_last() == a + b.drop_last());
        assert((a + b).last() == b.last());
    }
}

/// Whatever is shown to a screen, it keeps its size.
pub proof fn showing_keeps_the_size(log: Seq<ScreenEvent>, scrollback: usize, s: Seq<char>)
    ensures
        shape(shown(log, scrollback, s)).rows == shape(log).rows,
        shape(shown(log, scrollback, s)).cols == shape(log).cols,
        shape(chars_shown(log, scrollback, s)).rows == shape(log).rows,
        shape(chars_shown(log, scrollback, s)).cols == shape(log).cols,
    decreases s.len(),
{
    assert(log.push(ScreenEvent::Text(s)).drop_last() == log);
    if s.len() > 0 {
        showing_keeps_the_size(log, scrollback, s.drop_last());
        let before = chars_shown(log, scrollback, s.drop_last());
        let c = s.last();
        let one = ScreenEvent::Text(seq![c]);
        assert(before.push(one).drop_last() == before);
        let other = replacement(before, scrollback, c);
        lemma_replacement_size(before, scrollback, c);
        assert(other.push(one).drop_last() == other);
    }
}

proof fn lemma_replacement_size(log: Seq<ScreenEvent>, scrollback: usize, c: char)
    ensures
        shape(replacement(log, scrollback, c)).rows == shape(log).rows,
        shape(replacement(log, scrollback, c)).cols == shape(log).cols,
{
    let fresh = blank(log, scrollback);
    let codes = codes_again(log, c);
    assert(fresh.drop_last() == Seq::<ScreenEvent>::empty());
    assert(fresh.push(ScreenEvent::Text(codes)).drop_last() == fresh);
    lemma_typed_size(fresh, codes);
}

proof fn lemma_typed_size(log: Seq<ScreenEvent>, s: Seq<char>)
    ensures
        shape(typed(log, s)).rows == shape(log).rows,
        shape(typed(log, s)).cols == shape(log).cols,
    decreases s.len(),
{
    if s.len() > 0 {
        lemma_typed_size(log, s.drop_last());
        let before = typed(log, s.drop_last());
        assert(before.push(ScreenEvent::Text(seq![s.last()])).drop_last() == before);
    }
}

/// Where every wide character in the cursor's row and in the next has its two halves, a
/// screen of usual size takes every character, whatever happened to it and whatever is
/// in the other rows.
pub proof fn screens_with_whole_characters_are_kept(
    log: Seq<ScreenEvent>,
    scrollback: usize,
    c: char,
)
    requires
        shape(log).rows >= 2,
        3 <= shape(log).cols <= 65527,
        forall|row: u16, col: u16|
            (row == cursor(log).0 || row == cursor(log).0 + 1) && #[trigger] wide_cell(
                log,
                row,
                col,
            ) ==> col < u16::MAX && second_half(log, row, (col + 1) as u16),
    ensures
        char_shown(log, scrollback, c) == log.push(ScreenEvent::Text(seq![c])),
{
    let row = cursor(log).0 as int;
    assert forall|r: int, col: int| r == row || r == row + 1 implies !#[trigger] half(
        log,
        r,
        col,
    ) by {
        if 0 <= r <= u16::MAX && 0 <= col <= u16::MAX {
            let r16 = r as u16;
            let c16 = col as u16;
            if wide_cell(log, r16, c16) {
                assert(second_half(log, r16, (c16 + 1) as u16));
            }
        }
    }
    assert(!meets_half(log, c));
    narrowed_screens_are_kept(log, scrollback, c);
}

/// A screen of any size on which no half of a character can stand takes a character
/// that is no wider than the screen, as long as it need not wrap a line in a single
/// row, and is no tab on a very broad screen.
pub proof fn text_that_fits_is_taken_on_every_screen(
    log: Seq<ScreenEvent>,
    scrollback: usize,
    c: char,
)
    requires
        shape(log).rows >= 1,
        !shape(log).suspect,
        char_width(c) <= shape(log).cols,
        shape(log).rows >= 2 || cursor(log).1 + char_width(c) <= shape(log).cols,
        c == '\t' ==> shape(log).cols <= 65527,
    ensures
        char_shown(log, scrollback, c) == log.push(ScreenEvent::Text(seq![c])),
{
    assert(seq![c][0] == c);
}

/// A code is over with the character that ends it, and then text is drawn again, as it
/// is where there is no code.
pub proof fn codes_end_with_their_last_character(
    log: Seq<ScreenEvent>,
    s: Seq<char>,
    parameters: Seq<char>,
    end: char,
    c: char,
)
    requires
        forall|i: int| 0 <= i < parameters.len() ==> ' ' <= #[trigger] parameters[i] <= '?',
        '@' <= end <= '~',
    ensures
        ({
            let after = log.push(
                ScreenEvent::Text(s + seq!['\u{1b}', '['] + parameters + seq![end]),
            );
            &&& shape(after).state == CodeState::Text
            &&& shape(after).code.len() == 0
            &&& '!' <= c <= '~' ==> is_drawn(after, c)
        }),
        shape(log).state == CodeState::Text && c != '\u{1b}' ==> shape(
            log.push(ScreenEvent::Text(seq![c])),
        ).state == CodeState::Text,
{
    let open = s + seq!['\u{1b}', '['] + parameters;
    let all = open + seq![end];
    an_open_code_is_kept(log, s, parameters);
    assert(log.push(ScreenEvent::Text(open)).drop_last() == log);
    assert(log.push(ScreenEvent::Text(all)).drop_last() == log);
    assert(all.drop_last() == open);
    assert(all.last() == end);
    assert(log.push(ScreenEvent::Text(seq![c])).drop_last() == log);
    assert(seq![c].drop_last() == Seq::<char>::empty());
    assert(state_after(shape(log).state, seq![c].drop_last()) == shape(log).state);
}

/// The letters, digits and signs of the European alphabets, and the lines and blocks
/// that programs draw with, take one column; the characters of East Asia take two.
pub proof fn east_asian_characters_are_wide(c: char)
    ensures
        c < '\u{1100}' ==> !may_be_wide(c) && char_width(c) == 1,
        '\u{2500}' <= c <= '\u{25fc}' ==> !may_be_wide(c) && char_width(c) == 1,
        '\u{3000}' <= c <= '\u{d7ff}' ==> may_be_wide(c) && char_width(c) == 2,
        '\u{f900}' <= c ==> may_be_wide(c) && char_width(c) == 2,
{
}

/// A text that has a wide character in it anywhere is known to have one, and one that
/// has none is not.
pub proof fn wide_characters_are_noticed(log: Seq<ScreenEvent>, a: Seq<char>, c: char, b: Seq<char>)
    ensures
        may_be_wide(c) ==> shape(log.push(ScreenEvent::Text(a + seq![c] + b))).wide,
        shape(log).wide ==> shape(log.push(ScreenEvent::Text(a))).wide,
        (forall|i: int| 0 <= i < a.len() ==> a[i] < '\u{1100}') ==> shape(
            log.push(ScreenEvent::Text(a)),
        ).wide == shape(log).wide,
{
    let s = a + seq![c] + b;
    assert(s[a.len() as int] == c);
    assert(log.push(ScreenEvent::Text(s)).drop_last() == log);
    assert(log.push(ScreenEvent::Text(a)).drop_last() == log);
}

/// A code that is not complete at the end of a text is kept, from its escape character
/// on, so that what follows completes it.
pub proof fn an_open_code_is_kept(log: Seq<ScreenEvent>, s: Seq<char>, parameters: Seq<char>)
    requires
        forall|i: int| 0 <= i < parameters.len() ==> ' ' <= #[trigger] parameters[i] <= '?',
    ensures
        ({
            let now = shape(
                log.push(ScreenEvent::Text(s + seq!['\u{1b}', '['] + parameters)),
            );
            &&& now.state == CodeState::Csi
            &&& now.code == seq!['\u{1b}', '['] + parameters
        }),
    decreases parameters.len(),
{
    let start = seq!['\u{1b}', '['];
    let all = s + start + parameters;
    let before = shape(log);
    assert(log.push(ScreenEvent::Text(all)).drop_last() == log);
    if parameters.len() == 0 {
        let escaped = s.push('\u{1b}');
        assert(all.drop_last() == escaped);
        assert(all.last() == '[');
        assert(escaped.drop_last() == s);
        assert(escaped.last() == '\u{1b}');
        assert(state_after(before.state, escaped) == CodeState::Escape);
        assert(code_after(before.state, before.code, escaped) == seq!['\u{1b}']);
        assert(seq!['\u{1b}'].push('[') == start);
        assert(start + parameters == start);
    } else {
        let fewer = parameters.drop_last();
        assert forall|i: int| 0 <= i < fewer.len() implies ' ' <= #[trigger] fewer[i] <= '?' by {
            assert(fewer[i] == parameters[i]);
        }
        an_open_code_is_kept(log, s, fewer);
        let shorter = s + start + fewer;
        assert(log.push(ScreenEvent::Text(shorter)).drop_last() == log);
        assert(all.drop_last() == shorter);
        assert(all.last() == parameters.last());
        assert(parameters.last() == parameters[parameters.len() - 1]);
        assert((start + fewer).push(parameters.last()) == start + parameters);
    }
}

/// A screen that is drawn again is drawn with every row that is in view: the codes for
/// each stand among the codes that the new emulator gets, those for whole rows unless
/// half a character stands at the edge. So do those for the attributes and modes, for
/// the cursor and for hiding it; those for the grid in view stand before all others.
pub proof fn every_row_in_view_is_drawn_again(log: Seq<ScreenEvent>, row: u16, c: char)
    requires
        row < shape(log).rows,
        shape(log).rows >= 2,
        !wide_cell(log, row, (shape(log).cols - 1) as u16),
    ensures
        text::has_substring(
            codes_again(log, c),
            decode::decoded(row_codes(log, row, 0, u16::MAX)),
        ),
        text::has_substring(codes_again(log, c), decode::decoded(mode_codes(log))),
        text::has_substring(codes_again(log, c), decode::decoded(attribute_codes(log))),
        cursor(log).1 < shape(log).cols ==> text::has_substring(
            codes_again(log, c),
            "\u{1b}["@ + decimal((cursor(log).0 + 1) as nat) + ";"@ + decimal(
                (cursor(log).1 + 1) as nat,
            ) + "H"@,
        ),
        in_alternate(log) ==> "\u{1b}[?1049h"@.is_prefix_of(codes_again(log, c)),
        cursor_hidden(log) ==> text::has_substring(codes_again(log, c), "\u{1b}[?25l"@),
{
    let none = Seq::<char>::empty();
    let codes = decode::decoded(row_codes(log, row, 0, u16::MAX));
    let attributes = decode::decoded(attribute_codes(log));
    let modes = decode::decoded(mode_codes(log));
    let rows = rows_again(log, shape(log).rows as nat);
    let parts = lemma_row_again(log, shape(log).rows as nat, row);
    text::a_text_is_in_what_surrounds_it(parts.0, codes, parts.1);
    let grid = grid_again(log);
    let view = view_again(log);
    let all_modes = modes_again(log);
    let code = shape(log).code;
    text::lemma_substring_append(rows, cursor_again(log), codes);
    lemma_substring_behind(grid, view, codes);
    text::lemma_substring_append(grid + view, all_modes, codes);
    text::lemma_substring_append(grid + view + all_modes, code, codes);
    assert(none + attributes + none == attributes);
    text::a_text_is_in_what_surrounds_it(none, attributes, none);
    text::lemma_substring_append(attributes, modes, attributes);
    assert(none + modes + none == modes);
    text::a_text_is_in_what_surrounds_it(none, modes, none);
    lemma_substring_behind(attributes, modes, modes);
    let hide = if cursor_hidden(log) {
        "\u{1b}[?25l"@
    } else {
        ""@
    };
    text::lemma_substring_append(attributes + modes, hide, attributes);
    text::lemma_substring_append(attributes + modes, hide, modes);
    lemma_substring_behind(grid + view, all_modes, attributes);
    lemma_substring_behind(grid + view, all_modes, modes);
    text::lemma_substring_append(grid + view + all_modes, code, attributes);
    text::lemma_substring_append(grid + view + all_modes, code, modes);
    let at = cursor_again(log);
    assert(none + at + none == at);
    text::a_text_is_in_what_surrounds_it(none, at, none);
    lemma_substring_behind(rows, at, at);
    lemma_substring_behind(grid, view, at);
    text::lemma_substring_append(grid + view, all_modes, at);
    text::lemma_substring_append(grid + view + all_modes, code, at);
    assert(none + hide + none == hide);
    text::a_text_is_in_what_surrounds_it(none, hide, none);
    lemma_substring_behind(attributes + modes, hide, hide);
    lemma_substring_behind(grid + view, all_modes, hide);
    text::lemma_substring_append(grid + view + all_modes, code, hide);
    let all = codes_again(log, c);
    assert(all.subrange(0, grid.len() as int) == grid);
}

/// What stands in a text stands in it also behind another.
proof fn lemma_substring_behind(before: Seq<char>, hay: Seq<char>, needle: Seq<char>)
    requires
        text::has_substring(hay, needle),
    ensures
        text::has_substring(before + hay, needle),
{
    let parts = text::what_is_in_a_text_can_be_cut_out(hay, needle);
    assert(before + hay == (before + parts.0) + needle + parts.1);
    text::a_text_is_in_what_surrounds_it(before + parts.0, needle, parts.1);
}

proof fn lemma_row_again(log: Seq<ScreenEvent>, n: nat, row: u16) -> (parts: (
    Seq<char>,
    Seq<char>,
))
    requires
        row < n <= u16::MAX,
        !wide_cell(log, row, (shape(log).cols - 1) as u16),
    ensures
        rows_again(log, n) == parts.0 + decode::decoded(row_codes(log, row, 0, u16::MAX)) + parts.1,
    decreases n,
{
    let codes = decode::decoded(row_codes(log, row, 0, u16::MAX));
    let last = (n - 1) as u16;
    let fewer = rows_again(log, (n - 1) as nat);
    if row == last {
        let before = fewer + row_start(row);
        assert(rows_again(log, n) == before + codes + Seq::<char>::empty());
        (before, Seq::empty())
    } else {
        let parts = lemma_row_again(log, (n - 1) as nat, row);
        let after = parts.1 + row_start(last) + decode::decoded(
            row_codes(log, last, 0, row_width(log, last)),
        );
        assert(rows_again(log, n) == parts.0 + codes + after);
        (parts.0, after)
    }
}

} // verus!
