//! Commands, shortcuts and control characters: what is sent for them.

use vstd::prelude::*;

use crate::error::Request;
use crate::shell::stream::StdinMsg;
use crate::text;

verus! {

broadcast use vstd::string::group_string_axioms;

/// What is to be done to send something.
#[derive(Debug)]
pub enum SendStep {
    /// Write this text; it stands for such a request.
    Data(String, Request),
    /// End the input.
    Eof,
    /// Ask the filter what to send in the place of this command, if anything.
    Ask(String),
    /// Start the session again.
    Reset,
    /// Nothing.
    Nothing,
}

/// What is to be done to send something, with texts as characters.
pub enum SendModel {
    Data(Seq<char>, Request),
    Eof,
    Ask(Seq<char>),
    Reset,
    Nothing,
}

impl View for SendStep {
    type V = SendModel;

    open spec fn view(&self) -> SendModel {
        match *self {
            SendStep::Data(s, request) => SendModel::Data(s@, request),
            SendStep::Eof => SendModel::Eof,
            SendStep::Ask(s) => SendModel::Ask(s@),
            SendStep::Reset => SendModel::Reset,
            SendStep::Nothing => SendModel::Nothing,
        }
    }
}

impl SendStep {
    /// The message that carries it, with the request that it stands for.
    pub fn message(self) -> (r: Option<(StdinMsg, Request)>)
        ensures
            r == (match self {
                SendStep::Data(s, request) => Some((StdinMsg::Data(s), request)),
                SendStep::Eof => Some((StdinMsg::Eof, Request::Eof)),
                _ => None,
            }),
    {
        match self {
            SendStep::Data(s, request) => Some((StdinMsg::Data(s), request)),
            SendStep::Eof => Some((StdinMsg::Eof, Request::Eof)),
            SendStep::Ask(s) => None,
            SendStep::Reset => None,
            SendStep::Nothing => None,
        }
    }
}

/// Whether `^` and this character stand for a control character. `^X` does not:
/// it is sent as it is.
pub open spec fn is_shortcut(c: char) -> bool {
    ('@' <= c <= '_' && c != 'X') || c == '?'
}

/// The control character that a whole command stands for, as its upper-case
/// letter: `^` and one character, with white space around them or not, in less
/// than five bytes.
pub open spec fn shortcut(cmd: Seq<char>) -> Option<char> {
    let s = text::trimmed(cmd);
    if text::byte_count(cmd) < 5 && s.len() == 2 && s[0] == '^' && is_shortcut(text::upper(s[1])) {
        Some(text::upper(s[1]))
    } else {
        None
    }
}

/// The control character that `cmd` stands for, if it does.
pub fn parse_control_shortcut(cmd: &str) -> (r: Option<char>)
    ensures
        r == shortcut(cmd@),
{
    if text::byte_len(cmd) >= 5 {
        return None;
    }
    let s: Vec<char> = text::chars_of(text::trim(cmd));
    if s.len() == 2 && s[0] == '^' {
        let upper: char = text::to_upper(s[1]);
        if ('@' <= upper && upper <= '_' && upper != 'X') || upper == '?' {
            return Some(upper);
        }
    }
    None
}

/// What a control character does. In a terminal it is typed: `@` to `_` are the
/// characters from 0 to 31, `?` is 127, and others are nothing. On pipes `R`
/// starts the session again, `D` ends the input, and others are nothing.
pub open spec fn control(pty_mode: bool, ctrl: char) -> SendModel {
    let c = text::upper(ctrl);
    if pty_mode {
        if '@' <= c <= '_' {
            SendModel::Data(seq![(c as u32 - 0x40) as char], Request::ControlChar)
        } else if c == '?' {
            SendModel::Data(seq!['\u{7f}'], Request::Delete)
        } else {
            SendModel::Nothing
        }
    } else if c == 'R' {
        SendModel::Reset
    } else if c == 'D' {
        SendModel::Eof
    } else {
        SendModel::Nothing
    }
}

/// What to do for a control character.
pub fn control_step(pty_mode: bool, ctrl: char) -> (r: SendStep)
    ensures
        r@ == control(pty_mode, ctrl),
{
    let upper: char = text::to_upper(ctrl);
    if pty_mode {
        if '@' <= upper && upper <= '_' {
            let code: char = (upper as u8 - 0x40) as char;
            let mut data: String = String::new();
            data.push(code);
            assert(data@ == seq![code]);
            return SendStep::Data(data, Request::ControlChar);
        }
        if upper == '?' {
            let mut data: String = String::new();
            data.push('\u{7f}');
            assert(data@ == seq!['\u{7f}']);
            return SendStep::Data(data, Request::Delete);
        }
        return SendStep::Nothing;
    }
    if upper == 'R' {
        SendStep::Reset
    } else if upper == 'D' {
        SendStep::Eof
    } else {
        SendStep::Nothing
    }
}

/// What is sent of a command that the filter has answered.
pub fn answered(reply: Option<String>) -> (r: SendStep)
    ensures
        r == (match reply {
            Some(s) => SendStep::Data(s, Request::Command),
            None => SendStep::Nothing,
        }),
{
    match reply {
        Some(s) => SendStep::Data(s, Request::Command),
        None => SendStep::Nothing,
    }
}

/// A letter in upper case has no other upper case.
pub proof fn lemma_upper_twice(c: char)
    ensures
        text::upper(text::upper(c)) == text::upper(c),
{
}

/// `^` and a character is a shortcut, in upper or lower case, if the character has
/// a control character.
pub proof fn caret_notation_is_a_shortcut(c: char)
    requires
        is_shortcut(text::upper(c)),
    ensures
        shortcut(seq!['^', c]) == Some(text::upper(c)),
{
    let cmd = seq!['^', c];
    assert(text::trimmed_start(cmd) == cmd);
    assert(cmd.last() == c);
    assert(text::trimmed_end(cmd) == cmd);
    vstd::utf8::is_ascii_chars_encode_utf8(cmd);
}

/// Nothing but `^` and one character is a shortcut, with white space around them or
/// not, and less than five bytes in all: the shortcut is the character, a letter in
/// upper case. The result is the position of the `^`.
pub proof fn only_caret_notation_is_a_shortcut(cmd: Seq<char>) -> (at: int)
    ensures
        shortcut(cmd) matches Some(u) ==> {
            &&& 0 <= at < cmd.len() - 1
            &&& cmd[at] == '^'
            &&& forall|i: int|
                0 <= i < cmd.len() && i != at && i != at + 1 ==> text::is_whitespace(
                    #[trigger] cmd[i],
                )
            &&& vstd::utf8::encode_utf8(cmd).len() < 5
            &&& if 'a' <= cmd[at + 1] <= 'z' {
                u as u32 + 32 == cmd[at + 1] as u32
            } else {
                u == cmd[at + 1]
            }
            &&& '?' <= u <= '_' && u != 'X'
        },
{
    let cut = text::trimming_takes_white_space_only(cmd);
    if shortcut(cmd) is Some {
        let s = text::trimmed(cmd);
        assert(s[0] == cmd[cut.0]);
        assert(s[1] == cmd[cut.0 + 1]);
        text::letters_have_two_cases(s[1]);
    }
    cut.0
}

/// `^` and a character from `?` to `_`, or a small letter, is a shortcut for the
/// character in upper case, but for `^X`, whatever white space stands around it, as
/// long as all is less than five bytes.
pub proof fn caret_notation_may_have_white_space_around_it(
    before: Seq<char>,
    c: char,
    after: Seq<char>,
)
    requires
        forall|i: int| 0 <= i < before.len() ==> text::is_whitespace(#[trigger] before[i]),
        forall|i: int| 0 <= i < after.len() ==> text::is_whitespace(#[trigger] after[i]),
        ('?' <= c <= '_' && c != 'X') || ('a' <= c <= 'z' && c != 'x'),
        vstd::utf8::encode_utf8(before + seq!['^', c] + after).len() < 5,
    ensures
        shortcut(before + seq!['^', c] + after) matches Some(u) && (if 'a' <= c <= 'z' {
            u as u32 + 32 == c as u32
        } else {
            u == c
        }),
{
    let s = seq!['^', c];
    assert(s[0] == '^' && s[1] == c && s.len() == 2);
    text::white_space_is_what_separates_words('^');
    text::white_space_is_what_separates_words(c);
    text::padding_does_not_matter(before, s, after);
    text::letters_have_two_cases(c);
    if 'a' <= c && c <= 'z' {
        assert(text::upper(c) != 'X') by {
            text::letters_have_two_cases(text::upper(c));
            if text::upper(c) == 'X' {
                assert(c as u32 == 'x' as u32);
                vstd::utf8::char_u32_cast('x', 'x' as u32);
                vstd::utf8::char_u32_cast(c, c as u32);
            }
        }
    }
}

/// In a terminal a control character is typed as the one character that the keyboard
/// has for it: a letter's number in the alphabet, 127 for `?`, and nothing for a
/// character that has none. On pipes nothing is typed: `R` starts the session again,
/// `D` ends the input, and every other character does nothing.
pub proof fn control_characters_are_typed_or_acted_on(c: char)
    ensures
        '@' <= c <= '_' || 'a' <= c <= 'z' ==> (control(true, c) matches SendModel::Data(
            s,
            request,
        ) && s.len() == 1 && s[0] as u32 == c as u32 % 32 && request == Request::ControlChar),
        c == '?' ==> (control(true, c) matches SendModel::Data(s, request) && s.len() == 1
            && s[0] as u32 == 127 && request == Request::Delete),
        c < '?' || '_' < c < 'a' || 'z' < c ==> control(true, c) is Nothing,
        c == 'r' || c == 'R' ==> control(false, c) is Reset,
        c == 'd' || c == 'D' ==> control(false, c) is Eof,
        c != 'r' && c != 'R' && c != 'd' && c != 'D' ==> control(false, c) is Nothing,
{
    text::letters_have_two_cases(c);
    let u = text::upper(c);
    if '@' <= u && u <= '_' {
        let code = (u as u32 - 0x40) as u32;
        assert(vstd::utf8::is_scalar(code));
        vstd::utf8::char_u32_cast(code as char, code);
    }
    vstd::utf8::char_u32_cast('R', 'R' as u32);
    vstd::utf8::char_u32_cast('D', 'D' as u32);
    vstd::utf8::char_u32_cast('r', 'r' as u32);
    vstd::utf8::char_u32_cast('d', 'd' as u32);
    vstd::utf8::char_u32_cast(c, c as u32);
    vstd::utf8::char_u32_cast(u, u as u32);
}

/// What is to be sent is the text of the step, for the request of the step.
pub proof fn a_step_is_what_it_says(step: SendStep)
    ensures
        match (step, step@) {
            (SendStep::Data(s, request), SendModel::Data(text, of)) => s@ == text && request == of,
            (SendStep::Ask(s), SendModel::Ask(text)) => s@ == text,
            (SendStep::Eof, SendModel::Eof) => true,
            (SendStep::Reset, SendModel::Reset) => true,
            (SendStep::Nothing, SendModel::Nothing) => true,
            _ => false,
        },
{
}

} // verus!
