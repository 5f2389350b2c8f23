//! A terminal in a browser: what its messages mean for a session.

use vstd::prelude::*;

use crate::screen;
use crate::text;

verus! {

broadcast use vstd::string::group_string_axioms;

/// How much output waits for the browser before the session has to.
pub const OUTPUT_QUEUE: usize = 256;

/// Whether `c` is a decimal digit.
pub open spec fn is_digit(c: char) -> bool {
    '0' <= c <= '9'
}

/// The number that decimal digits stand for.
pub open spec fn value(digits: Seq<char>) -> nat
    decreases digits.len(),
{
    if digits.len() == 0 {
        0
    } else {
        value(digits.drop_last()) * 10 + (digits.last() as u32 - '0' as u32) as nat
    }
}

/// The digits of a number that may have a plus sign before it.
pub open spec fn digits_of(s: Seq<char>) -> Seq<char> {
    if s.len() > 0 && s[0] == '+' {
        s.skip(1)
    } else {
        s
    }
}

/// The number in `s`, if it is one that fits: digits, with a plus sign or not.
pub open spec fn number(s: Seq<char>) -> Option<u16> {
    let digits = digits_of(s);
    if digits.len() > 0 && (forall|i: int| 0 <= i < digits.len() ==> is_digit(#[trigger] digits[i]))
        && value(digits) <= 65535 {
        Some(value(digits) as u16)
    } else {
        None
    }
}

/// The position of the first comma in `s` from `i` on, or the length of `s`.
pub open spec fn comma(s: Seq<char>, i: int) -> int
    decreases s.len() - i,
{
    if i >= s.len() {
        s.len() as int
    } else if s[i] == ',' {
        i
    } else {
        comma(s, i + 1)
    }
}

/// The two numbers in a list; more entries do not matter.
pub open spec fn two_numbers(list: Seq<char>) -> Option<(u16, u16)> {
    let first = comma(list, 0);
    let second = comma(list, first + 1);
    if first >= list.len() {
        None
    } else {
        match (
            number(text::trimmed(list.subrange(0, first))),
            number(text::trimmed(list.subrange(first + 1, second))),
        ) {
            (Some(cols), Some(rows)) => Some((cols, rows)),
            _ => None,
        }
    }
}

/// The size in a message of the form `{"resize":[cols,rows]}`.
pub open spec fn resize_request(msg: Seq<char>) -> Option<(u16, u16)> {
    let s = text::trimmed(msg);
    let start = "{\"resize\":["@;
    let end = "]}"@;
    if s.len() >= 13 && s.take(11) == start && s.skip(s.len() - 2) == end {
        two_numbers(s.subrange(11, s.len() - 2))
    } else {
        None
    }
}

/// The position of the first comma from `from` on, or the length.
fn find_comma(v: &Vec<char>, from: usize) -> (r: usize)
    requires
        from <= v@.len(),
    ensures
        from <= r <= v@.len(),
        r == comma(v@, from as int),
{
    let mut i: usize = from;
    while i < v.len() && v[i] != ','
        invariant
            from <= i <= v@.len(),
            comma(v@, from as int) == comma(v@, i as int),
        decreases v@.len() - i,
    {
        i = i + 1;
    }
    i
}

/// More digits make no smaller number.
proof fn lemma_value_grows(digits: Seq<char>, n: int)
    requires
        0 <= n <= digits.len(),
    ensures
        value(digits.take(n)) <= value(digits),
    decreases digits.len() - n,
{
    if n < digits.len() {
        lemma_value_grows(digits, n + 1);
        assert(digits.take(n + 1).drop_last() == digits.take(n));
    } else {
        assert(digits.take(n) == digits);
    }
}

/// The number in `s`, if it is one that fits.
pub fn parse_number(s: &str) -> (r: Option<u16>)
    ensures
        r == number(s@),
{
    let v: Vec<char> = text::chars_of(s);
    let n: usize = v.len();
    let start: usize = if n > 0 && v[0] == '+' {
        1
    } else {
        0
    };
    let ghost digits = digits_of(s@);
    assert(digits == v@.skip(start as int));
    if start == n {
        return None;
    }
    let mut total: u32 = 0;
    let mut i: usize = start;
    while i < n
        invariant
            n == v@.len(),
            v@ == s@,
            digits == digits_of(s@),
            digits == v@.skip(start as int),
            start <= i <= n,
            start < n,
            total <= 65535,
            total == value(digits.take(i - start)),
            forall|k: int| 0 <= k < i - start ==> is_digit(#[trigger] digits[k]),
        decreases n - i,
    {
        let c: char = v[i];
        assert(digits[i - start] == c);
        if c < '0' || c > '9' {
            return None;
        }
        proof {
            assert(digits.take(i - start + 1).drop_last() == digits.take(i - start));
            assert(digits.take(i - start + 1).last() == c);
        }
        total = total * 10 + (c as u32 - '0' as u32);
        if total > 65535 {
            proof {
                lemma_value_grows(digits, i - start + 1);
            }
            return None;
        }
        i = i + 1;
    }
    assert(digits.take(n - start) == digits);
    Some(total as u16)
}

/// The size, columns and rows, in a message of the form `{"resize":[cols,rows]}`.
pub fn parse_resize(msg: &str) -> (r: Option<(u16, u16)>)
    ensures
        r == resize_request(msg@),
{
    let s: Vec<char> = text::chars_of(text::trim(msg));
    let n: usize = s.len();
    if n < 13 {
        return None;
    }
    let start: String = text::string_from(&s, 0, 11);
    let end: String = text::string_from(&s, n - 2, n);
    assert(s@.subrange(0, 11) == s@.take(11));
    assert(s@.subrange(n - 2, n as int) == s@.skip(n - 2));
    if !text::same(start.as_str(), "{\"resize\":[") || !text::same(end.as_str(), "]}") {
        return None;
    }
    let list: Vec<char> = text::chars_of(text::string_from(&s, 11, n - 2).as_str());
    let first: usize = find_comma(&list, 0);
    if first == list.len() {
        return None;
    }
    let second: usize = find_comma(&list, first + 1);
    let cols: String = text::string_from(&list, 0, first);
    let rows: String = text::string_from(&list, first + 1, second);
    match (parse_number(text::trim(cols.as_str())), parse_number(text::trim(rows.as_str()))) {
        (Some(cols), Some(rows)) => Some((cols, rows)),
        _ => None,
    }
}

/// What happens between a browser and a session.
#[derive(Debug)]
pub enum SocketEvent {
    /// The session wrote this; nothing more comes when it is over.
    Output(Option<String>),
    /// The browser sent this text.
    Text(String),
    /// The browser sent something else, or something went wrong with it.
    Other,
    /// The browser is gone.
    Gone,
}

/// What is done for it.
#[derive(Debug)]
pub enum SocketAction {
    /// Send this text to the browser; if that fails, stop.
    Show(String),
    /// Set the size of the terminal: columns, rows.
    Resize(u16, u16),
    /// Send this text to the session.
    Send(String),
    /// Nothing.
    Nothing,
    /// Stop, and ask the session to leave.
    Stop,
}

/// What to do for an event. A text that asks for another size sets it, and any
/// other text is typed.
pub fn handle_socket(event: SocketEvent) -> (r: SocketAction)
    ensures
        r == (match event {
            SocketEvent::Output(Some(chunk)) => SocketAction::Show(chunk),
            SocketEvent::Output(None) => SocketAction::Stop,
            SocketEvent::Text(s) => match resize_request(s@) {
                Some((cols, rows)) => SocketAction::Resize(cols, rows),
                None => SocketAction::Send(s),
            },
            SocketEvent::Other => SocketAction::Nothing,
            SocketEvent::Gone => SocketAction::Stop,
        }),
{
    match event {
        SocketEvent::Output(Some(chunk)) => SocketAction::Show(chunk),
        SocketEvent::Output(None) => SocketAction::Stop,
        SocketEvent::Text(s) => match parse_resize(s.as_str()) {
            Some((cols, rows)) => SocketAction::Resize(cols, rows),
            None => SocketAction::Send(s),
        },
        SocketEvent::Other => SocketAction::Nothing,
        SocketEvent::Gone => SocketAction::Stop,
    }
}

/// The message that tells the browser why there is no session.
pub fn spawn_failed(reason: &str) -> (r: String)
    ensures
        r@ == "spawn failed: "@ + reason@,
{
    let mut r: String = "spawn failed: ".to_owned();
    r.append(reason);
    r
}

/// Whether `s` is white space.
pub open spec fn is_blank(s: Seq<char>) -> bool {
    forall|i: int| 0 <= i < s.len() ==> text::is_whitespace(#[trigger] s[i])
}

/// Whether `s` is a number of any size: digits, with a plus sign or not.
pub open spec fn is_number(s: Seq<char>) -> bool {
    let digits = digits_of(s);
    digits.len() > 0 && forall|i: int| 0 <= i < digits.len() ==> is_digit(#[trigger] digits[i])
}

/// White space before a text that starts with none is trimmed.
proof fn lemma_trimmed_start(before: Seq<char>, s: Seq<char>)
    requires
        is_blank(before),
        s.len() > 0,
        !text::is_whitespace(s[0]),
    ensures
        text::trimmed_start(before + s) == s,
    decreases before.len(),
{
    let all = before + s;
    if before.len() == 0 {
        assert(all == s);
    } else {
        let fewer = before.drop_first();
        assert forall|i: int| 0 <= i < fewer.len() implies text::is_whitespace(
            #[trigger] fewer[i],
        ) by {
            assert(fewer[i] == before[i + 1]);
        }
        assert(all[0] == before[0]);
        assert(all.drop_first() == fewer + s);
        lemma_trimmed_start(fewer, s);
    }
}

/// White space behind a text that ends with none is trimmed.
proof fn lemma_trimmed_end(s: Seq<char>, after: Seq<char>)
    requires
        is_blank(after),
        s.len() > 0,
        !text::is_whitespace(s.last()),
    ensures
        text::trimmed_end(s + after) == s,
    decreases after.len(),
{
    let all = s + after;
    if after.len() == 0 {
        assert(all == s);
    } else {
        assert(all.last() == after[after.len() - 1]);
        assert(all.drop_last() == s + after.drop_last());
        lemma_trimmed_end(s, after.drop_last());
    }
}

/// White space around a text that has none at its ends is trimmed.
proof fn lemma_trimmed(before: Seq<char>, s: Seq<char>, after: Seq<char>)
    requires
        is_blank(before),
        is_blank(after),
        s.len() > 0,
        !text::is_whitespace(s[0]),
        !text::is_whitespace(s.last()),
    ensures
        text::trimmed(before + s + after) == s,
{
    assert(before + s + after == before + (s + after));
    lemma_trimmed_start(before, s + after);
    lemma_trimmed_end(s, after);
}

/// A number is what is left of it between white space, and has no comma in it.
proof fn lemma_number_characters(before: Seq<char>, s: Seq<char>, after: Seq<char>)
    requires
        is_blank(before),
        is_number(s),
        is_blank(after),
    ensures
        text::trimmed(before + s + after) == s,
        !(before + s + after).contains(','),
{
    let digits = digits_of(s);
    assert forall|i: int| 0 <= i < s.len() implies #[trigger] s[i] != ',' && !text::is_whitespace(
        s[i],
    ) by {
        if s[0] == '+' {
            if i > 0 {
                assert(is_digit(digits[i - 1]));
            }
        } else {
            assert(is_digit(digits[i]));
        }
    }
    lemma_trimmed(before, s, after);
    let all = before + s + after;
    assert forall|i: int| 0 <= i < all.len() implies all[i] != ',' by {
        if i < before.len() {
            assert(all[i] == before[i]);
        } else if i < before.len() + s.len() {
            assert(all[i] == s[i - before.len()]);
        } else {
            assert(all[i] == after[i - before.len() - s.len()]);
        }
    }
}

/// There is no comma before the first.
proof fn lemma_comma_at(s: Seq<char>, i: int, at: int)
    requires
        0 <= i <= at <= s.len(),
        forall|k: int| i <= k < at ==> s[k] != ',',
        at < s.len() ==> s[at] == ',',
    ensures
        comma(s, i) == at,
    decreases at - i,
{
    if i < at {
        lemma_comma_at(s, i + 1, at);
    }
}

/// The message with these two entries, and more entries or none behind them.
pub open spec fn size_message(cols: Seq<char>, rows: Seq<char>, more: Seq<char>) -> Seq<char> {
    "{\"resize\":["@ + cols + seq![','] + rows + more + "]}"@
}

/// A message that asks for a size gives what its first two entries give, columns
/// first. White space around it and in the entries does not matter, nor do entries
/// behind the second.
pub proof fn first_two_entries_count(
    before: Seq<char>,
    cols: Seq<char>,
    rows: Seq<char>,
    more: Seq<char>,
    after: Seq<char>,
)
    requires
        is_blank(before),
        is_blank(after),
        !cols.contains(','),
        !rows.contains(','),
        more.len() > 0 ==> more[0] == ',',
    ensures
        resize_request(before + size_message(cols, rows, more) + after) == (match (
            number(text::trimmed(cols)),
            number(text::trimmed(rows)),
        ) {
            (Some(c), Some(r)) => Some((c, r)),
            _ => None::<(u16, u16)>,
        }),
{
    let start = "{\"resize\":["@;
    let end = "]}"@;
    reveal_strlit("{\"resize\":[");
    reveal_strlit("]}");
    assert(start.len() == 11);
    assert(end.len() == 2);
    assert(start[0] == '{');
    assert(end[1] == '}');
    let list = cols + seq![','] + rows + more;
    let msg = size_message(cols, rows, more);
    let n = msg.len() as int;
    assert(msg[0] == '{');
    assert(msg.last() == '}');
    lemma_trimmed(before, msg, after);
    assert(msg.take(11) == start);
    assert(msg.skip(n - 2) == end);
    assert(msg.subrange(11, n - 2) == list);
    let c = cols.len() as int;
    assert forall|k: int| 0 <= k < c implies list[k] != ',' by {
        assert(list[k] == cols[k]);
        assert(cols.contains(cols[k]));
    }
    lemma_comma_at(list, 0, c);
    let m = c + 1 + rows.len();
    assert forall|k: int| c + 1 <= k < m implies list[k] != ',' by {
        assert(list[k] == rows[k - c - 1]);
        assert(rows.contains(rows[k - c - 1]));
    }
    if more.len() > 0 {
        assert(list[m] == more[0]);
    }
    lemma_comma_at(list, c + 1, m);
    assert(list.subrange(0, c) == cols);
    assert(list.subrange(c + 1, m) == rows);
}

/// A message that asks for a size is understood: it gives the two numbers that were
/// written into it, with white space around them or not, unless one is too large
/// for a size.
pub proof fn sizes_are_understood(
    before_cols: Seq<char>,
    cols: Seq<char>,
    after_cols: Seq<char>,
    before_rows: Seq<char>,
    rows: Seq<char>,
    after_rows: Seq<char>,
)
    requires
        is_number(cols),
        is_number(rows),
        is_blank(before_cols),
        is_blank(after_cols),
        is_blank(before_rows),
        is_blank(after_rows),
    ensures
        ({
            let c = value(digits_of(cols));
            let r = value(digits_of(rows));
            resize_request(
                size_message(
                    before_cols + cols + after_cols,
                    before_rows + rows + after_rows,
                    Seq::empty(),
                ),
            ) == if c <= 65535 && r <= 65535 {
                Some((c as u16, r as u16))
            } else {
                None
            }
        }),
{
    let first = before_cols + cols + after_cols;
    let second = before_rows + rows + after_rows;
    let none = Seq::<char>::empty();
    lemma_number_characters(before_cols, cols, after_cols);
    lemma_number_characters(before_rows, rows, after_rows);
    first_two_entries_count(none, first, second, none, none);
    let msg = size_message(first, second, none);
    assert(none + msg + none == msg);
}

/// The decimal digits of a number stand for that number.
proof fn lemma_decimal(n: nat)
    ensures
        screen::decimal(n).len() > 0,
        value(screen::decimal(n)) == n,
        forall|i: int|
            0 <= i < screen::decimal(n).len() ==> is_digit(#[trigger] screen::decimal(n)[i]),
    decreases n,
{
    let d = (('0' as u32 + n % 10) as u32) as char;
    let low = ('0' as u32 + n % 10) as u32;
    assert(vstd::utf8::is_scalar(low));
    vstd::utf8::char_u32_cast(d, low);
    let s = screen::decimal(n);
    if n < 10 {
        assert(s == seq![d]);
        assert(s.drop_last() == Seq::<char>::empty());
        assert(value(s.drop_last()) == 0);
    } else {
        lemma_decimal(n / 10);
        assert(s == screen::decimal(n / 10).push(d));
        assert(s.drop_last() == screen::decimal(n / 10));
        assert forall|i: int| 0 <= i < s.len() implies is_digit(#[trigger] s[i]) by {
            if i < s.len() - 1 {
                assert(s[i] == screen::decimal(n / 10)[i]);
            }
        }
    }
}

/// A number that is written out is read back, if it is one that fits into a size, and
/// a plus sign before it does not matter.
pub proof fn numbers_are_read_as_they_are_written(n: nat)
    ensures
        n <= 65535 ==> number(screen::decimal(n)) == Some(n as u16),
        n > 65535 ==> number(screen::decimal(n)) is None,
        number(seq!['+'] + screen::decimal(n)) == number(screen::decimal(n)),
{
    lemma_decimal(n);
    let s = screen::decimal(n);
    assert(is_digit(s[0]));
    assert(digits_of(s) == s);
    let plus = seq!['+'] + s;
    assert(plus[0] == '+');
    assert(plus.skip(1) == s);
    assert(digits_of(plus) == s);
}

/// What is read as a number has digits only, but for a plus sign before them.
pub proof fn only_digits_are_numbers(s: Seq<char>)
    ensures
        number(s) is Some ==> {
            &&& s.len() > 0
            &&& '0' <= s.last() <= '9'
            &&& '0' <= s[0] <= '9' || s[0] == '+'
            &&& forall|i: int| 1 <= i < s.len() ==> '0' <= #[trigger] s[i] <= '9'
        },
{
    if number(s) is Some {
        let digits = digits_of(s);
        if s[0] == '+' {
            assert forall|i: int| 1 <= i < s.len() implies '0' <= #[trigger] s[i] <= '9' by {
                assert(is_digit(digits[i - 1]));
            }
            assert(is_digit(digits[digits.len() - 1]));
        } else {
            assert(is_digit(digits[0]));
            assert forall|i: int| 1 <= i < s.len() implies '0' <= #[trigger] s[i] <= '9' by {
                assert(is_digit(digits[i]));
            }
        }
    }
}

/// Where the next comma is.
proof fn lemma_comma(s: Seq<char>, i: int)
    requires
        0 <= i <= s.len(),
    ensures
        i <= comma(s, i) <= s.len(),
        forall|k: int| i <= k < comma(s, i) ==> s[k] != ',',
        comma(s, i) < s.len() ==> s[comma(s, i)] == ',',
    decreases s.len() - i,
{
    if i < s.len() && s[i] != ',' {
        lemma_comma(s, i + 1);
    }
}

/// What a message that sets a size is made of.
pub struct SizeMessage {
    pub before: Seq<char>,
    pub cols: Seq<char>,
    pub rows: Seq<char>,
    pub more: Seq<char>,
    pub after: Seq<char>,
}

/// Nothing but a message that asks for a size sets one: with white space around it or
/// not, it has the form of such a message, and its first two entries are the numbers.
/// All else that a browser sends is typed. The result is what the message is made of.
pub proof fn only_size_messages_set_a_size(msg: Seq<char>) -> (m: SizeMessage)
    requires
        resize_request(msg) is Some,
    ensures
        msg == m.before + size_message(m.cols, m.rows, m.more) + m.after,
        is_blank(m.before),
        is_blank(m.after),
        !m.cols.contains(','),
        !m.rows.contains(','),
        m.more.len() > 0 ==> m.more[0] == ',',
        number(text::trimmed(m.cols)) is Some,
        number(text::trimmed(m.rows)) is Some,
        resize_request(msg) == Some(
            (number(text::trimmed(m.cols))->0, number(text::trimmed(m.rows))->0),
        ),
{
    let cut = text::trimming_takes_white_space_only(msg);
    let s = text::trimmed(msg);
    let before = msg.take(cut.0);
    let after = msg.skip(cut.1);
    assert(msg == before + s + after);
    let start = "{\"resize\":["@;
    let end = "]}"@;
    reveal_strlit("{\"resize\":[");
    reveal_strlit("]}");
    let n = s.len() as int;
    let list = s.subrange(11, n - 2);
    lemma_comma(list, 0);
    let first = comma(list, 0);
    lemma_comma(list, first + 1);
    let second = comma(list, first + 1);
    let cols = list.subrange(0, first);
    let rows = list.subrange(first + 1, second);
    let more = list.skip(second);
    assert(list == cols + seq![','] + rows + more);
    assert(s == s.take(11) + list + s.skip(n - 2));
    assert(s == size_message(cols, rows, more));
    assert(!cols.contains(',')) by {
        if cols.contains(',') {
            let k = choose|k: int| 0 <= k < cols.len() && cols[k] == ',';
            assert(list[k] == ',');
        }
    }
    assert(!rows.contains(',')) by {
        if rows.contains(',') {
            let k = choose|k: int| 0 <= k < rows.len() && rows[k] == ',';
            assert(list[first + 1 + k] == ',');
        }
    }
    assert forall|i: int| 0 <= i < before.len() implies text::is_whitespace(
        #[trigger] before[i],
    ) by {
        assert(before[i] == msg[i]);
    }
    assert forall|i: int| 0 <= i < after.len() implies text::is_whitespace(#[trigger] after[i]) by {
        assert(after[i] == msg[cut.1 + i]);
    }
    SizeMessage { before, cols, rows, more, after }
}

} // verus!
