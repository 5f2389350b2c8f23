//! Characters and strings: the small operations that the rest of the library
//! is written in, each stated over the sequence of characters of a string.

use vstd::prelude::*;

verus! {

broadcast use vstd::string::group_string_axioms;

/// `String::push` appends one character and leaves the others as they are.
pub assume_specification[ String::push ](s: &mut String, c: char)
    ensures
        final(s)@ == old(s)@.push(c),
;

/// The characters with the Unicode property `White_Space`.
pub open spec fn is_whitespace(c: char) -> bool {
    ||| '\u{9}' <= c <= '\u{d}'
    ||| c == '\u{20}'
    ||| c == '\u{85}'
    ||| c == '\u{a0}'
    ||| c == '\u{1680}'
    ||| '\u{2000}' <= c <= '\u{200a}'
    ||| c == '\u{2028}'
    ||| c == '\u{2029}'
    ||| c == '\u{202f}'
    ||| c == '\u{205f}'
    ||| c == '\u{3000}'
}

/// Whether `c` is white space.
pub fn whitespace(c: char) -> (r: bool)
    ensures
        r == is_whitespace(c),
{
    ('\u{9}' <= c && c <= '\u{d}') || c == '\u{20}' || c == '\u{85}' || c == '\u{a0}' || c
        == '\u{1680}' || ('\u{2000}' <= c && c <= '\u{200a}') || c == '\u{2028}' || c == '\u{2029}'
        || c == '\u{202f}' || c == '\u{205f}' || c == '\u{3000}'
}

/// `s` without the white space at its start.
pub open spec fn trimmed_start(s: Seq<char>) -> Seq<char>
    decreases s.len(),
{
    if s.len() > 0 && is_whitespace(s[0]) {
        trimmed_start(s.drop_first())
    } else {
        s
    }
}

/// `s` without the white space at its end.
pub open spec fn trimmed_end(s: Seq<char>) -> Seq<char>
    decreases s.len(),
{
    if s.len() > 0 && is_whitespace(s.last()) {
        trimmed_end(s.drop_last())
    } else {
        s
    }
}

/// `s` without the white space at both ends.
pub open spec fn trimmed(s: Seq<char>) -> Seq<char> {
    trimmed_end(trimmed_start(s))
}

/// The number of bytes that `s` takes in UTF-8.
pub open spec fn byte_count(s: Seq<char>) -> nat {
    vstd::utf8::encode_utf8(s).len()
}

/// The upper-case form of an ASCII letter; any other character as it is.
pub open spec fn upper(c: char) -> char {
    if 'a' <= c <= 'z' {
        (c as u32 - 32) as char
    } else {
        c
    }
}

/// The lower-case form of an ASCII letter; any other character as it is.
pub open spec fn lower(c: char) -> char {
    if 'A' <= c <= 'Z' {
        (c as u32 + 32) as char
    } else {
        c
    }
}

/// Whether `needle` stands somewhere in `hay` as a contiguous piece.
pub open spec fn has_substring(hay: Seq<char>, needle: Seq<char>) -> bool {
    exists|i: int| #[trigger] occurs_at(hay, needle, i)
}

/// Whether `needle` stands in `hay` from position `i` on.
pub open spec fn occurs_at(hay: Seq<char>, needle: Seq<char>, i: int) -> bool {
    &&& 0 <= i
    &&& i + needle.len() <= hay.len()
    &&& hay.subrange(i, i + needle.len()) == needle
}

/// The characters of `s`.
pub fn chars_of(s: &str) -> (r: Vec<char>)
    ensures
        r@ == s@,
{
    let mut r: Vec<char> = Vec::new();
    for c in it: s.chars()
        invariant
            it.seq() == s@,
            r@ == s@.take(it.index() as int),
    {
        r.push(c);
    }
    r
}

/// The string of the characters `from..to` of `v`.
pub fn string_from(v: &Vec<char>, from: usize, to: usize) -> (r: String)
    requires
        from <= to <= v@.len(),
    ensures
        r@ == v@.subrange(from as int, to as int),
{
    let mut r: String = String::new();
    let mut i: usize = from;
    while i < to
        invariant
            from <= i <= to <= v@.len(),
            r@ == v@.subrange(from as int, i as int),
        decreases to - i,
    {
        r.push(v[i]);
        i = i + 1;
    }
    r
}

/// Whether two strings hold the same characters.
pub fn same(a: &str, b: &str) -> (r: bool)
    ensures
        r == (a@ == b@),
{
    a.to_owned() == b.to_owned()
}

/// The number of bytes of `s` in UTF-8.
pub fn byte_len(s: &str) -> (r: usize)
    ensures
        r == byte_count(s@),
{
    s.as_bytes().len()
}

/// The upper-case form of an ASCII letter; any other character as it is.
pub fn to_upper(c: char) -> (r: char)
    ensures
        r == upper(c),
{
    if 'a' <= c && c <= 'z' {
        (c as u8 - 32) as char
    } else {
        c
    }
}

/// The lower-case form of an ASCII letter; any other character as it is.
pub fn to_lower(c: char) -> (r: char)
    ensures
        r == lower(c),
{
    if 'A' <= c && c <= 'Z' {
        (c as u8 + 32) as char
    } else {
        c
    }
}

/// `a` followed by `b`.
pub fn joined(a: &str, b: &str) -> (r: String)
    ensures
        r@ == a@ + b@,
{
    let mut r: String = a.to_owned();
    r.append(b);
    r
}

/// `s` without the white space at both ends.
pub fn trim(s: &str) -> (r: &str)
    ensures
        r@ == trimmed(s@),
{
    let v: Vec<char> = chars_of(s);
    let n: usize = v.len();
    let mut from: usize = 0;
    assert(s@.skip(0) == s@);
    while from < n && whitespace(v[from])
        invariant
            n == v@.len(),
            v@ == s@,
            from <= n,
            trimmed_start(s@) == trimmed_start(s@.skip(from as int)),
        decreases n - from,
    {
        proof {
            assert(s@.skip(from as int).drop_first() == s@.skip(from + 1));
        }
        from = from + 1;
    }
    assert(trimmed_start(s@) == s@.skip(from as int));
    let ghost start: Seq<char> = s@.skip(from as int);
    let mut to: usize = n;
    assert(start.take(to - from) == start);
    while from < to && whitespace(v[to - 1])
        invariant
            n == v@.len(),
            v@ == s@,
            from <= to <= n,
            start == s@.skip(from as int),
            trimmed_end(start) == trimmed_end(start.take(to - from)),
        decreases to - from,
    {
        proof {
            assert(start.take(to - from).drop_last() == start.take(to - from - 1));
            assert(start.take(to - from).last() == v@[to - 1]);
        }
        to = to - 1;
    }
    proof {
        let rest = start.take(to - from);
        if to > from {
            assert(rest.last() == v@[to - 1]);
        }
        assert(trimmed_end(rest) == rest);
        assert(rest == s@.subrange(from as int, to as int));
    }
    s.substring_char(from, to)
}

/// Whether `needle` stands in `hay` as a contiguous piece.
pub fn contains(hay: &str, needle: &str) -> (r: bool)
    ensures
        r == has_substring(hay@, needle@),
{
    let h: Vec<char> = chars_of(hay);
    let p: Vec<char> = chars_of(needle);
    let n: usize = h.len();
    let m: usize = p.len();
    if m > n {
        return false;
    }
    let mut i: usize = 0;
    while i <= n - m
        invariant
            n == h@.len(),
            m == p@.len(),
            m <= n,
            h@ == hay@,
            p@ == needle@,
            i <= n - m + 1,
            forall|k: int| 0 <= k < i ==> !occurs_at(hay@, needle@, k),
        decreases n - m + 1 - i,
    {
        let mut j: usize = 0;
        while j < m && h[i + j] == p[j]
            invariant
                n == h@.len(),
                m == p@.len(),
                i <= n - m,
                j <= m <= n,
                forall|k: int| 0 <= k < j ==> h@[i + k] == p@[k],
            decreases m - j,
        {
            j = j + 1;
        }
        if j == m {
            proof {
                assert(hay@.subrange(i as int, i + m) == needle@);
                assert(occurs_at(hay@, needle@, i as int));
            }
            return true;
        }
        proof {
            if occurs_at(hay@, needle@, i as int) {
                assert(hay@.subrange(i as int, i + m)[j as int] == needle@[j as int]);
                assert(false);
            }
        }
        if i == n - m {
            return false;
        }
        i = i + 1;
    }
    false
}

/// The bytes of two texts behind each other are the bytes of both.
pub proof fn lemma_byte_count_append(a: Seq<char>, b: Seq<char>)
    ensures
        byte_count(a + b) == byte_count(a) + byte_count(b),
    decreases a.len(),
{
    if a.len() == 0 {
        assert(a + b == b);
    } else {
        lemma_byte_count_append(a.drop_first(), b);
        assert((a + b).drop_first() == a.drop_first() + b);
        assert((a + b)[0] == a[0]);
    }
}

/// What stands in a text stands in it also when more follows.
pub proof fn lemma_substring_append(hay: Seq<char>, more: Seq<char>, needle: Seq<char>)
    requires
        has_substring(hay, needle),
    ensures
        has_substring(hay + more, needle),
{
    let i = choose|i: int| #[trigger] occurs_at(hay, needle, i);
    assert((hay + more).subrange(i, i + needle.len()) == hay.subrange(i, i + needle.len()));
    assert(occurs_at(hay + more, needle, i));
}

/// What can stand in a word is no white space: the visible characters of ASCII, the
/// letters and signs of the alphabets that follow, and almost all beyond them. The
/// characters of the space bar, the tabulator and line ends are.
pub proof fn white_space_is_what_separates_words(c: char)
    ensures
        '!' <= c <= '~' ==> !is_whitespace(c),
        c <= '\u{8}' ==> !is_whitespace(c),
        '\u{a1}' <= c <= '\u{167f}' ==> !is_whitespace(c),
        '\u{1681}' <= c <= '\u{1fff}' ==> !is_whitespace(c),
        '\u{2060}' <= c <= '\u{2fff}' ==> !is_whitespace(c),
        '\u{3001}' <= c ==> !is_whitespace(c),
        '\u{e}' <= c <= '\u{1f}' ==> !is_whitespace(c),
        '\u{7f}' <= c <= '\u{9f}' && c != '\u{85}' ==> !is_whitespace(c),
        '\u{200b}' <= c <= '\u{2027}' ==> !is_whitespace(c),
        c == ' ' || c == '\t' || c == '\n' || c == '\r' ==> is_whitespace(c),
        c == '\u{b}' || c == '\u{c}' || c == '\u{a0}' || c == '\u{3000}' ==> is_whitespace(c),
{
}

/// Trimming takes white space away, all that stands at the two ends, and nothing
/// else: what is left is a piece of the text with nothing but white space around it,
/// and neither starts nor ends with any.
pub proof fn trimming_takes_white_space_only(s: Seq<char>) -> (cut: (int, int))
    ensures
        0 <= cut.0 <= cut.1 <= s.len(),
        trimmed(s) == s.subrange(cut.0, cut.1),
        forall|i: int| 0 <= i < cut.0 ==> is_whitespace(#[trigger] s[i]),
        forall|i: int| cut.1 <= i < s.len() ==> is_whitespace(#[trigger] s[i]),
        cut.0 < cut.1 ==> !is_whitespace(s[cut.0]) && !is_whitespace(s[cut.1 - 1]),
{
    let from = lemma_trimmed_start(s);
    let rest = s.skip(from);
    let to = lemma_trimmed_end(rest);
    assert(rest.take(to) == s.subrange(from, from + to));
    assert forall|i: int| from + to <= i < s.len() implies is_whitespace(#[trigger] s[i]) by {
        assert(rest[i - from] == s[i]);
    }
    if to > 0 {
        assert(rest[0] == s[from]);
        assert(rest[to - 1] == s[from + to - 1]);
    }
    (from, from + to)
}

proof fn lemma_trimmed_start(s: Seq<char>) -> (from: int)
    ensures
        0 <= from <= s.len(),
        trimmed_start(s) == s.skip(from),
        forall|i: int| 0 <= i < from ==> is_whitespace(#[trigger] s[i]),
        from < s.len() ==> !is_whitespace(s[from]),
    decreases s.len(),
{
    if s.len() > 0 && is_whitespace(s[0]) {
        let rest = s.drop_first();
        let from = lemma_trimmed_start(rest);
        assert(rest.skip(from) == s.skip(from + 1));
        assert forall|i: int| 0 <= i < from + 1 implies is_whitespace(#[trigger] s[i]) by {
            if i > 0 {
                assert(rest[i - 1] == s[i]);
            }
        }
        if from < rest.len() {
            assert(rest[from] == s[from + 1]);
        }
        from + 1
    } else {
        assert(s.skip(0) == s);
        0
    }
}

proof fn lemma_trimmed_end(s: Seq<char>) -> (to: int)
    ensures
        0 <= to <= s.len(),
        trimmed_end(s) == s.take(to),
        forall|i: int| to <= i < s.len() ==> is_whitespace(#[trigger] s[i]),
        to > 0 ==> !is_whitespace(s[to - 1]),
    decreases s.len(),
{
    if s.len() > 0 && is_whitespace(s.last()) {
        let rest = s.drop_last();
        let to = lemma_trimmed_end(rest);
        assert(rest.take(to) == s.take(to));
        assert forall|i: int| to <= i < s.len() implies is_whitespace(#[trigger] s[i]) by {
            if i < s.len() - 1 {
                assert(rest[i] == s[i]);
            }
        }
        to
    } else {
        assert(s.take(s.len() as int) == s);
        s.len() as int
    }
}

/// White space around a text does not matter for what is left of it, and a text that
/// has none at its ends is left as it is.
pub proof fn padding_does_not_matter(before: Seq<char>, s: Seq<char>, after: Seq<char>)
    requires
        forall|i: int| 0 <= i < before.len() ==> is_whitespace(#[trigger] before[i]),
        forall|i: int| 0 <= i < after.len() ==> is_whitespace(#[trigger] after[i]),
        s.len() > 0 ==> !is_whitespace(s[0]) && !is_whitespace(s[s.len() - 1]),
    ensures
        trimmed(before + s + after) == s,
{
    let all = before + s + after;
    let n = before.len() as int;
    let m = n + s.len();
    let cut = trimming_takes_white_space_only(all);
    assert(forall|i: int| 0 <= i < n ==> all[i] == before[i]);
    assert(forall|i: int| n <= i < m ==> all[i] == s[i - n]);
    assert(forall|i: int| m <= i < all.len() ==> all[i] == after[i - m]);
    if s.len() > 0 {
        assert(all[n] == s[0]);
        assert(all[m - 1] == s[s.len() - 1]);
        assert(cut.0 < cut.1) by {
            if cut.0 == cut.1 {
                assert(is_whitespace(all[n]));
            }
        }
        assert(cut.0 <= n) by {
            if cut.0 > n {
                assert(is_whitespace(all[n]));
            }
        }
        assert(cut.1 >= m) by {
            if cut.1 < m {
                assert(is_whitespace(all[m - 1]));
            }
        }
        assert(cut.0 >= n) by {
            if cut.0 < n {
                assert(all[cut.0] == before[cut.0]);
            }
        }
        assert(cut.1 <= m) by {
            if cut.1 > m {
                assert(all[cut.1 - 1] == after[cut.1 - 1 - m]);
            }
        }
        assert(all.subrange(n, m) == s);
    } else {
        assert(cut.0 == cut.1) by {
            if cut.0 < cut.1 {
                if cut.0 < n {
                    assert(all[cut.0] == before[cut.0]);
                } else {
                    assert(all[cut.0] == after[cut.0 - m]);
                }
            }
        }
        assert(trimmed(all) == s);
    }
}

/// Only the letters of ASCII have another case: the upper-case form of a small letter
/// and the lower-case form of a capital lead to each other, every other character is
/// its own.
pub proof fn letters_have_two_cases(c: char)
    ensures
        'a' <= c <= 'z' ==> 'A' <= upper(c) <= 'Z' && upper(c) as u32 - 'A' as u32 == c as u32
            - 'a' as u32,
        !('a' <= c <= 'z') ==> upper(c) == c,
        'A' <= c <= 'Z' ==> 'a' <= lower(c) <= 'z' && lower(c) as u32 - 'a' as u32 == c as u32
            - 'A' as u32,
        !('A' <= c <= 'Z') ==> lower(c) == c,
        'a' <= c <= 'z' ==> lower(upper(c)) == c,
        'A' <= c <= 'Z' ==> upper(lower(c)) == c,
{
    if 'a' <= c && c <= 'z' {
        let u = (c as u32 - 32) as u32;
        vstd::utf8::char_u32_cast(upper(c), u);
        vstd::utf8::char_u32_cast(c, c as u32);
    }
    if 'A' <= c && c <= 'Z' {
        let u = (c as u32 + 32) as u32;
        vstd::utf8::char_u32_cast(lower(c), u);
        vstd::utf8::char_u32_cast(c, c as u32);
    }
}

/// A text stands in another exactly if the other is that text with something before
/// it and something behind it, or nothing.
pub proof fn a_text_is_in_what_surrounds_it(before: Seq<char>, needle: Seq<char>, after: Seq<char>)
    ensures
        has_substring(before + needle + after, needle),
{
    let all = before + needle + after;
    let n = before.len() as int;
    assert(all.subrange(n, n + needle.len()) == needle);
    assert(occurs_at(all, needle, n));
}

/// What stands in a text stands between its start and its end.
pub proof fn what_is_in_a_text_can_be_cut_out(hay: Seq<char>, needle: Seq<char>) -> (parts: (
    Seq<char>,
    Seq<char>,
))
    requires
        has_substring(hay, needle),
    ensures
        hay == parts.0 + needle + parts.1,
{
    let i = choose|i: int| #[trigger] occurs_at(hay, needle, i);
    let before = hay.take(i);
    let after = hay.skip(i + needle.len());
    assert(hay.subrange(i, i + needle.len()) == needle);
    assert(hay == before + needle + after);
    (before, after)
}

/// The bytes of a text are those of its UTF-8 form: one for each character of ASCII,
/// and none for the empty text.
pub proof fn bytes_are_counted_in_utf8(s: Seq<char>)
    ensures
        byte_count(s) == vstd::utf8::encode_utf8(s).len(),
        byte_count(s) >= s.len(),
        vstd::utf8::is_ascii_chars(s) ==> byte_count(s) == s.len(),
    decreases s.len(),
{
    if s.len() > 0 {
        bytes_are_counted_in_utf8(s.drop_first());
        vstd::utf8::char_is_scalar(s[0]);
    }
    if vstd::utf8::is_ascii_chars(s) {
        vstd::utf8::is_ascii_chars_encode_utf8(s);
    }
}

} // verus!
