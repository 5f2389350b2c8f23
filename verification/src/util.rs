//! The name of a shell from the path of its program.

use vstd::prelude::*;

use crate::error::ShellError;
use crate::text;

pub use crate::decode::{decode_bytes, StreamDecoder};

verus! {

broadcast use vstd::string::group_string_axioms;

/// Whether `c` separates the parts of a path.
pub open spec fn is_separator(c: char) -> bool {
    c == '/' || c == '\\'
}

/// The part of a path behind its last separator.
pub open spec fn base_name(path: Seq<char>) -> Seq<char>
    decreases path.len(),
{
    if path.len() == 0 || is_separator(path.last()) {
        Seq::empty()
    } else {
        base_name(path.drop_last()).push(path.last())
    }
}

/// `s` with its ASCII letters in lower case.
pub open spec fn lowered(s: Seq<char>) -> Seq<char> {
    Seq::new(s.len(), |i: int| text::lower(s[i]))
}

/// A program's name without the suffix of an executable file.
pub open spec fn without_exe(name: Seq<char>) -> Seq<char> {
    if name.len() > 4 && name.skip(name.len() - 4) == ".exe"@ {
        name.take(name.len() - 4)
    } else {
        name
    }
}

/// The name of the shell at `path`: the program's name in lower case, without
/// the suffix of an executable file.
pub open spec fn shell_name(path: Seq<char>) -> Seq<char> {
    without_exe(lowered(base_name(path)))
}

/// The name of the shell at `path`; a path that names no program is refused.
pub fn normalize_shell_name(path: &str) -> (r: Result<String, ShellError>)
    ensures
        r is Err <==> shell_name(path@).len() == 0,
        r matches Ok(name) ==> name@ == shell_name(path@),
        r matches Err(e) ==> (e matches ShellError::InvalidShellPath(p) && p@ == path@),
{
    let v: Vec<char> = text::chars_of(path);
    let n: usize = v.len();
    let mut start: usize = n;
    assert(v@.take(n as int) == v@);
    assert(v@.subrange(n as int, n as int) == Seq::<char>::empty());
    assert(base_name(v@) + Seq::<char>::empty() == base_name(v@));
    while start > 0 && v[start - 1] != '/' && v[start - 1] != '\\'
        invariant
            n == v@.len(),
            start <= n,
            base_name(v@) == base_name(v@.take(start as int)) + v@.subrange(start as int, n as int),
        decreases start,
    {
        proof {
            let s = v@.take(start as int);
            let c = v@[start - 1];
            assert(s.drop_last() == v@.take(start - 1));
            assert(s.last() == c);
            let front = base_name(v@.take(start - 1));
            assert(front.push(c) + v@.subrange(start as int, n as int) == front + v@.subrange(
                start - 1,
                n as int,
            ));
        }
        start = start - 1;
    }
    proof {
        let s = v@.take(start as int);
        if start > 0 {
            assert(s.last() == v@[start - 1]);
        }
        assert(base_name(s) == Seq::<char>::empty());
        assert(base_name(v@) == v@.subrange(start as int, n as int));
    }
    let ghost base = v@.subrange(start as int, n as int);
    let mut name: Vec<char> = Vec::new();
    let mut i: usize = start;
    while i < n
        invariant
            n == v@.len(),
            start <= i <= n,
            base == v@.subrange(start as int, n as int),
            name@ == lowered(base).take(i - start),
        decreases n - i,
    {
        proof {
            assert(lowered(base)[i - start] == text::lower(v@[i as int]));
        }
        name.push(text::to_lower(v[i]));
        i = i + 1;
    }
    assert(name@ == lowered(base));
    let len: usize = name.len();
    let mut end: usize = len;
    if len > 4 {
        let suffix: String = text::string_from(&name, len - 4, len);
        assert(name@.subrange(len - 4, len as int) == name@.skip(len - 4));
        if text::same(suffix.as_str(), ".exe") {
            end = len - 4;
        }
    }
    assert(name@.subrange(0, end as int) == without_exe(name@));
    if end == 0 {
        return Err(ShellError::InvalidShellPath(path.to_owned()));
    }
    Ok(text::string_from(&name, 0, end))
}

/// The directories before it do not matter for the name of a program.
pub proof fn directories_do_not_matter(dir: Seq<char>, separator: char, name: Seq<char>)
    requires
        is_separator(separator),
        forall|i: int| 0 <= i < name.len() ==> !is_separator(#[trigger] name[i]),
    ensures
        shell_name(dir.push(separator) + name) == shell_name(name),
{
    lemma_base_name(dir.push(separator), name);
    lemma_base_name(Seq::empty(), name);
    assert(Seq::<char>::empty() + name == name);
}

/// What stands behind the last separator is the name.
proof fn lemma_base_name(front: Seq<char>, name: Seq<char>)
    requires
        front.len() == 0 || is_separator(front.last()),
        forall|i: int| 0 <= i < name.len() ==> !is_separator(#[trigger] name[i]),
    ensures
        base_name(front + name) == name,
    decreases name.len(),
{
    let path = front + name;
    if name.len() == 0 {
        assert(path == front);
    } else {
        let rest = name.drop_last();
        assert forall|i: int| 0 <= i < rest.len() implies !is_separator(#[trigger] rest[i]) by {
            assert(rest[i] == name[i]);
        }
        lemma_base_name(front, rest);
        assert(path.drop_last() == front + rest);
        assert(path.last() == name.last());
        assert(name.last() == name[name.len() - 1]);
        assert(rest.push(name.last()) == name);
    }
}

/// The program's name in a path is all behind its last separator, a slash or a
/// backslash, or all of the path if there is none. The result is where it begins.
pub proof fn a_path_ends_with_its_program(path: Seq<char>) -> (from: int)
    ensures
        0 <= from <= path.len(),
        base_name(path) == path.skip(from),
        from > 0 ==> path[from - 1] == '/' || path[from - 1] == '\\',
        forall|i: int| from <= i < path.len() ==> path[i] != '/' && path[i] != '\\',
    decreases path.len(),
{
    if path.len() == 0 || is_separator(path.last()) {
        assert(path.skip(path.len() as int) == Seq::<char>::empty());
        path.len() as int
    } else {
        let before = path.drop_last();
        let from = a_path_ends_with_its_program(before);
        assert(before.skip(from).push(path.last()) == path.skip(from));
        assert forall|i: int| from <= i < path.len() implies path[i] != '/' && path[i] != '\\' by {
            if i < path.len() - 1 {
                assert(path[i] == before[i]);
            }
        }
        from
    }
}

/// The name of a shell is the program's name, letter by letter in lower case, and
/// nothing else is changed; only `.exe` at the end, in upper or lower case, is left
/// out, unless it is all there is.
pub proof fn a_shell_is_named_after_its_program(path: Seq<char>)
    ensures
        ({
            let base = base_name(path);
            let name = shell_name(path);
            let n = base.len() as int;
            let exe = n > 4 && base[n - 4] == '.' && (base[n - 3] == 'e' || base[n - 3] == 'E') && (
            base[n - 2] == 'x' || base[n - 2] == 'X') && (base[n - 1] == 'e' || base[n - 1]
                == 'E');
            &&& name.len() == (if exe {
                n - 4
            } else {
                n
            })
            &&& forall|i: int|
                0 <= i < name.len() ==> if 'A' <= base[i] <= 'Z' {
                    #[trigger] name[i] as u32 == base[i] as u32 + 32
                } else {
                    name[i] == base[i]
                }
        }),
{
    let base = base_name(path);
    let low = lowered(base);
    let n = base.len() as int;
    reveal_strlit(".exe");
    assert(".exe"@.len() == 4);
    if n > 4 {
        let end = low.skip(n - 4);
        text::letters_have_two_cases(base[n - 4]);
        text::letters_have_two_cases(base[n - 3]);
        text::letters_have_two_cases(base[n - 2]);
        text::letters_have_two_cases(base[n - 1]);
        assert(end[0] == text::lower(base[n - 4]));
        assert(end[1] == text::lower(base[n - 3]));
        assert(end[2] == text::lower(base[n - 2]));
        assert(end[3] == text::lower(base[n - 1]));
        assert(text::lower('E') == 'e') by {
            text::letters_have_two_cases('E');
            vstd::utf8::char_u32_cast('e', 'e' as u32);
            vstd::utf8::char_u32_cast(text::lower('E'), 'e' as u32);
        }
        assert(text::lower('X') == 'x') by {
            text::letters_have_two_cases('X');
            vstd::utf8::char_u32_cast('x', 'x' as u32);
            vstd::utf8::char_u32_cast(text::lower('X'), 'x' as u32);
        }
        lemma_lower_is(base[n - 3], 'e', 'E');
        lemma_lower_is(base[n - 2], 'x', 'X');
        lemma_lower_is(base[n - 1], 'e', 'E');
        if end == ".exe"@ {
            assert(end[0] == '.' && end[1] == 'e' && end[2] == 'x' && end[3] == 'e');
        }
        if end[0] == '.' && end[1] == 'e' && end[2] == 'x' && end[3] == 'e' {
            assert(end == ".exe"@);
        }
    }
    let name = shell_name(path);
    assert forall|i: int| 0 <= i < name.len() implies if 'A' <= base[i] <= 'Z' {
        #[trigger] name[i] as u32 == base[i] as u32 + 32
    } else {
        name[i] == base[i]
    } by {
        assert(name[i] == low[i]);
        text::letters_have_two_cases(base[i]);
    }
}

/// A character whose lower-case form is a small letter is that letter or its capital.
proof fn lemma_lower_is(c: char, small: char, capital: char)
    requires
        'a' <= small <= 'z',
        'A' <= capital <= 'Z',
        text::lower(capital) == small,
    ensures
        text::lower(c) == small <==> c == small || c == capital,
        text::lower('.') == '.',
        text::lower(c) == '.' <==> c == '.',
{
    text::letters_have_two_cases(c);
    text::letters_have_two_cases(capital);
    text::letters_have_two_cases(small);
    vstd::utf8::char_u32_cast(c, c as u32);
    vstd::utf8::char_u32_cast(capital, capital as u32);
}

} // verus!
