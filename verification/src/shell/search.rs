//! What a session wrote, and the search for a text in it.

use vstd::prelude::*;

use crate::text;

verus! {

broadcast use vstd::string::group_string_axioms;

/// What a session wrote.
#[derive(Debug, Clone, PartialEq, Eq)]
pub struct ShellOutput {
    pub stdout: String,
    pub stderr: String,
}

impl Default for ShellOutput {
    fn default() -> (r: ShellOutput)
        ensures
            r.stdout@ == Seq::<char>::empty(),
            r.stderr@ == Seq::<char>::empty(),
    {
        ShellOutput { stdout: String::new(), stderr: String::new() }
    }
}

impl ShellOutput {
    /// Whether it wrote nothing.
    pub fn is_empty(&self) -> (r: bool)
        ensures
            r == (self.stdout@.len() == 0 && self.stderr@.len() == 0),
    {
        self.stdout.as_str().is_empty() && self.stderr.as_str().is_empty()
    }
}

/// What a search in the output is woken by.
#[derive(Debug, Clone, Copy, PartialEq, Eq, Structural)]
pub enum SearchEvent {
    /// It begins, or output came.
    Output,
    /// The same, behind the deadline.
    OutputTooLate,
    /// The session was closed.
    Closed,
    /// The deadline has passed.
    TimedOut,
}

/// What is searched for, and what was written meanwhile.
pub struct SearchModel {
    pub pattern: Seq<char>,
    pub stdout: Seq<char>,
    pub stderr: Seq<char>,
}

/// A search for a text in the output of a session.
#[derive(Debug)]
pub struct OutputSearch {
    pattern: String,
    stdout: String,
    stderr: String,
}

impl View for OutputSearch {
    type V = SearchModel;

    closed spec fn view(&self) -> SearchModel {
        SearchModel { pattern: self.pattern@, stdout: self.stdout@, stderr: self.stderr@ }
    }
}

/// Whether the text that is searched for was written.
pub open spec fn found(s: SearchModel) -> bool {
    text::has_substring(s.stdout, s.pattern) || text::has_substring(s.stderr, s.pattern)
}

impl OutputSearch {
    /// A search for `pattern`.
    pub fn new(pattern: &str) -> (r: OutputSearch)
        ensures
            r@ == (SearchModel {
                pattern: pattern@,
                stdout: Seq::empty(),
                stderr: Seq::empty(),
            }),
    {
        OutputSearch { pattern: pattern.to_owned(), stdout: String::new(), stderr: String::new() }
    }

    /// What was written during the search.
    pub fn finish(self) -> (r: ShellOutput)
        ensures
            r.stdout@ == self@.stdout,
            r.stderr@ == self@.stderr,
    {
        ShellOutput { stdout: self.stdout, stderr: self.stderr }
    }

    /// Adds what was written to the two streams.
    pub fn absorb(&mut self, stdout: &str, stderr: &str)
        ensures
            final(self)@ == (SearchModel {
                pattern: old(self)@.pattern,
                stdout: old(self)@.stdout + stdout@,
                stderr: old(self)@.stderr + stderr@,
            }),
    {
        self.stdout.append(stdout);
        self.stderr.append(stderr);
    }

    /// Whether the text was written.
    pub fn is_found(&self) -> (r: bool)
        ensures
            r == found(self@),
    {
        text::contains(self.stdout.as_str(), self.pattern.as_str()) || text::contains(
            self.stderr.as_str(),
            self.pattern.as_str(),
        )
    }
}

/// A search is over when its text stands in what one of the two streams wrote, in
/// whatever pieces it came; what stands half in the one and half in the other does not
/// count.
pub proof fn a_search_finds_what_was_written(
    pattern: Seq<char>,
    before: Seq<char>,
    after: Seq<char>,
    other: Seq<char>,
)
    ensures
        found(SearchModel { pattern, stdout: before + pattern + after, stderr: other }),
        found(SearchModel { pattern, stdout: other, stderr: before + pattern + after }),
{
    text::a_text_is_in_what_surrounds_it(before, pattern, after);
}

/// A text that was found can be cut out of what one of the two streams wrote; the
/// result says what stands before it and behind it, and whether it is the error stream.
pub proof fn what_was_found_was_written(s: SearchModel) -> (at: (Seq<char>, Seq<char>, bool))
    requires
        found(s),
    ensures
        (if at.2 {
            s.stderr
        } else {
            s.stdout
        }) == at.0 + s.pattern + at.1,
{
    if text::has_substring(s.stdout, s.pattern) {
        let parts = text::what_is_in_a_text_can_be_cut_out(s.stdout, s.pattern);
        (parts.0, parts.1, false)
    } else {
        let parts = text::what_is_in_a_text_can_be_cut_out(s.stderr, s.pattern);
        (parts.0, parts.1, true)
    }
}

} // verus!
