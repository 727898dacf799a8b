//! The strict scan of one hint section: pairs of item and location as the
//! lines hold them, with a report of every line that does not fit.

use crate::extract::{stream_lines, SourceLine};
use crate::search::{first_true, lemma_first_true, lemma_first_true_is};
use crate::text::{
    append_chars, chars_of, contains_chars, contains_text, decimal, decimal_of, delimiter_index,
    field_after, field_before, find_delimiter, slice_of, string_of, trim_bounds, trimmed,
};
use vstd::prelude::*;
use vstd::string::StringExecFns;

verus! {

/// What the strict scan found wrong. Lines are counted from 0.
#[derive(Debug, Clone, Copy, PartialEq, Eq, Structural)]
pub enum HintIssue {
    /// The line could not be read.
    Unreadable { line: usize },
    /// The line stands in the section and has no delimiter.
    UnexpectedFormat { line: usize },
    /// The section was opened and the log ended before a blank line closed
    /// it. Carries the position of the log's last line.
    SectionNotEnded { last_line: usize },
    /// No section was read: the pattern is missing, or its section did not
    /// end.
    PatternNotFound,
}

/// The outcome of the strict scan: the pairs of the section, where one was
/// read to its end, and what was found wrong on the way.
#[derive(Debug)]
pub struct Hints {
    pub values: Option<Vec<(String, String)>>,
    pub errors: Vec<HintIssue>,
}

/// The texts of a list of pairs.
pub open spec fn pair_texts(pairs: Seq<(String, String)>) -> Seq<(Seq<char>, Seq<char>)> {
    Seq::new(pairs.len(), |i: int| (pairs[i].0@, pairs[i].1@))
}

/// The pairs that `values` holds, as texts.
pub open spec fn value_texts(values: Option<Vec<(String, String)>>) -> Option<
    Seq<(Seq<char>, Seq<char>)>,
> {
    match values {
        Some(pairs) => Some(pair_texts(pairs@)),
        None => None,
    }
}

/// Whether `line` holds the pattern. The line is taken as it is, untrimmed.
pub open spec fn is_pattern_line(line: Option<Seq<char>>, pattern: Seq<char>) -> bool {
    line matches Some(t) && contains_text(t, pattern)
}

/// Whether `line` is empty or all white space.
pub open spec fn is_blank_line(line: Option<Seq<char>>) -> bool {
    line matches Some(t) && trimmed(t).len() == 0
}

/// For each line, whether it holds the pattern.
pub open spec fn pattern_flags(lines: Seq<Option<Seq<char>>>, pattern: Seq<char>) -> Seq<bool> {
    Seq::new(lines.len(), |i: int| is_pattern_line(lines[i], pattern))
}

/// For each line, whether it is blank.
pub open spec fn blank_flags(lines: Seq<Option<Seq<char>>>) -> Seq<bool> {
    Seq::new(lines.len(), |i: int| is_blank_line(lines[i]))
}

/// The position of the first line that holds the pattern, or the number of
/// lines.
pub open spec fn pattern_index(lines: Seq<Option<Seq<char>>>, pattern: Seq<char>) -> int {
    first_true(pattern_flags(lines, pattern), 0)
}

/// The position of the first blank line after the first pattern line, or
/// the number of lines.
pub open spec fn blank_index(lines: Seq<Option<Seq<char>>>, pattern: Seq<char>) -> int {
    first_true(blank_flags(lines), pattern_index(lines, pattern) + 1)
}

/// Whether `t` holds the delimiter `:`.
pub open spec fn has_delimiter(t: Seq<char>) -> bool {
    delimiter_index(t, ':') < t.len()
}

/// The pair that a line with a delimiter holds: its first field, and its
/// second field, which ends before a second delimiter.
pub open spec fn pair_of(t: Seq<char>) -> (Seq<char>, Seq<char>) {
    (field_before(t, ':'), field_before(field_after(t, ':'), ':'))
}

/// The pairs of the lines after position `opened` and before `upto`: one for
/// each line that can be read and has a delimiter, in their order.
pub open spec fn pairs_upto(lines: Seq<Option<Seq<char>>>, opened: int, upto: int) -> Seq<
    (Seq<char>, Seq<char>),
>
    decreases upto,
{
    if upto <= 0 || upto <= opened + 1 {
        Seq::empty()
    } else {
        let before = pairs_upto(lines, opened, upto - 1);
        match lines[upto - 1] {
            Some(t) => if has_delimiter(t) {
                before.push(pair_of(t))
            } else {
                before
            },
            None => before,
        }
    }
}

/// What is wrong with the lines before `upto`, in their order: every line
/// that cannot be read, and every line after position `opened` that can be
/// read and has no delimiter.
pub open spec fn issues_upto(lines: Seq<Option<Seq<char>>>, opened: int, upto: int) -> Seq<
    HintIssue,
>
    decreases upto,
{
    if upto <= 0 {
        Seq::empty()
    } else {
        let before = issues_upto(lines, opened, upto - 1);
        match lines[upto - 1] {
            Some(t) => if opened < upto - 1 && !has_delimiter(t) {
                before.push(HintIssue::UnexpectedFormat { line: (upto - 1) as usize })
            } else {
                before
            },
            None => before.push(HintIssue::Unreadable { line: (upto - 1) as usize }),
        }
    }
}

/// What the scan reports at the end of a log whose section was not read to
/// its end.
pub open spec fn closing_issues(lines: Seq<Option<Seq<char>>>, pattern: Seq<char>) -> Seq<
    HintIssue,
> {
    if pattern_index(lines, pattern) < lines.len() {
        seq![
            HintIssue::SectionNotEnded { last_line: (lines.len() - 1) as usize },
            HintIssue::PatternNotFound,
        ]
    } else {
        seq![HintIssue::PatternNotFound]
    }
}

/// The pairs that the scan gives: those of the section between the first
/// pattern line and the first blank line after it; `None` where there is no
/// such section.
pub open spec fn scanned_values(lines: Seq<Option<Seq<char>>>, pattern: Seq<char>) -> Option<
    Seq<(Seq<char>, Seq<char>)>,
> {
    if blank_index(lines, pattern) < lines.len() {
        Some(pairs_upto(lines, pattern_index(lines, pattern), blank_index(lines, pattern)))
    } else {
        None
    }
}

/// The issues that the scan reports, in their order: those of the lines
/// before the section's end, and at the end of the log the closing ones.
pub open spec fn scanned_issues(lines: Seq<Option<Seq<char>>>, pattern: Seq<char>) -> Seq<
    HintIssue,
> {
    let opened = pattern_index(lines, pattern);
    let end = blank_index(lines, pattern);
    if end < lines.len() {
        issues_upto(lines, opened, end)
    } else {
        issues_upto(lines, opened, end) + closing_issues(lines, pattern)
    }
}

/// What is shown for an issue.
pub open spec fn issue_text(issue: HintIssue) -> Seq<char> {
    match issue {
        HintIssue::Unreadable { line } => "Could not read line "@ + decimal(line as nat),
        HintIssue::UnexpectedFormat { line } => "Unexpected hint format encountered at line "@
            + decimal(line as nat),
        HintIssue::SectionNotEnded { last_line } => "Found the start, but never the end? Read "@
            + decimal(last_line as nat) + " lines"@,
        HintIssue::PatternNotFound => "Failed to encounter pattern"@,
    }
}

impl HintIssue {
    /// The text that is shown for this issue.
    pub fn message(&self) -> (r: String)
        ensures
            r@ == issue_text(*self),
    {
        match self {
            HintIssue::Unreadable { line } => {
                let mut out = String::from_str("Could not read line ");
                append_chars(&mut out, &decimal_of(*line));
                out
            },
            HintIssue::UnexpectedFormat { line } => {
                let mut out = String::from_str("Unexpected hint format encountered at line ");
                append_chars(&mut out, &decimal_of(*line));
                out
            },
            HintIssue::SectionNotEnded { last_line } => {
                let mut out = String::from_str("Found the start, but never the end? Read ");
                append_chars(&mut out, &decimal_of(*last_line));
                out.append(" lines");
                out
            },
            HintIssue::PatternNotFound => String::from_str("Failed to encounter pattern"),
        }
    }
}

impl Hints {
    /// No pairs and no issues.
    pub fn new() -> (r: Self)
        ensures
            r.values is None,
            r.errors@.len() == 0,
    {
        Hints { values: None, errors: Vec::new() }
    }
}

/// Splits a line that has a delimiter into its first two fields.
pub fn split_pair(chars: &Vec<char>) -> (r: (String, String))
    requires
        has_delimiter(chars@),
    ensures
        (r.0@, r.1@) == pair_of(chars@),
{
    let k = find_delimiter(chars, ':');
    let first = string_of(chars, 0, k);
    let rest = slice_of(chars, k + 1, chars.len());
    let k2 = find_delimiter(&rest, ':');
    let second = string_of(&rest, 0, k2);
    (first, second)
}

/// Scans `stream` for the section that the first line holding `pattern`
/// opens and the first blank line after it closes. Every line of the section
/// that has a delimiter gives a pair of its first two fields; the issues met
/// on the way are appended to `data.errors`. Where the section is read to its
/// end, its pairs replace `data.values`; else `data.values` stays.
pub fn hints_from_file(data: &mut Hints, stream: &Vec<SourceLine>, pattern: &str)
    ensures
        final(data).errors@ == old(data).errors@ + scanned_issues(stream_lines(stream@), pattern@),
        value_texts(final(data).values) == match scanned_values(stream_lines(stream@), pattern@) {
            Some(pairs) => Some(pairs),
            None => value_texts(old(data).values),
        },
{
    let ghost lines = stream_lines(stream@);
    let ghost opened = pattern_index(lines, pattern@);
    let pattern_chars = chars_of(pattern);
    let n = stream.len();
    let mut hints: Vec<(String, String)> = Vec::new();
    let mut found = false;
    let mut i: usize = 0;
    proof {
        lemma_first_true(pattern_flags(lines, pattern@), 0);
    }
    while i < n
        invariant
            i <= n == stream.len(),
            lines == stream_lines(stream@),
            opened == pattern_index(lines, pattern@),
            0 <= opened <= n,
            forall|j: int| 0 <= j < opened ==> !pattern_flags(lines, pattern@)[j],
            opened < n ==> pattern_flags(lines, pattern@)[opened],
            pattern_chars@ == pattern@,
            data.values == old(data).values,
            data.errors@ == old(data).errors@ + issues_upto(lines, opened, i as int),
            pair_texts(hints@) == pairs_upto(lines, opened, i as int),
            !found ==> i <= opened,
            found ==> opened < i && forall|j: int| opened < j < i ==> !blank_flags(lines)[j],
        decreases n - i,
    {
        let ghost errors_before = data.errors@;
        let ghost hints_before = hints@;
        match &stream[i] {
            SourceLine::Unreadable => {
                assert(lines[i as int] is None);
                data.errors.push(HintIssue::Unreadable { line: i });
            },
            SourceLine::Text(t) => {
                assert(lines[i as int] == Some(t@));
                let chars = chars_of(t.as_str());
                if found {
                    let (a, b) = trim_bounds(&chars);
                    if a == b {
                        proof {
                            assert(is_blank_line(lines[i as int]));
                            lemma_first_true_is(blank_flags(lines), opened + 1, i as int);
                        }
                        data.values = Some(hints);
                        return ;
                    }
                    assert(!is_blank_line(lines[i as int]));
                    if find_delimiter(&chars, ':') < chars.len() {
                        hints.push(split_pair(&chars));
                        assert(pair_texts(hints@) =~= pair_texts(hints_before).push(pair_of(t@)));
                    } else {
                        data.errors.push(HintIssue::UnexpectedFormat { line: i });
                    }
                } else if contains_chars(&chars, &pattern_chars) {
                    found = true;
                    assert(pattern_flags(lines, pattern@)[i as int]);
                }
            },
        }
        i += 1;
        assert(data.errors@ =~= old(data).errors@ + issues_upto(lines, opened, i as int));
    }
    proof {
        if found {
            lemma_first_true_is(blank_flags(lines), opened + 1, n as int);
        } else {
            assert(opened == n);
            assert(blank_index(lines, pattern@) == n);
        }
    }
    if found {
        data.errors.push(HintIssue::SectionNotEnded { last_line: n - 1 });
    }
    data.errors.push(HintIssue::PatternNotFound);
    assert(data.errors@ =~= old(data).errors@ + scanned_issues(lines, pattern@));
}

} // verus!
