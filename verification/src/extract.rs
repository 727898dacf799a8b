//! The section extractor: the lines of a log between the first line that
//! holds a start marker and the line that ends the section.

use crate::search::{first_true, lemma_first_true, lemma_first_true_is};
use crate::text::{
    chars_of, contains_chars, contains_text, same_chars, text_of, trim_chars, trimmed,
};
use vstd::prelude::*;

verus! {

/// One line of a log as it came from the reader: its text without the line
/// ending, or the fact that the line could not be read or decoded.
#[derive(Debug)]
pub enum SourceLine {
    Text(String),
    Unreadable,
}

impl View for SourceLine {
    type V = Option<Seq<char>>;

    open spec fn view(&self) -> Option<Seq<char>> {
        match self {
            SourceLine::Text(t) => Some(t@),
            SourceLine::Unreadable => None,
        }
    }
}

/// Why a section could not be extracted.
#[derive(Debug)]
pub enum ExtractionError {
    /// The line at this position, counted from 0, could not be read.
    IoError { line: usize },
    /// The start marker was never found, or the section that it opens never
    /// ended. Carries the start marker that was sought.
    PatternNotFound { marker: String },
}

/// What an `ExtractionError` says, over plain values.
pub enum ExtractionFailure {
    Io { line: int },
    PatternNotFound { marker: Seq<char> },
}

impl View for ExtractionError {
    type V = ExtractionFailure;

    open spec fn view(&self) -> ExtractionFailure {
        match self {
            ExtractionError::IoError { line } => ExtractionFailure::Io { line: *line as int },
            ExtractionError::PatternNotFound { marker } => ExtractionFailure::PatternNotFound {
                marker: marker@,
            },
        }
    }
}

/// A log as a sequence of lines: the text of each, or `None` for a line that
/// could not be read.
pub open spec fn stream_lines(stream: Seq<SourceLine>) -> Seq<Option<Seq<char>>> {
    Seq::new(stream.len(), |i: int| stream[i]@)
}

/// The texts that a sequence of strings holds.
pub open spec fn texts(v: Seq<String>) -> Seq<Seq<char>> {
    Seq::new(v.len(), |i: int| v[i]@)
}

/// Whether `line`, trimmed, holds the start marker.
pub open spec fn is_marker_line(line: Option<Seq<char>>, start: Seq<char>) -> bool {
    line matches Some(t) && contains_text(trimmed(t), start)
}

/// Whether `line`, trimmed, is the end marker. With the empty end marker
/// these are the blank lines.
pub open spec fn is_end_line(line: Option<Seq<char>>, end: Seq<char>) -> bool {
    line matches Some(t) && trimmed(t) == end
}

/// For each line, whether it is a marker line.
pub open spec fn marker_flags(lines: Seq<Option<Seq<char>>>, start: Seq<char>) -> Seq<bool> {
    Seq::new(lines.len(), |i: int| is_marker_line(lines[i], start))
}

/// For each line, whether it is an end line.
pub open spec fn end_flags(lines: Seq<Option<Seq<char>>>, end: Seq<char>) -> Seq<bool> {
    Seq::new(lines.len(), |i: int| is_end_line(lines[i], end))
}

/// For each line, whether it could not be read.
pub open spec fn unreadable_flags(lines: Seq<Option<Seq<char>>>) -> Seq<bool> {
    Seq::new(lines.len(), |i: int| lines[i] is None)
}

/// The position of the first line that holds the start marker, or the number
/// of lines where none does.
pub open spec fn marker_index(lines: Seq<Option<Seq<char>>>, start: Seq<char>) -> int {
    first_true(marker_flags(lines, start), 0)
}

/// The position of the first end line after the first marker line, or the
/// number of lines where there is none.
pub open spec fn end_index(lines: Seq<Option<Seq<char>>>, start: Seq<char>, end: Seq<char>) -> int {
    first_true(end_flags(lines, end), marker_index(lines, start) + 1)
}

/// The position of the first line that could not be read, or the number of
/// lines where all could.
pub open spec fn first_unreadable(lines: Seq<Option<Seq<char>>>) -> int {
    first_true(unreadable_flags(lines), 0)
}

/// The lines from `from` up to `to`, each trimmed, in their order.
pub open spec fn trimmed_lines(lines: Seq<Option<Seq<char>>>, from: int, to: int) -> Seq<
    Seq<char>,
> {
    Seq::new((to - from) as nat, |i: int| trimmed(lines[from + i]->0))
}

/// What extraction gives on `lines`. The scan goes down the lines: it ends
/// well at the first end line after the first marker line, with the trimmed
/// lines strictly between the two; it fails at the first unreadable line
/// that comes before that; and it fails at the end of the log where the marker
/// or the end line is missing.
pub open spec fn section_between(
    lines: Seq<Option<Seq<char>>>,
    start: Seq<char>,
    end: Seq<char>,
) -> Result<Seq<Seq<char>>, ExtractionFailure> {
    let s = marker_index(lines, start);
    let e = end_index(lines, start, end);
    let u = first_unreadable(lines);
    if e < lines.len() && e < u {
        Ok(trimmed_lines(lines, s + 1, e))
    } else if u < lines.len() {
        Err(ExtractionFailure::Io { line: u })
    } else {
        Err(ExtractionFailure::PatternNotFound { marker: start })
    }
}

/// The lines of `stream` strictly between the first line that holds `start`
/// and the first later line that is `end`, each trimmed, in their order. An
/// empty `end` closes the section at the first blank line.
pub fn text_between(stream: &Vec<SourceLine>, start: &str, end: &str) -> (r: Result<
    Vec<String>,
    ExtractionError,
>)
    ensures
        match r {
            Ok(v) => section_between(stream_lines(stream@), start@, end@) == Ok::<
                Seq<Seq<char>>,
                ExtractionFailure,
            >(texts(v@)),
            Err(e) => section_between(stream_lines(stream@), start@, end@) == Err::<
                Seq<Seq<char>>,
                ExtractionFailure,
            >(e@),
        },
{
    let ghost lines = stream_lines(stream@);
    let start_chars = chars_of(start);
    let end_chars = chars_of(end);
    let n = stream.len();
    let mut found = false;
    let mut out: Vec<String> = Vec::new();
    let ghost mut s: int = n as int;
    let mut i: usize = 0;
    while i < n
        invariant
            i <= n == stream.len(),
            lines == stream_lines(stream@),
            start_chars@ == start@,
            end_chars@ == end@,
            forall|j: int| 0 <= j < i ==> !unreadable_flags(lines)[j],
            !found ==> s == n && out@.len() == 0 && forall|j: int|
                0 <= j < i ==> !marker_flags(lines, start@)[j],
            found ==> 0 <= s < i && marker_index(lines, start@) == s && texts(out@)
                == trimmed_lines(lines, s + 1, i as int) && forall|j: int|
                s < j < i ==> !end_flags(lines, end@)[j],
        decreases n - i,
    {
        match &stream[i] {
            SourceLine::Unreadable => {
                proof {
                    assert(lines[i as int] is None);
                    lemma_first_true_is(unreadable_flags(lines), 0, i as int);
                    lemma_indices(lines, start@, end@);
                    lemma_first_true(marker_flags(lines, start@), 0);
                    if found {
                        lemma_end_not_before(lines, start@, end@, i as int);
                    }
                }
                return Err(ExtractionError::IoError { line: i });
            },
            SourceLine::Text(t) => {
                assert(lines[i as int] == Some(t@));
                let line = trim_chars(&chars_of(t.as_str()));
                if found {
                    if same_chars(&line, &end_chars) {
                        proof {
                            lemma_first_true_is(end_flags(lines, end@), s + 1, i as int);
                            lemma_first_true(unreadable_flags(lines), 0);
                        }
                        return Ok(out);
                    } else {
                        let ghost before = out@;
                        out.push(text_of(&line));
                        assert forall|k: int| 0 <= k < out@.len() implies texts(out@)[k]
                            == trimmed_lines(lines, s + 1, i + 1)[k] by {
                            if k < before.len() {
                                assert(texts(before)[k] == trimmed_lines(lines, s + 1, i as int)[k]);
                            }
                        }
                        assert(texts(out@) =~= trimmed_lines(lines, s + 1, i + 1));
                    }
                } else if contains_chars(&line, &start_chars) {
                    found = true;
                    proof {
                        s = i as int;
                        lemma_first_true_is(marker_flags(lines, start@), 0, i as int);
                        assert(texts(out@) =~= trimmed_lines(lines, s + 1, i + 1));
                    }
                }
            },
        }
        i += 1;
    }
    proof {
        lemma_first_true_is(unreadable_flags(lines), 0, n as int);
        if found {
            lemma_first_true_is(end_flags(lines, end@), s + 1, n as int);
        } else {
            lemma_first_true_is(marker_flags(lines, start@), 0, n as int);
        }
    }
    Err(ExtractionError::PatternNotFound { marker: text_of(&start_chars) })
}

/// The first marker line lies within the log or at its end; the section's end
/// lies after the first marker line, or at the end of the log.
pub proof fn lemma_indices(lines: Seq<Option<Seq<char>>>, start: Seq<char>, end: Seq<char>)
    ensures
        0 <= marker_index(lines, start) <= lines.len(),
        0 <= first_unreadable(lines) <= lines.len(),
        end_index(lines, start, end) <= lines.len(),
        marker_index(lines, start) < end_index(lines, start, end) || end_index(lines, start, end)
            == lines.len(),
{
    lemma_first_true(marker_flags(lines, start), 0);
    lemma_first_true(unreadable_flags(lines), 0);
    if marker_index(lines, start) + 1 <= lines.len() {
        lemma_first_true(end_flags(lines, end), marker_index(lines, start) + 1);
    }
}

/// Where a line holds the start marker, an end line follows it (a blank line,
/// for the empty end marker), and every line before the section's end can be
/// read, extraction gives exactly the lines strictly between the first marker
/// line and the first end line after it, trimmed, in their order.
pub proof fn law_section_found(
    lines: Seq<Option<Seq<char>>>,
    start: Seq<char>,
    end: Seq<char>,
    s: int,
    e: int,
)
    requires
        0 <= s < e < lines.len(),
        is_marker_line(lines[s], start),
        is_end_line(lines[e], end),
        forall|j: int| 0 <= j < end_index(lines, start, end) ==> lines[j] is Some,
    ensures
        ({
            let s0 = marker_index(lines, start);
            let e0 = end_index(lines, start, end);
            &&& 0 <= s0 <= s
            &&& s0 < e0 <= e
            &&& is_marker_line(lines[s0], start)
            &&& forall|j: int| 0 <= j < s0 ==> !is_marker_line(lines[j], start)
            &&& is_end_line(lines[e0], end)
            &&& forall|j: int| s0 < j < e0 ==> !is_end_line(lines[j], end)
            &&& section_between(lines, start, end) == Ok::<Seq<Seq<char>>, ExtractionFailure>(
                trimmed_lines(lines, s0 + 1, e0),
            )
            &&& trimmed_lines(lines, s0 + 1, e0).len() == e0 - s0 - 1
            &&& forall|k: int|
                0 <= k < e0 - s0 - 1 ==> #[trigger] trimmed_lines(lines, s0 + 1, e0)[k] == trimmed(
                    lines[s0 + 1 + k]->0,
                )
        }),
{
    let s0 = marker_index(lines, start);
    let e0 = end_index(lines, start, end);
    lemma_first_true(marker_flags(lines, start), 0);
    assert(marker_flags(lines, start)[s]);
    lemma_first_true(end_flags(lines, end), s0 + 1);
    assert(end_flags(lines, end)[e]);
    lemma_first_true(unreadable_flags(lines), 0);
    let u = first_unreadable(lines);
    if u < lines.len() {
        assert(unreadable_flags(lines)[u]);
    }
    assert forall|j: int| 0 <= j < s0 implies !is_marker_line(lines[j], start) by {
        assert(!marker_flags(lines, start)[j]);
    }
    assert forall|j: int| s0 < j < e0 implies !is_end_line(lines[j], end) by {
        assert(!end_flags(lines, end)[j]);
    }
    assert(marker_flags(lines, start)[s0]);
    assert(end_flags(lines, end)[e0]);
}

/// Where every line can be read and none holds the start marker, extraction
/// fails with `PatternNotFound`, which carries the marker.
pub proof fn law_marker_absent(lines: Seq<Option<Seq<char>>>, start: Seq<char>, end: Seq<char>)
    requires
        forall|j: int| 0 <= j < lines.len() ==> lines[j] is Some,
        forall|j: int| 0 <= j < lines.len() ==> !is_marker_line(lines[j], start),
    ensures
        section_between(lines, start, end) == Err::<Seq<Seq<char>>, ExtractionFailure>(
            ExtractionFailure::PatternNotFound { marker: start },
        ),
{
    lemma_first_true_is(marker_flags(lines, start), 0, lines.len() as int);
    lemma_first_true_is(unreadable_flags(lines), 0, lines.len() as int);
    lemma_indices(lines, start, end);
}

/// Where every line can be read and a line holds the start marker, but no
/// end line (no blank line, for the empty end marker) follows the first
/// marker line, extraction fails with `PatternNotFound`.
pub proof fn law_section_unended(
    lines: Seq<Option<Seq<char>>>,
    start: Seq<char>,
    end: Seq<char>,
    s: int,
)
    requires
        forall|j: int| 0 <= j < lines.len() ==> lines[j] is Some,
        0 <= s < lines.len(),
        is_marker_line(lines[s], start),
        forall|j: int|
            marker_index(lines, start) < j < lines.len() ==> !is_end_line(lines[j], end),
    ensures
        section_between(lines, start, end) == Err::<Seq<Seq<char>>, ExtractionFailure>(
            ExtractionFailure::PatternNotFound { marker: start },
        ),
{
    lemma_first_true_is(unreadable_flags(lines), 0, lines.len() as int);
    lemma_indices(lines, start, end);
    let m = marker_index(lines, start);
    if m + 1 <= lines.len() {
        lemma_first_true_is(end_flags(lines, end), m + 1, lines.len() as int);
    }
}

/// Where the first marker line is followed at once by an end line, and the
/// lines up to it can be read, extraction gives the empty section.
pub proof fn law_empty_section(
    lines: Seq<Option<Seq<char>>>,
    start: Seq<char>,
    end: Seq<char>,
    s: int,
)
    requires
        0 <= s,
        s + 1 < lines.len(),
        forall|j: int| 0 <= j <= s + 1 ==> lines[j] is Some,
        forall|j: int| 0 <= j < s ==> !is_marker_line(lines[j], start),
        is_marker_line(lines[s], start),
        is_end_line(lines[s + 1], end),
    ensures
        section_between(lines, start, end) == Ok::<Seq<Seq<char>>, ExtractionFailure>(
            Seq::empty(),
        ),
{
    lemma_first_true_is(marker_flags(lines, start), 0, s);
    lemma_first_true_is(end_flags(lines, end), s + 1, s + 1);
    lemma_first_true(unreadable_flags(lines), 0);
    let u = first_unreadable(lines);
    if u < lines.len() {
        assert(unreadable_flags(lines)[u]);
    }
    assert(trimmed_lines(lines, s + 1, s + 1) =~= Seq::<Seq<char>>::empty());
}

/// Where no line after the first marker line and before `i` is an end line,
/// the section does not end before `i`.
proof fn lemma_end_not_before(
    lines: Seq<Option<Seq<char>>>,
    start: Seq<char>,
    end: Seq<char>,
    i: int,
)
    requires
        0 <= marker_index(lines, start) < i <= lines.len(),
        forall|j: int| marker_index(lines, start) < j < i ==> !end_flags(lines, end)[j],
    ensures
        end_index(lines, start, end) >= i,
{
    lemma_first_true(end_flags(lines, end), marker_index(lines, start) + 1);
}

} // verus!
