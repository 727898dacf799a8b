use nightjar::extract::{text_between, ExtractionError, SourceLine};

fn stream(lines: &[&str]) -> Vec<SourceLine> {
    lines.iter().map(|l| SourceLine::Text(l.to_string())).collect()
}

fn with_unreadable(lines: &[Option<&str>]) -> Vec<SourceLine> {
    lines
        .iter()
        .map(|l| match l {
            Some(t) => SourceLine::Text(t.to_string()),
            None => SourceLine::Unreadable,
        })
        .collect()
}

fn not_found(r: Result<Vec<String>, ExtractionError>) -> String {
    match r {
        Err(ExtractionError::PatternNotFound { marker }) => marker,
        other => panic!("expected PatternNotFound, got {:?}", other),
    }
}

fn unreadable_at(r: Result<Vec<String>, ExtractionError>) -> usize {
    match r {
        Err(ExtractionError::IoError { line }) => line,
        other => panic!("expected IoError, got {:?}", other),
    }
}

#[test]
fn section_is_the_lines_between_marker_and_blank_line() {
    let s = stream(&[
        "Randomizer log",
        "",
        "-- Hints for key items:",
        "Iron Key:Ashina Castle",
        "  Gourd Seed : Hirata Estate  ",
        "",
        "Mortal Blade:Senpou Temple",
    ]);
    let got = text_between(&s, "-- Hints for key items:", "").unwrap();
    assert_eq!(got, vec!["Iron Key:Ashina Castle", "Gourd Seed : Hirata Estate"]);
}

#[test]
fn marker_may_stand_inside_a_longer_line() {
    let s = stream(&["   >> -- Hints for key items: (3)  ", "a:b", " \t ", "c:d"]);
    let got = text_between(&s, "-- Hints for key items:", "").unwrap();
    assert_eq!(got, vec!["a:b"]);
}

#[test]
fn first_marker_line_opens_the_section() {
    let s = stream(&["start", "one", "start", "two", "", "start", "three", ""]);
    let got = text_between(&s, "start", "").unwrap();
    assert_eq!(got, vec!["one", "start", "two"]);
}

#[test]
fn blank_lines_before_the_marker_do_not_end_anything() {
    let s = stream(&["", "", "start", "x", ""]);
    assert_eq!(text_between(&s, "start", "").unwrap(), vec!["x"]);
}

#[test]
fn empty_section_when_blank_line_follows_at_once() {
    let s = stream(&["-- Hints for quest items:", "", "Iron Key:somewhere"]);
    let got = text_between(&s, "-- Hints for quest items:", "").unwrap();
    assert!(got.is_empty());
}

#[test]
fn explicit_end_marker_is_matched_whole() {
    let s = stream(&["BEGIN", "a", "", "the END is near", "  END  ", "b"]);
    let got = text_between(&s, "BEGIN", "END").unwrap();
    assert_eq!(got, vec!["a", "", "the END is near"]);
}

#[test]
fn marker_never_found_is_pattern_not_found() {
    let s = stream(&["one", "two", ""]);
    assert_eq!(not_found(text_between(&s, "-- Hints for key items:", "")), "-- Hints for key items:");
}

#[test]
fn empty_stream_is_pattern_not_found() {
    let s = stream(&[]);
    assert_eq!(not_found(text_between(&s, "x", "")), "x");
}

#[test]
fn section_never_ended_is_pattern_not_found() {
    let s = stream(&["-- Hints for key items:", "Iron Key:Ashina", "Gourd Seed:Hirata"]);
    assert_eq!(not_found(text_between(&s, "-- Hints for key items:", "")), "-- Hints for key items:");
}

#[test]
fn marker_on_last_line_is_pattern_not_found() {
    let s = stream(&["", "start"]);
    assert_eq!(not_found(text_between(&s, "start", "")), "start");
}

#[test]
fn marker_is_case_sensitive() {
    let s = stream(&["START", "a", ""]);
    assert_eq!(not_found(text_between(&s, "start", "")), "start");
}

#[test]
fn unreadable_line_before_the_marker_is_io_error() {
    let s = with_unreadable(&[Some("x"), None, Some("start"), Some("a"), Some("")]);
    assert_eq!(unreadable_at(text_between(&s, "start", "")), 1);
}

#[test]
fn unreadable_line_inside_the_section_is_io_error() {
    let s = with_unreadable(&[Some("start"), Some("a"), None, Some("")]);
    assert_eq!(unreadable_at(text_between(&s, "start", "")), 2);
}

#[test]
fn unreadable_line_after_the_section_is_not_reached() {
    let s = with_unreadable(&[Some("start"), Some("a"), Some(""), None]);
    assert_eq!(text_between(&s, "start", "").unwrap(), vec!["a"]);
}

#[test]
fn unreadable_line_without_marker_is_io_error() {
    let s = with_unreadable(&[Some("a"), Some("b"), None, None]);
    assert_eq!(unreadable_at(text_between(&s, "start", "")), 2);
}

#[test]
fn empty_start_marker_opens_at_the_first_line() {
    let s = stream(&["head", "a", "b", "", "c"]);
    assert_eq!(text_between(&s, "", "").unwrap(), vec!["a", "b"]);
}

#[test]
fn extraction_reads_from_the_start_each_time() {
    let s = stream(&["k", "1", "", "q", "2", ""]);
    assert_eq!(text_between(&s, "q", "").unwrap(), vec!["2"]);
    assert_eq!(text_between(&s, "k", "").unwrap(), vec!["1"]);
    assert_eq!(text_between(&s, "q", "").unwrap(), vec!["2"]);
}
