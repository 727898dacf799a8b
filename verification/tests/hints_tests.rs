use nightjar::extract::SourceLine;
use nightjar::hints::{hints_from_file, split_pair, HintIssue, Hints};

fn stream(lines: &[&str]) -> Vec<SourceLine> {
    lines.iter().map(|l| SourceLine::Text(l.to_string())).collect()
}

fn pairs(values: &[(&str, &str)]) -> Option<Vec<(String, String)>> {
    Some(values.iter().map(|p| (p.0.to_string(), p.1.to_string())).collect())
}

fn scan(s: &Vec<SourceLine>, pattern: &str) -> Hints {
    let mut hints = Hints::new();
    hints_from_file(&mut hints, s, pattern);
    hints
}

#[test]
fn new_hints_hold_nothing() {
    let hints = Hints::new();
    assert_eq!(hints.values, None);
    assert!(hints.errors.is_empty());
}

#[test]
fn scan_reads_the_pairs_of_the_section() {
    let s = stream(&[
        "log",
        "-- Hints for key items:",
        "Iron Key:Ashina Castle",
        " Gourd Seed : Hirata Estate ",
        "  ",
        "Blade:Temple",
    ]);
    let hints = scan(&s, "-- Hints for key items:");
    assert_eq!(
        hints.values,
        pairs(&[("Iron Key", "Ashina Castle"), (" Gourd Seed ", " Hirata Estate ")])
    );
    assert!(hints.errors.is_empty());
}

#[test]
fn scan_takes_the_first_two_fields() {
    let s = stream(&["start", "a:b:c", "d::e", ":x", "y:", ""]);
    let hints = scan(&s, "start");
    assert_eq!(hints.values, pairs(&[("a", "b"), ("d", ""), ("", "x"), ("y", "")]));
    assert!(hints.errors.is_empty());
}

#[test]
fn scan_reports_lines_without_delimiter() {
    let s = stream(&["no delimiter before", "start", "a:b", "MysteryItem", "c:d", "", "later"]);
    let hints = scan(&s, "start");
    assert_eq!(hints.values, pairs(&[("a", "b"), ("c", "d")]));
    assert_eq!(hints.errors, vec![HintIssue::UnexpectedFormat { line: 3 }]);
}

#[test]
fn scan_reports_unreadable_lines_and_goes_on() {
    let s = vec![
        SourceLine::Unreadable,
        SourceLine::Text("start".to_string()),
        SourceLine::Unreadable,
        SourceLine::Text("a:b".to_string()),
        SourceLine::Text("".to_string()),
        SourceLine::Unreadable,
    ];
    let hints = scan(&s, "start");
    assert_eq!(hints.values, pairs(&[("a", "b")]));
    assert_eq!(
        hints.errors,
        vec![HintIssue::Unreadable { line: 0 }, HintIssue::Unreadable { line: 2 }]
    );
}

#[test]
fn scan_without_pattern() {
    let s = stream(&["a:b", "", "c"]);
    let hints = scan(&s, "start");
    assert_eq!(hints.values, None);
    assert_eq!(hints.errors, vec![HintIssue::PatternNotFound]);
    let hints = scan(&stream(&[]), "start");
    assert_eq!(hints.values, None);
    assert_eq!(hints.errors, vec![HintIssue::PatternNotFound]);
}

#[test]
fn scan_without_end() {
    let s = stream(&["start", "a:b", "oops"]);
    let hints = scan(&s, "start");
    assert_eq!(hints.values, None);
    assert_eq!(
        hints.errors,
        vec![
            HintIssue::UnexpectedFormat { line: 2 },
            HintIssue::SectionNotEnded { last_line: 2 },
            HintIssue::PatternNotFound,
        ]
    );
}

#[test]
fn scan_matches_the_pattern_on_the_untrimmed_line() {
    let s = stream(&["  start", "a:b", ""]);
    assert_eq!(scan(&s, " start").values, pairs(&[("a", "b")]));
    assert_eq!(scan(&s, "start ").values, None);
}

#[test]
fn scan_keeps_earlier_errors_and_values() {
    let mut hints = Hints {
        values: pairs(&[("old", "pair")]),
        errors: vec![HintIssue::Unreadable { line: 9 }],
    };
    hints_from_file(&mut hints, &stream(&["nothing"]), "start");
    assert_eq!(hints.values, pairs(&[("old", "pair")]));
    assert_eq!(
        hints.errors,
        vec![HintIssue::Unreadable { line: 9 }, HintIssue::PatternNotFound]
    );
    hints_from_file(&mut hints, &stream(&["start", "new:pair", ""]), "start");
    assert_eq!(hints.values, pairs(&[("new", "pair")]));
    assert_eq!(hints.errors.len(), 2);
}

#[test]
fn split_pair_examples() {
    let chars: Vec<char> = "Iron Key:Ashina: gate".chars().collect();
    assert_eq!(split_pair(&chars), ("Iron Key".to_string(), "Ashina".to_string()));
    let chars: Vec<char> = ":".chars().collect();
    assert_eq!(split_pair(&chars), (String::new(), String::new()));
}

#[test]
fn issue_messages() {
    assert_eq!(HintIssue::Unreadable { line: 4 }.message(), "Could not read line 4");
    assert_eq!(
        HintIssue::UnexpectedFormat { line: 17 }.message(),
        "Unexpected hint format encountered at line 17"
    );
    assert_eq!(
        HintIssue::SectionNotEnded { last_line: 230 }.message(),
        "Found the start, but never the end? Read 230 lines"
    );
    assert_eq!(HintIssue::PatternNotFound.message(), "Failed to encounter pattern");
}
