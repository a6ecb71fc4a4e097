use compmode::error::CompmodeError;
use compmode::groups::CARGO_PATTERN;
use compmode::matcher::{process_line, scan_lines, scan_stream, stream_len, Matcher, Newline, Scan};
use compmode::message::{Groups, Message};
use compmode::number::parse_usize_exec;
use compmode::pattern::{capture_first, PatternSet};

fn set(sources: &[&str]) -> PatternSet {
    PatternSet::compile(&sources.to_vec()).unwrap()
}

fn lines(ls: &[&str]) -> Vec<String> {
    ls.iter().map(|l| l.to_string()).collect()
}

fn stream(patterns: &[&str], ls: &[&str], newline: Newline) -> Scan {
    scan_lines(&set(patterns), &lines(ls), newline)
}

#[test]
fn empty_pattern_set_yields_nothing() {
    let r = scan_lines(&PatternSet::empty(), &lines(&["error: x", "  --> a.rs:1:2", "hello"]), Newline::Lf);
    assert!(r.records.is_empty());
    assert!(r.errors.is_empty());
    assert_eq!(r.position, 9 + 15 + 6);
}

#[test]
fn two_line_cargo_diagnostic() {
    let first = "error: expected ';'";
    let second = "  --> src/main.rs:3:5";
    let r = stream(&[CARGO_PATTERN], &[first, second], Newline::Lf);
    assert_eq!(r.records.len(), 1);
    assert!(r.errors.is_empty());
    let m = &r.records[0];
    assert!(m.is_error);
    assert_eq!(m.msg, "expected ';'");
    assert_eq!(m.file, "src/main.rs");
    assert_eq!(m.line, Some(3));
    assert_eq!(m.column, Some(5));
    assert_eq!(m.span, (0, first.len() + 1 + second.len()));
    assert_eq!(m.span, (0, 41));
    assert_eq!(r.position, 42);
}

#[test]
fn single_line_without_continuation_never_matches() {
    let r = stream(&[CARGO_PATTERN], &["error: expected ';'"], Newline::Lf);
    assert!(r.records.is_empty());
    assert!(r.errors.is_empty());
    assert_eq!(r.position, 20);
}

#[test]
fn missing_message_group_is_reported_and_dropped() {
    let pattern = r"(?<type>error)(?<msg>: .+)? in (?<file>\S+)";
    let r = stream(&[pattern], &["error in main.c"], Newline::Lf);
    assert!(r.records.is_empty());
    assert_eq!(
        r.errors,
        vec![CompmodeError::MissingCapture { group: "msg".to_string(), pattern: pattern.to_string() }]
    );
}

#[test]
fn missing_file_group_is_reported() {
    let pattern = r"(?<msg>oops)(?<file> at \S+)?";
    let r = stream(&[pattern], &["oops"], Newline::Lf);
    assert!(r.records.is_empty());
    assert_eq!(
        r.errors,
        vec![CompmodeError::MissingCapture { group: "file".to_string(), pattern: pattern.to_string() }]
    );
}

#[test]
fn malformed_numbers_are_reported() {
    let pattern = r"(?<msg>\w+) (?<file>\w+):(?<line>\w+)(:(?<col>\w+))?";
    let r = stream(&[pattern], &["oops main:abc", "fine main:7:x", "big main:99999999999999999999999"], Newline::Lf);
    assert!(r.records.is_empty());
    assert_eq!(
        r.errors,
        vec![
            CompmodeError::MalformedNumber { group: "line".to_string(), pattern: pattern.to_string() },
            CompmodeError::MalformedNumber { group: "col".to_string(), pattern: pattern.to_string() },
            CompmodeError::MalformedNumber { group: "line".to_string(), pattern: pattern.to_string() },
        ]
    );
}

#[test]
fn thousand_unrelated_lines() {
    let owned: Vec<String> = (0..1000).map(|i| format!("unrelated line number {}", i)).collect();
    let total: usize = owned.iter().map(|l| l.len() + 1).sum();
    let r = scan_lines(&set(&[CARGO_PATTERN]), &owned, Newline::Lf);
    assert!(r.records.is_empty());
    assert!(r.errors.is_empty());
    assert_eq!(r.position, total);
}

#[test]
fn consumed_line_is_skipped_and_offsets_continue() {
    let ls = [
        "noise",
        "warning: unused variable",
        " --> lib.rs:10:4",
        "error: boom",
        "  --> main.rs:2:1",
    ];
    let r = stream(&[CARGO_PATTERN], &ls, Newline::Lf);
    assert_eq!(r.records.len(), 2);
    let joined = ls.join("\n") + "\n";
    let first = &r.records[0];
    assert!(!first.is_error);
    assert_eq!(first.msg, "unused variable");
    assert_eq!(first.span, (6, 6 + 24 + 1 + 16));
    assert_eq!(&joined[first.span.0..first.span.1], "warning: unused variable\n --> lib.rs:10:4");
    let second = &r.records[1];
    assert!(second.is_error);
    assert_eq!(second.file, "main.rs");
    assert_eq!(&joined[second.span.0..second.span.1], "error: boom\n  --> main.rs:2:1");
    assert_eq!(r.position, joined.len());
}

#[test]
fn crlf_terminators_count_two_bytes() {
    let ls = ["x", "main.c:1:2: warning: careful", "y"];
    let gcc = r"^(?<file>.+):(?<line>\d+):(?<col>\d+): (?<type>error|warning): (?<msg>[^\n]+)";
    let r = stream(&[gcc], &ls, Newline::CrLf);
    assert_eq!(r.records.len(), 1);
    assert_eq!(r.records[0].span, (3, 3 + 28));
    assert_eq!(r.records[0].msg, "careful");
    assert_eq!(r.position, 3 + 30 + 3);
}

#[test]
fn first_matching_pattern_wins() {
    let a = r"(?<msg>alpha) (?<file>\S+)";
    let b = r"(?<msg>al\w+) (?<file>\S+):(?<line>\d+)";
    let r = stream(&[a, b], &["alpha main.c:4"], Newline::Lf);
    assert_eq!(r.records.len(), 1);
    assert_eq!(r.records[0].file, "main.c:4");
    assert_eq!(r.records[0].line, None);
    let hit = capture_first(&set(&[b, a]), "alpha main.c:4").unwrap();
    assert_eq!((hit.pattern, hit.start, hit.end), (0, 0, 14));
    assert!(capture_first(&set(&[a]), "nothing").is_none());
}

#[test]
fn error_marker_group_marks_errors() {
    let p = r"(?<file>\S+): (?:(?<type_error>E)|W)(?<msg>.*)";
    let r = stream(&[p], &["a.c: Eboom", "b.c: Wmeh"], Newline::Lf);
    assert_eq!(r.records.len(), 2);
    assert!(r.records[0].is_error);
    assert!(!r.records[1].is_error);
}

#[test]
fn severity_word_is_case_insensitive() {
    let p = r"(?<type>\w+): (?<msg>.*) @ (?<file>\S+)";
    let r = stream(&[p], &["ErRoR: a @ f", "warning: b @ g", "errors: c @ h"], Newline::Lf);
    let flags: Vec<bool> = r.records.iter().map(|m| m.is_error).collect();
    assert_eq!(flags, vec![true, false, false]);
}

#[test]
fn compile_reports_first_bad_pattern() {
    let r = PatternSet::compile(&vec!["ok", "foo(bar", "(also bad"]);
    assert_eq!(r.err(), Some(CompmodeError::PatternCompilation { pattern: "foo(bar".to_string() }));
    assert_eq!(PatternSet::compile(&vec!["a", "b"]).unwrap().len(), 2);
}

#[test]
fn streaming_matcher_agrees_with_buffered_scan() {
    let ls = ["noise", "error: boom", "  --> main.rs:2:1", "tail"];
    let mut m = Matcher::new(set(&[CARGO_PATTERN]), Newline::Lf);
    let mut records: Vec<Message> = Vec::new();
    let mut offered: Vec<String> = Vec::new();
    for l in ls.iter() {
        assert!(m.can_take(l));
        if let Some((cur, step)) = m.push(l.to_string()) {
            offered.push(cur);
            records.extend(step.record);
        }
    }
    if let Some((cur, step)) = m.finish() {
        offered.push(cur);
        records.extend(step.record);
    }
    let batch = stream(&[CARGO_PATTERN], &ls, Newline::Lf);
    assert_eq!(offered, vec!["noise", "error: boom", "tail"]);
    assert_eq!(records.len(), batch.records.len());
    assert_eq!(records[0].msg, batch.records[0].msg);
    assert_eq!(records, batch.records);
    assert_eq!(m.position(), batch.position);
}

#[test]
fn rescanning_gives_identical_records() {
    let ls = ["warning: a", " --> x.rs:1:1", "error: b", " --> y.rs:2:2"];
    let one = stream(&[CARGO_PATTERN], &ls, Newline::Lf);
    let two = stream(&[CARGO_PATTERN], &ls, Newline::Lf);
    assert_eq!(one.records, two.records);
    assert_eq!(one.records.len(), 2);
    assert_eq!(one.position, two.position);
}

#[test]
fn single_line_match_within_current_line() {
    let p = r"(?<msg>needle) (?<file>\w+)";
    let s = process_line(&set(&[p]), "a needle here", Some("next"), 10, Newline::Lf);
    let m = s.record.unwrap();
    assert!(!s.consumed_next);
    assert_eq!(m.span, (12, 23));
    assert!(m.span.1 <= 10 + "a needle here".len());
    assert_eq!(s.advance, 14);
}

#[test]
fn match_in_lookahead_line_waits_for_its_line() {
    let p = r"(?<msg>b)(?<file>)";
    let r = stream(&[p], &["a", "b"], Newline::Lf);
    let spans: Vec<(usize, usize)> = r.records.iter().map(|m| m.span).collect();
    assert_eq!(spans, vec![(2, 3)]);
    let s = process_line(&set(&[p]), "a", Some("b"), 0, Newline::Lf);
    assert!(s.record.is_none() && s.error.is_none() && !s.consumed_next);
    assert_eq!(s.advance, 2);
}

#[test]
fn crlf_two_line_span_covers_both_terminator_bytes() {
    let ls = ["noise", "error: boom", "  --> main.rs:2:1", "tail"];
    let r = stream(&[CARGO_PATTERN], &ls, Newline::CrLf);
    assert_eq!(r.records.len(), 1);
    let joined = ls.join("\r\n") + "\r\n";
    let m = &r.records[0];
    assert_eq!(m.span, (7, 7 + 11 + 2 + 17));
    assert_eq!(&joined[m.span.0..m.span.1], "error: boom\r\n  --> main.rs:2:1");
    assert_eq!(r.position, joined.len());
}

#[test]
fn records_come_in_stream_order_after_pairs() {
    let both = [CARGO_PATTERN, r"(?<msg>\w+)=(?<file>\w+)"];
    let ls = ["a=b", "error: e", " --> f.rs:1:1", "c=d", "warning: w", " --> g.rs:2:2"];
    let r = stream(&both, &ls, Newline::Lf);
    let starts: Vec<usize> = r.records.iter().map(|m| m.span.0).collect();
    assert_eq!(r.records.len(), 4);
    assert!(starts.windows(2).all(|w| w[0] < w[1]));
    let joined = ls.join("\n") + "\n";
    let after_pair = joined.find("c=d").unwrap();
    assert_eq!(r.records[2].span.0, after_pair);
}

#[test]
fn scan_stream_checks_length() {
    let ls = lines(&["warning: a", " --> x.rs:1:1"]);
    let r = scan_stream(&set(&[CARGO_PATTERN]), &ls, Newline::CrLf).unwrap();
    assert_eq!(r.records.len(), 1);
    assert_eq!(r.position, 12 + 15);
    assert_eq!(stream_len(&ls, Newline::Lf), Some(11 + 14));
}

#[test]
fn can_take_refuses_overflow() {
    let m = Matcher::new(PatternSet::empty(), Newline::Lf);
    assert!(m.can_take("fine"));
    assert_eq!(m.position(), 0);
}

#[test]
fn records_compare_by_location_only() {
    let a = Message { is_error: true, msg: "x".into(), file: "a".into(), line: Some(1), column: None, span: (0, 3) };
    let b = Message { is_error: false, msg: "y".into(), file: "b".into(), line: Some(1), column: None, span: (0, 3) };
    let c = Message { is_error: true, msg: "x".into(), file: "a".into(), line: Some(2), column: None, span: (0, 3) };
    assert!(a == b);
    assert!(a != c);
}

#[test]
fn from_groups_converts_exactly() {
    let g = Groups {
        kind: Some("Error".to_string()),
        error_marker: false,
        msg: Some("m".to_string()),
        file: Some("f".to_string()),
        line: Some("+12".to_string()),
        col: None,
    };
    let m = Message::from_groups("p", g, (4, 9)).unwrap();
    assert!(m.is_error);
    assert_eq!((m.msg.as_str(), m.file.as_str(), m.line, m.column, m.span), ("m", "f", Some(12), None, (4, 9)));
}

#[test]
fn parse_usize_follows_std() {
    assert_eq!(parse_usize_exec("42"), Some(42));
    assert_eq!(parse_usize_exec("+7"), Some(7));
    assert_eq!(parse_usize_exec("007"), Some(7));
    assert_eq!(parse_usize_exec(""), None);
    assert_eq!(parse_usize_exec("+"), None);
    assert_eq!(parse_usize_exec("-1"), None);
    assert_eq!(parse_usize_exec("1a"), None);
    assert_eq!(parse_usize_exec("٣"), None);
    assert_eq!(parse_usize_exec("18446744073709551615"), Some(usize::MAX));
    assert_eq!(parse_usize_exec("18446744073709551616"), None);
}

#[test]
fn empty_stream_has_nothing_to_commit() {
    let r = stream(&[CARGO_PATTERN], &[], Newline::Lf);
    assert!(r.records.is_empty());
    assert_eq!(r.position, 0);
    let mut m = Matcher::new(set(&[CARGO_PATTERN]), Newline::CrLf);
    assert!(m.finish().is_none());
    assert_eq!(m.position(), 0);
}

#[test]
fn empty_lines_still_count_their_terminators() {
    let r = stream(&[CARGO_PATTERN], &["", "", ""], Newline::CrLf);
    assert!(r.records.is_empty());
    assert_eq!(r.position, 6);
}
