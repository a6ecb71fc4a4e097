use compmode::cli::Format;
use compmode::error::CompmodeError;
use compmode::groups::{all_groups, group_patterns, pick_group, pick_group_lowered, CARGO_PATTERN, GCC_PATTERN};
use compmode::message::Message;
use compmode::report::{push_decimal, Report};

#[test]
fn pick_all_and_auto_select_every_group() {
    assert_eq!(pick_group("all", "cargo").unwrap(), all_groups());
    assert_eq!(pick_group("ALL", "cargo").unwrap(), all_groups());
    assert_eq!(pick_group("auto", "make").unwrap(), all_groups());
}

#[test]
fn pick_by_name_in_any_case() {
    assert_eq!(pick_group("Cargo", "x").unwrap(), vec![vec![CARGO_PATTERN]]);
    assert_eq!(pick_group("all", "x").unwrap(), vec![vec![CARGO_PATTERN]]);
    assert_eq!(group_patterns(0), vec![CARGO_PATTERN]);
    assert_eq!(pick_group("GCC", "gcc").err(), Some(CompmodeError::GroupNotFound { group: "gcc".to_string() }));
    assert!(!GCC_PATTERN.is_empty());
}

#[test]
fn pick_make_resolves_to_no_group() {
    assert_eq!(pick_group("make", "make").err(), Some(CompmodeError::GroupNotFound { group: "make".to_string() }));
}

#[test]
fn pick_unknown_group_fails() {
    assert_eq!(pick_group("Nope", "x").err(), Some(CompmodeError::GroupNotFound { group: "nope".to_string() }));
    assert_eq!(
        pick_group_lowered("Cargo", "x").err(),
        Some(CompmodeError::GroupNotFound { group: "Cargo".to_string() })
    );
}

#[test]
fn format_names() {
    assert_eq!(Format::Debug.to_string(), "debug");
    assert_eq!(Format::JSON.to_string(), "json");
    assert_eq!(Format::NullSep.to_string(), "nullsep");
}

#[test]
fn csv_rendering() {
    let report = Report {
        command: vec!["cargo".to_string(), "build".to_string()],
        root_directory: "/tmp".to_string(),
        messages: vec![
            Message { is_error: true, msg: "boom".into(), file: "a.rs".into(), line: Some(12), column: Some(0), span: (0, 1) },
            Message { is_error: false, msg: "meh".into(), file: "b.rs".into(), line: None, column: Some(305), span: (2, 3) },
        ],
        exit_code: 101,
    };
    let mut out = String::new();
    report.format_csv(",", &mut out);
    assert_eq!(out, "is_error,msg,file,line,column\n1,boom,a.rs,12,0\n0,meh,b.rs,,305");
    let mut nul = String::from("x");
    report.format_csv("\0", &mut nul);
    assert!(nul.starts_with("xis_error\0msg"));
}

#[test]
fn decimal_digits() {
    let mut s = String::new();
    push_decimal(&mut s, 0);
    push_decimal(&mut s, 9);
    s.push(' ');
    push_decimal(&mut s, 1203);
    s.push(' ');
    push_decimal(&mut s, usize::MAX);
    assert_eq!(s, format!("09 1203 {}", usize::MAX));
}
