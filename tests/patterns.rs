use compmode::groups::{all_groups, CARGO_PATTERN, GCC_PATTERN, GROUPS};
use compmode::pattern::Pattern;

const CARGO_ERR_MSG: &str = r#"Compiling compmode v0.1.0 (/home/sandorex/ws/compmode)
error: expected one of `!` or `::`, found `<eof>`
  --> src/groups.rs:33:1
   |
33 | hehe
   | ^^^^ expected one of `!` or `::`

error: could not compile `compmode` (bin "compmode") due to 1 previous error
"#;

const CARGO_WARN_MSG: &str = r#"warning: constant `x` should have an upper case name
  --> src/groups.rs:33:7
   |
33 | const x: u8 = 2;
   |       ^ help: convert the identifier to upper case (notice the capitalization): `X`
   |
   = note: `#[warn(non_upper_case_globals)]` on by default

warning: `compmode` (bin "compmode") generated 1 warning
    Finished `dev` profile [unoptimized + debuginfo] target(s) in 0.39s
"#;

const GCC_ERR_MSG: &str = r#"main.c:4:29: error: expected ‘;’ before ‘return’
    4 |     printf("Hello World!\n")
      |                             ^
      |                             ;
    5 |     return 1;
      |     ~~~~~~
      "#;

const GCC_WARN_MSG: &str = r#"main.c:7:13: warning: format ‘%s’ expects argument of type ‘char *’, but argument 2 has type ‘int’ [-Wformat=]
    7 |     printf (fmt, 123);
      |             ^~~  ~~~
      |                  |
      |                  int"#;

fn group(p: &Pattern, hay: &str, name: &str) -> Option<String> {
    p.group(hay, name)
}

#[test]
fn ensure_groups_are_correct() {
    assert_eq!(all_groups().len(), GROUPS.len());
}

#[test]
fn pattern_cargo_err() {
    let re = Pattern::new(CARGO_PATTERN);
    assert!(re.is_some(), "Pattern failed to compile");
    let re = re.unwrap();

    assert!(re.find(CARGO_ERR_MSG).is_some(), "Pattern failed to match");

    assert_eq!(group(&re, CARGO_ERR_MSG, "type").as_deref(), Some("error"));
    assert_eq!(
        group(&re, CARGO_ERR_MSG, "msg").as_deref(),
        Some("expected one of `!` or `::`, found `<eof>`")
    );
    assert_eq!(group(&re, CARGO_ERR_MSG, "file").as_deref(), Some("src/groups.rs"));
    assert_eq!(group(&re, CARGO_ERR_MSG, "line").as_deref(), Some("33"));
    assert_eq!(group(&re, CARGO_ERR_MSG, "col").as_deref(), Some("1"));
}

#[test]
fn pattern_cargo_warn() {
    let re = Pattern::new(CARGO_PATTERN);
    assert!(re.is_some(), "Pattern failed to compile");
    let re = re.unwrap();

    assert!(re.find(CARGO_WARN_MSG).is_some(), "Pattern failed to match");

    assert_eq!(group(&re, CARGO_WARN_MSG, "type").as_deref(), Some("warning"));
    assert_eq!(
        group(&re, CARGO_WARN_MSG, "msg").as_deref(),
        Some("constant `x` should have an upper case name")
    );
    assert_eq!(group(&re, CARGO_WARN_MSG, "file").as_deref(), Some("src/groups.rs"));
    assert_eq!(group(&re, CARGO_WARN_MSG, "line").as_deref(), Some("33"));
    assert_eq!(group(&re, CARGO_WARN_MSG, "col").as_deref(), Some("7"));
}

#[test]
fn pattern_gcc_err() {
    let re = Pattern::new(GCC_PATTERN);
    assert!(re.is_some(), "Pattern failed to compile");
    let re = re.unwrap();

    assert!(re.find(GCC_ERR_MSG).is_some(), "Pattern failed to match");

    assert_eq!(group(&re, GCC_ERR_MSG, "type").as_deref(), Some("error"));
    assert_eq!(group(&re, GCC_ERR_MSG, "msg").as_deref(), Some("expected ‘;’ before ‘return’"));
    assert_eq!(group(&re, GCC_ERR_MSG, "file").as_deref(), Some("main.c"));
    assert_eq!(group(&re, GCC_ERR_MSG, "line").as_deref(), Some("4"));
    assert_eq!(group(&re, GCC_ERR_MSG, "col").as_deref(), Some("29"));
}

#[test]
fn pattern_gcc_warn() {
    let re = Pattern::new(GCC_PATTERN);
    assert!(re.is_some(), "Pattern failed to compile");
    let re = re.unwrap();

    assert!(re.find(GCC_WARN_MSG).is_some(), "Pattern failed to match");

    assert_eq!(group(&re, GCC_WARN_MSG, "type").as_deref(), Some("warning"));
    assert_eq!(
        group(&re, GCC_WARN_MSG, "msg").as_deref(),
        Some("format ‘%s’ expects argument of type ‘char *’, but argument 2 has type ‘int’ [-Wformat=]")
    );
    assert_eq!(group(&re, GCC_WARN_MSG, "file").as_deref(), Some("main.c"));
    assert_eq!(group(&re, GCC_WARN_MSG, "line").as_deref(), Some("7"));
    assert_eq!(group(&re, GCC_WARN_MSG, "col").as_deref(), Some("13"));
}

#[test]
fn pattern_rejects_bad_syntax() {
    assert!(Pattern::new("foo(bar").is_none());
    assert!(Pattern::new("(?<severity-type>error)").is_none());
}

#[test]
fn pattern_find_reports_byte_offsets() {
    let re = Pattern::new("β+").unwrap();
    assert_eq!(re.find("aαββc"), Some((3, 7)));
    assert_eq!(re.find("abc"), None);
    assert_eq!(re.source(), "β+");
}

#[test]
fn pattern_group_absent_when_not_taking_part() {
    let re = Pattern::new("a(?<x>b)?(?<y>c)").unwrap();
    assert_eq!(re.group("ac", "x"), None);
    assert_eq!(re.group("ac", "y").as_deref(), Some("c"));
    assert_eq!(re.group("zzz", "y"), None);
    assert_eq!(re.group("ac", "nope"), None);
}
