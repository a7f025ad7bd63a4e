use mygrep::config::{usage, ArgError, Config};
use mygrep::scan::{format_record, is_match, scan, LineFilter};

fn strings(items: &[&str]) -> Vec<String> {
    items.iter().map(|s| s.to_string()).collect()
}

fn config(pattern: &str, ignore_case: bool) -> Config {
    Config {
        pattern: pattern.to_string(),
        filename: "input.txt".to_string(),
        ignore_case,
    }
}

fn sample_lines() -> Vec<String> {
    strings(&["Hello", "world", "HELLO again"])
}

#[test]
fn no_arguments_is_missing_pattern() {
    let r = Config::new(&strings(&[]));
    assert!(matches!(r, Err(ArgError::MissingPattern)));
    assert_eq!(ArgError::MissingPattern.message(), "Pattern not found");
}

#[test]
fn pattern_only_is_missing_file_path() {
    let r = Config::new(&strings(&["pattern"]));
    assert!(matches!(r, Err(ArgError::MissingFilePath)));
    assert_eq!(ArgError::MissingFilePath.message(), "File path not found");
    assert!(usage().starts_with("Usage:"));
}

#[test]
fn pattern_and_path_parse_case_sensitive() {
    let c = Config::new(&strings(&["needle", "notes.txt"])).unwrap();
    assert_eq!(c.pattern, "needle");
    assert_eq!(c.filename, "notes.txt");
    assert!(!c.ignore_case);
}

#[test]
fn short_and_long_flags_set_ignore_case() {
    let c = Config::new(&strings(&["needle", "notes.txt", "-i"])).unwrap();
    assert!(c.ignore_case);
    let c = Config::new(&strings(&["needle", "notes.txt", "--ignore-case"])).unwrap();
    assert!(c.ignore_case);
}

#[test]
fn repeated_flag_is_accepted() {
    let c = Config::new(&strings(&["needle", "notes.txt", "-i", "--ignore-case", "-i"])).unwrap();
    assert!(c.ignore_case);
    assert_eq!(c.pattern, "needle");
}

#[test]
fn unknown_argument_names_first_offender() {
    let r = Config::new(&strings(&["needle", "notes.txt", "-i", "-x", "--bogus"]));
    assert_eq!(r.unwrap_err(), ArgError::UnknownArgument("-x".to_string()));
    let e = ArgError::UnknownArgument("-x".to_string());
    assert_eq!(e.message(), "Unknown argument: -x");
}

#[test]
fn usage_names_both_flags() {
    assert_eq!(usage(), "Usage: mygrep <pattern> <file_path> [-i | --ignore-case]");
}

#[test]
fn record_format() {
    assert_eq!(format_record(1, "Hello"), "1: Hello");
    assert_eq!(format_record(0, ""), "0: ");
    assert_eq!(format_record(1234567890, "x y"), "1234567890: x y");
    assert_eq!(format_record(10, "ten"), "10: ten");
}

#[test]
fn case_sensitive_match_is_exact() {
    assert!(is_match("say hello there", "hello", false));
    assert!(!is_match("say Hello there", "hello", false));
    assert!(!is_match("hel", "hello", false));
    assert!(is_match("a.b", ".", false));
    assert!(!is_match("abc", "a.c", false));
}

#[test]
fn ignore_case_lowercases_both_sides() {
    assert!(is_match("say HELLO there", "hello", true));
    assert!(is_match("say hello there", "HeLLo", true));
    assert!(!is_match("say help there", "hello", true));
}

#[test]
fn lowercasing_is_per_character() {
    // A final capital sigma is folded like any other one.
    assert!(is_match("ΟΔΟΣ", "Σ", true));
    assert!(is_match("STRASSE", "strasse", true));
    assert!(is_match("ÉCOLE", "école", true));
}

#[test]
fn ignore_case_keeps_every_sensitive_match() {
    let lines = strings(&["abc", "ABC", "xAbCx", "none", "ΟΔΟΣ"]);
    for pattern in ["abc", "AbC", "Σ", "", "x"] {
        let exact = scan(&config(pattern, false), &lines);
        let folded = scan(&config(pattern, true), &lines);
        for rec in &exact {
            assert!(folded.contains(rec));
        }
    }
}

#[test]
fn example_ignore_case_scan() {
    let out = scan(&config("hello", true), &sample_lines());
    assert_eq!(out, strings(&["1: Hello", "3: HELLO again"]));
}

#[test]
fn example_case_sensitive_scan_is_empty() {
    let out = scan(&config("hello", false), &sample_lines());
    assert!(out.is_empty());
}

#[test]
fn empty_pattern_reports_every_line() {
    let lines = strings(&["first", "", "third"]);
    let out = scan(&config("", false), &lines);
    assert_eq!(out, strings(&["1: first", "2: ", "3: third"]));
    let out = scan(&config("", true), &lines);
    assert_eq!(out, strings(&["1: first", "2: ", "3: third"]));
}

#[test]
fn empty_file_reports_nothing() {
    assert!(scan(&config("x", false), &Vec::new()).is_empty());
    assert!(scan(&config("", true), &Vec::new()).is_empty());
}

#[test]
fn scanning_twice_gives_same_output() {
    let c = config("o", false);
    let lines = strings(&["one", "two", "three", "four"]);
    let first = scan(&c, &lines);
    let second = scan(&c, &lines);
    assert_eq!(first, second);
    assert_eq!(first, strings(&["1: one", "2: two", "4: four"]));
}

#[test]
fn reported_numbers_are_the_matching_lines() {
    let lines = strings(&["cat", "dog", "concat", "catalog", "bird"]);
    let out = scan(&config("cat", false), &lines);
    assert_eq!(out, strings(&["1: cat", "3: concat", "4: catalog"]));
}

#[test]
fn original_text_is_printed_not_the_folded_one() {
    let out = scan(&config("WORLD", true), &strings(&["Hello World"]));
    assert_eq!(out, strings(&["1: Hello World"]));
}

#[test]
fn filter_numbers_lines_from_one() {
    let mut f = LineFilter::new(&config("b", false));
    assert_eq!(f.line_count(), 0);
    assert_eq!(f.feed("abc"), Some("1: abc".to_string()));
    assert_eq!(f.feed("xyz"), None);
    assert_eq!(f.feed("b"), Some("3: b".to_string()));
    assert_eq!(f.line_count(), 3);
}

#[test]
fn filter_agrees_with_scan() {
    let c = config("HELLO", true);
    let lines = sample_lines();
    let mut f = LineFilter::new(&c);
    let streamed: Vec<String> = lines.iter().filter_map(|l| f.feed(l)).collect();
    assert_eq!(streamed, scan(&c, &lines));
}
