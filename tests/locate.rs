use minigrep::{compose_line, parse_string, split_span, Config};

#[test]
fn exact_span_of_query() {
    assert_eq!(parse_string("safe, fast, productive.", "duct", true), Ok((15, 19)));
}

#[test]
fn first_occurrence_is_located() {
    assert_eq!(parse_string("ababab ab", "ab", true), Ok((0, 2)));
    assert_eq!(parse_string("xxabab", "ab", true), Ok((2, 4)));
}

#[test]
fn folded_span_uses_the_query_length() {
    assert_eq!(parse_string("Trust me.", "rUsT", false), Ok((1, 5)));
    assert_eq!(parse_string("Trust me.", "rUsT", true), Err("Not found".to_string()));
}

#[test]
fn empty_query_span_is_empty_at_the_start() {
    assert_eq!(parse_string("anything", "", true), Ok((0, 0)));
    assert_eq!(parse_string("anything", "", false), Ok((0, 0)));
    assert_eq!(parse_string("", "", true), Ok((0, 0)));
}

#[test]
fn missing_query_is_not_found() {
    assert_eq!(parse_string("Rust:", "duct", false), Err("Not found".to_string()));
    assert_eq!(parse_string("ab", "abc", true), Err("Not found".to_string()));
}

#[test]
fn span_is_cut_into_three_parts() {
    assert_eq!(
        split_span("safe, fast, productive.", 15, 19),
        Some(("safe, fast, pro", "duct", "ive."))
    );
    assert_eq!(split_span("abc", 0, 0), Some(("", "", "abc")));
    assert_eq!(split_span("abc", 3, 3), Some(("abc", "", "")));
}

#[test]
fn span_off_the_line_is_refused() {
    assert_eq!(split_span("abc", 2, 4), None);
    assert_eq!(split_span("abc", 2, 1), None);
    assert_eq!(split_span("é", 1, 2), None);
    assert_eq!(split_span("é", 0, 1), None);
    assert_eq!(split_span("é", 0, 2), Some(("", "é", "")));
}

#[test]
fn rendered_line_layout() {
    assert_eq!(compose_line("2", "safe, fast, pro", "duct", "ive."), "2: safe, fast, productive.");
    assert_eq!(compose_line("10", "", "", ""), "10: ");
}

#[test]
fn config_needs_a_query_and_a_file() {
    let args = vec!["prog".to_string(), "query".to_string()];
    assert_eq!(Config::new(&args, false).err(), Some("Not enough arguments"));
    let none: Vec<String> = Vec::new();
    assert_eq!(Config::new(&none, true).err(), Some("Not enough arguments"));
}

#[test]
fn config_takes_query_and_files() {
    let args = vec![
        "prog".to_string(),
        "needle".to_string(),
        "a.txt".to_string(),
        "b.txt".to_string(),
    ];
    let config = Config::new(&args, true).ok().unwrap();
    assert_eq!(config.query, "needle");
    assert_eq!(config.filenames, vec![&args[2], &args[3]]);
    assert!(config.case_sensitive);
}
