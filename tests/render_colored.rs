use minigrep::{render_match, MatchingLine};

#[test]
fn colored_rendering_marks_number_and_span() {
    colored::control::set_override(true);
    let line = MatchingLine::new("safe, fast, productive.", "duct", 2);
    assert_eq!(
        render_match(&line, true),
        Ok("\x1b[32m2\x1b[0m: safe, fast, pro\x1b[31mduct\x1b[0mive.".to_string())
    );
}

#[test]
fn colored_rendering_of_an_empty_span() {
    colored::control::set_override(true);
    let line = MatchingLine::new("abc", "", 7);
    let rendered = render_match(&line, false).ok().unwrap();
    assert!(rendered.starts_with("\x1b[32m7\x1b[0m: "));
    assert!(rendered.ends_with("abc"));
}
