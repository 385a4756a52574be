use minigrep::{render_match, search, MatchingLine};

#[test]
fn plain_rendering_of_a_match() {
    colored::control::set_override(false);
    let contents = "Rust:\nsafe, fast, productive.\nPick three.";
    let result = search("duct", contents, true);
    assert_eq!(render_match(&result[0], true), Ok("2: safe, fast, productive.".to_string()));
}

#[test]
fn plain_rendering_without_regard_to_case() {
    colored::control::set_override(false);
    let line = MatchingLine::new("Trust me.", "rUsT", 4);
    assert_eq!(render_match(&line, false), Ok("4: Trust me.".to_string()));
}

#[test]
fn rendering_an_unlocatable_line_fails() {
    colored::control::set_override(false);
    let line = MatchingLine::new("Trust me.", "rUsT", 4);
    assert_eq!(render_match(&line, true), Err("Not found".to_string()));
}
