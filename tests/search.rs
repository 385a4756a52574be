use minigrep::{search, MatchingLine};

fn compare_matched_lines(expected: &[MatchingLine], result: &[MatchingLine]) {
    assert_eq!(expected.len(), result.len());
    for i in 0..expected.len() {
        assert_eq!(expected[i].searched_text, result[i].searched_text);
        assert_eq!(expected[i].line_number, result[i].line_number);
        assert_eq!(expected[i].text, result[i].text);
    }
}

fn numbers(result: &[MatchingLine]) -> Vec<usize> {
    result.iter().map(|m| m.line_number).collect()
}

#[test]
fn case_sensitive() {
    let query = "duct";
    let contents = "\
Rust:
safe, fast, productive.
Pick three.
Duck tape.";
    let expected = [MatchingLine::new("safe, fast, productive.", "duct", 2)];
    let result = search(query, contents, true);

    compare_matched_lines(&expected, &result);
}

#[test]
fn case_insensitive() {
    let query = "rUsT";
    let contents = "\
Rust:
safe, fast, productive.
Pick three.
Trust me.";
    let expected = [
        MatchingLine::new("Rust:", "rUsT", 1),
        MatchingLine::new("Trust me.", "rUsT", 4),
    ];
    let result = search(query, contents, false);

    compare_matched_lines(&expected, &result);
}

#[test]
fn search_twice_gives_the_same_matches() {
    let contents = "one\ntwo\nthree\ntwenty";
    let first = search("tw", contents, false);
    let second = search("tw", contents, false);
    compare_matched_lines(&first, &second);
    assert_eq!(numbers(&first), vec![2, 4]);
}

#[test]
fn case_permutations_find_the_same_lines() {
    let contents = "Rust:\nsafe, fast, productive.\nPick three.\nTrust me.\nRUST";
    for query in ["rust", "RUST", "rUsT", "RusT"] {
        let result = search(query, contents, false);
        assert_eq!(numbers(&result), vec![1, 4, 5]);
        assert_eq!(result[2].text, "RUST");
        assert_eq!(result[0].searched_text, query);
    }
}

#[test]
fn exact_case_ignores_other_cases() {
    let contents = "Rust:\nsafe, fast, productive.\nPick three.\nDuck tape.";
    assert_eq!(numbers(&search("Duct", contents, true)), Vec::<usize>::new());
    assert_eq!(numbers(&search("Duck", contents, true)), vec![4]);
    assert_eq!(numbers(&search("duck", contents, false)), vec![4]);
}

#[test]
fn empty_query_matches_every_line() {
    let contents = "alpha\n\nbeta\ngamma";
    for case_sensitive in [true, false] {
        let result = search("", contents, case_sensitive);
        assert_eq!(numbers(&result), vec![1, 2, 3, 4]);
        assert_eq!(result[1].text, "");
        assert_eq!(result[3].text, "gamma");
    }
}

#[test]
fn query_longer_than_every_line_matches_nothing() {
    let contents = "abc\nabcd\nab";
    assert!(search("abcde", contents, true).is_empty());
    assert!(search("ABCDE", contents, false).is_empty());
}

#[test]
fn several_matches_in_a_line_give_one_entry() {
    let contents = "no\nababab ab\nab";
    let result = search("ab", contents, true);
    assert_eq!(numbers(&result), vec![2, 3]);
    assert_eq!(result[0].text, "ababab ab");
}

#[test]
fn every_line_is_numbered_and_tested() {
    let contents = "duct\n\nconduct\nDUCT\nd u c t\nduc\nproductive duct";
    let result = search("duct", contents, true);
    assert_eq!(numbers(&result), vec![1, 3, 7]);
    let texts: Vec<&str> = result.iter().map(|m| m.text).collect();
    assert_eq!(texts, vec!["duct", "conduct", "productive duct"]);
    let folded = search("duct", contents, false);
    assert_eq!(numbers(&folded), vec![1, 3, 4, 7]);
}

#[test]
fn line_endings_are_stripped() {
    let contents = "first\r\nsecond\n\nthird\n";
    let result = search("", contents, true);
    let texts: Vec<&str> = result.iter().map(|m| m.text).collect();
    assert_eq!(texts, vec!["first", "second", "", "third"]);
    assert!(search("\r", contents, true).is_empty());
    let bare = search("", "a\rb\n\n", true);
    let bare_texts: Vec<&str> = bare.iter().map(|m| m.text).collect();
    assert_eq!(bare_texts, vec!["a\rb", ""]);
}

#[test]
fn empty_text_has_no_matches() {
    assert!(search("", "", true).is_empty());
    assert!(search("x", "", false).is_empty());
}

#[test]
fn non_ascii_lines_are_searched() {
    let contents = "Grüße\nSTRASSE\nÉcole";
    assert_eq!(numbers(&search("école", contents, false)), vec![3]);
    assert_eq!(numbers(&search("üß", contents, true)), vec![1]);
    assert_eq!(numbers(&search("ÜSS", contents, true)), Vec::<usize>::new());
}
