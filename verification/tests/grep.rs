use workpool::grep::{contains_str, run_search, search, search_case_insensitive, Config};

#[test]
fn one_result() {
    let query = "duct";
    let contents = "Rust:\nsafe, fast, productive.\nPick three.\nDuct tape.";
    assert_eq!(search(query, contents), vec!["safe, fast, productive."]);
}

#[test]
fn case_sensitive_search_misses_other_cases() {
    let query = "duct";
    let contents = "Rust:\nsafe, fast, productive.\nPick three.\nDuct tape.";
    let results = search(query, contents);
    assert!(!results.contains(&"Duct tape.".to_string()));
}

#[test]
fn case_insensitive_search_folds_both_sides() {
    let query = "rUsT";
    let contents = "Rust:\nsafe, fast, productive.\nPick three.\nTrust me.";
    assert_eq!(
        search_case_insensitive(query, contents),
        vec!["Rust:", "Trust me."]
    );
}

#[test]
fn no_match_gives_no_lines() {
    assert_eq!(search("monomorphization", "one\ntwo\nthree"), Vec::<String>::new());
}

#[test]
fn empty_query_matches_every_line() {
    assert_eq!(search("", "one\ntwo"), vec!["one", "two"]);
}

#[test]
fn trailing_newline_adds_no_empty_line() {
    assert_eq!(search("", "one\ntwo\n"), vec!["one", "two"]);
}

#[test]
fn carriage_return_line_endings_are_stripped() {
    assert_eq!(search("a", "a\r\nba\nc\r\n"), vec!["a", "ba"]);
}

#[test]
fn empty_contents_has_no_lines() {
    assert_eq!(search("x", ""), Vec::<String>::new());
    assert_eq!(search("", ""), Vec::<String>::new());
}

#[test]
fn contains_str_finds_inner_and_edge_occurrences() {
    assert!(contains_str("hello world", "hello"));
    assert!(contains_str("hello world", "world"));
    assert!(contains_str("hello world", "o w"));
    assert!(contains_str("hello world", ""));
    assert!(!contains_str("hello world", "worlds"));
    assert!(!contains_str("", "a"));
}

#[test]
fn config_build_takes_query_then_path() {
    let args = vec![
        "minigrep".to_string(),
        "needle".to_string(),
        "haystack.txt".to_string(),
    ];
    let config = Config::build(&args, false).unwrap();
    assert_eq!(config.query, "needle");
    assert_eq!(config.file_path, "haystack.txt");
    assert!(!config.ignore_case);
}

#[test]
fn run_search_honours_the_case_switch() {
    let contents = "Rust:\nTrust me.";
    let sensitive = Config {
        query: "rust".to_string(),
        file_path: "poem.txt".to_string(),
        ignore_case: false,
    };
    let insensitive = Config {
        query: "rust".to_string(),
        file_path: "poem.txt".to_string(),
        ignore_case: true,
    };
    assert_eq!(run_search(&sensitive, contents), vec!["Trust me."]);
    assert_eq!(run_search(&insensitive, contents), vec!["Rust:", "Trust me."]);
}
