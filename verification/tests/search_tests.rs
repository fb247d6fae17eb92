use minigrep::{search, search_case_insensitive, search_with_config};

#[test]
fn case_sensitive() {
    let query = "ick";
    let contents = "\
Rust:
safe, fast, productive.
Pick three.
Duct tape.";

    assert_eq!(vec!["Pick three."], search(query, contents));
}

#[test]
fn case_insensitive() {
    let query = "rUst";
    let contents = "\
Rust:
safe, fast, productive.
Pick three.
Trust me.";

    assert_eq!(
        vec!["Rust:", "Trust me."],
        search_case_insensitive(query, contents)
    );
}

#[test]
fn line_numbers() {
    let query = "Pick";
    let contents = "\
Rust:
safe, fast, productive.
Pick three.
Duct tape.";

    let matches = search_with_config(query, contents, false);
    assert_eq!(matches.len(), 1);
    let hit = &matches[0];
    assert_eq!(hit.line_number, 3);
    assert_eq!(hit.line, "Pick three.");
}

#[test]
fn insensitive_match_on_first_line() {
    let contents = "\
Rust:
safe, fast, productive.
Pick three.
Duct tape.";

    let matches = search_with_config("rUst", contents, true);
    assert_eq!(matches.len(), 1);
    assert_eq!(matches[0].line_number, 1);
    assert_eq!(matches[0].line, "Rust:");
}

#[test]
fn empty_text_yields_no_matches() {
    assert!(search("anything", "").is_empty());
    assert!(search_case_insensitive("anything", "").is_empty());
    assert!(search_with_config("", "", false).is_empty());
    assert!(search_with_config("", "", true).is_empty());
}

#[test]
fn empty_query_matches_every_line() {
    assert_eq!(vec!["a", "b"], search("", "a\nb"));
    assert_eq!(vec!["a", ""], search("", "a\n\n"));
}

#[test]
fn one_entry_per_line_even_with_repeats() {
    let matches = search_with_config("aa", "aaaa\nxx\naa", false);
    assert_eq!(matches.len(), 2);
    assert_eq!(matches[0].line_number, 1);
    assert_eq!(matches[0].line, "aaaa");
    assert_eq!(matches[1].line_number, 3);
    assert_eq!(matches[1].line, "aa");
}

#[test]
fn trailing_newline_does_not_add_a_line() {
    assert_eq!(vec!["one"], search("one", "one\n"));
    assert_eq!(vec!["one"], search("one", "one"));
}

#[test]
fn insensitive_results_cover_sensitive_results() {
    let contents = "Rust here\nrust there\nnothing\nRUST loud";
    let sensitive = search("rust", contents);
    let insensitive = search_case_insensitive("rust", contents);
    assert_eq!(sensitive, vec!["rust there"]);
    assert_eq!(insensitive, vec!["Rust here", "rust there", "RUST loud"]);
    for line in &sensitive {
        assert!(insensitive.contains(line));
    }
}
