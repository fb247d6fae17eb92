use minigrep::{
    ansi_bold, ansi_reset, highlight_case_insensitive, highlight_case_sensitive, highlight_line,
};

#[test]
fn highlight_case_sensitive_output() {
    let line = "Pick three.";
    let query = "Pick";

    let highlighted = highlight_line(line, query, false, None);
    assert_eq!(highlighted, format!("{}Pick{} three.", ansi_bold(), ansi_reset()));
}

#[test]
fn highlight_case_insensitive_output() {
    let line = "Rust is trustworthy";
    let query = "rust";
    let highlighted = highlight_line(line, query, true, Some("rust"));

    assert_eq!(
        highlighted,
        format!(
            "{}Rust{} is t{}rust{}worthy",
            ansi_bold(),
            ansi_reset(),
            ansi_bold(),
            ansi_reset()
        )
    );
}

#[test]
fn empty_query_leaves_line_unchanged() {
    assert_eq!(highlight_line("Pick three.", "", false, None), "Pick three.");
    assert_eq!(highlight_line("Pick three.", "", true, None), "Pick three.");
    assert_eq!(highlight_line("", "", true, None), "");
}

#[test]
fn insensitive_highlight_without_memoized_query() {
    let highlighted = highlight_line("Rust is trustworthy", "RUST", true, None);
    assert_eq!(
        highlighted,
        format!(
            "{}Rust{} is t{}rust{}worthy",
            ansi_bold(),
            ansi_reset(),
            ansi_bold(),
            ansi_reset()
        )
    );
}

#[test]
fn occurrences_do_not_overlap() {
    let highlighted = highlight_case_sensitive("aaa", "aa");
    assert_eq!(highlighted, format!("{}aa{}a", ansi_bold(), ansi_reset()));
}

#[test]
fn adjacent_occurrences_each_wrapped() {
    let highlighted = highlight_case_sensitive("abab", "ab");
    assert_eq!(
        highlighted,
        format!("{}ab{}{}ab{}", ansi_bold(), ansi_reset(), ansi_bold(), ansi_reset())
    );
}

#[test]
fn insensitive_helper_wraps_original_case() {
    let highlighted = highlight_case_insensitive("AbCd", "bc");
    assert_eq!(highlighted, format!("A{}bC{}d", ansi_bold(), ansi_reset()));
}

#[test]
fn stripping_markers_restores_the_line() {
    let cases = [
        ("Rust is trustworthy", "rust", true),
        ("Pick three.", "Pick", false),
        ("no match here", "zzz", false),
        ("aaa", "aa", false),
        ("", "x", true),
    ];
    for (line, query, ignore_case) in cases {
        let highlighted = highlight_line(line, query, ignore_case, None);
        let stripped = highlighted.replace(ansi_bold(), "").replace(ansi_reset(), "");
        assert_eq!(stripped, line);
    }
}
