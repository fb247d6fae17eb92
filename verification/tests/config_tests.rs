use minigrep::Config;

fn args_of(parts: &[&str]) -> Vec<String> {
    parts.iter().map(|s| s.to_string()).collect()
}

#[test]
fn config_parses_flags() {
    let args = vec![
        "minigrep",
        "--ignore-case",
        "--line-number",
        "pattern",
        "file.txt",
    ]
    .into_iter()
    .map(String::from)
    .collect();

    let config = Config::build_with_env(args, false).expect("should parse flags");
    assert!(config.ignore_case);
    assert!(config.show_line_numbers);
    assert_eq!(config.query, "pattern");
    assert_eq!(config.file_path, "file.txt");
}

#[test]
fn short_flags_and_env_default() {
    let config = Config::build_with_env(args_of(&["prog", "-n", "q", "f"]), true)
        .expect("should parse");
    assert!(config.ignore_case);
    assert!(config.show_line_numbers);

    let config = Config::build_with_env(args_of(&["prog", "-i", "q", "f"]), false)
        .expect("should parse");
    assert!(config.ignore_case);

    let config = Config::build_with_env(args_of(&["prog", "--line-numbers", "q", "f"]), false)
        .expect("should parse");
    assert!(config.show_line_numbers);
}

#[test]
fn no_ignore_case_overrides_env_default() {
    let config = Config::build_with_env(args_of(&["prog", "-I", "q", "f"]), true)
        .expect("should parse");
    assert!(!config.ignore_case);

    let config = Config::build_with_env(args_of(&["prog", "--no-ignore-case", "q", "f"]), true)
        .expect("should parse");
    assert!(!config.ignore_case);
}

#[test]
fn double_dash_ends_flag_parsing() {
    let config = Config::build_with_env(args_of(&["prog", "--", "-i", "file"]), false)
        .expect("should parse");
    assert!(!config.ignore_case);
    assert_eq!(config.query, "-i");
    assert_eq!(config.file_path, "file");
}

#[test]
fn help_returns_usage() {
    let err = Config::build_with_env(args_of(&["prog", "-h"]), false).unwrap_err();
    assert_eq!(err, Config::usage());
    let err = Config::build_with_env(args_of(&["prog", "--help", "q", "f"]), false).unwrap_err();
    assert_eq!(err, Config::usage());
}

#[test]
fn missing_query_is_an_error() {
    let err = Config::build_with_env(args_of(&["prog"]), false).unwrap_err();
    assert_eq!(err, format!("Missing search query.\n\n{}", Config::usage()));
}

#[test]
fn missing_file_path_is_an_error() {
    let err = Config::build_with_env(args_of(&["prog", "q"]), false).unwrap_err();
    assert_eq!(err, format!("Missing file path.\n\n{}", Config::usage()));
}

#[test]
fn extra_argument_is_an_error() {
    let err = Config::build_with_env(args_of(&["prog", "a", "b", "c"]), false).unwrap_err();
    assert_eq!(
        err,
        format!("Unexpected extra argument 'c'.\n\n{}", Config::usage())
    );
    let err =
        Config::build_with_env(args_of(&["prog", "--", "a", "b", "c"]), false).unwrap_err();
    assert_eq!(
        err,
        format!("Unexpected extra argument 'c'.\n\n{}", Config::usage())
    );
}

#[test]
fn usage_names_every_flag() {
    let usage = Config::usage();
    assert!(usage.contains("--ignore-case"));
    assert!(usage.contains("--no-ignore-case"));
    assert!(usage.contains("--line-number"));
    assert!(usage.contains("<query> <file_path>"));
}
