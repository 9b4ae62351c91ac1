use minigrep::config::{case_sensitive_from, default_case_sensitive};
use minigrep::line_filter::select_lines;
use minigrep::search;
use minigrep::Config;

fn strings(v: &[&str]) -> Vec<String> {
    v.iter().map(|s| s.to_string()).collect()
}

#[test]
fn case_sensitive() {
    let query = "Duct";
    let content = "Rust:\nsafe, fast, productive.\nPick three.\nPick three.\nDuct tape.";
    assert_eq!(vec!["Duct tape."], search(query, content, true));
}

#[test]
fn case_insensitive() {
    let query = "DuCt";
    let content = "Rust:\nsafe, fast, productive.\nPick three.";
    assert_eq!(
        vec!["safe, fast, productive."],
        search(query, content, false)
    );
}

#[test]
fn case_sensitive_keeps_every_containing_line_in_order() {
    let content = "Pick one.\nRust:\nPick three.\npick two.\nPick three.";
    assert_eq!(
        vec!["Pick one.", "Pick three.", "Pick three."],
        search("Pick", content, true)
    );
}

#[test]
fn query_absent_gives_nothing() {
    let content = "Rust:\nsafe, fast, productive.";
    assert!(search("slow", content, true).is_empty());
    assert!(search("SLOW", content, false).is_empty());
}

#[test]
fn ignoring_case_matches_search_of_lowercased_text() {
    let content = "Rust:\nSafe, Fast, Productive.\nPICK THREE.\nduct tape.";
    let query = "PiCk";
    let found: Vec<String> = search(query, content, false)
        .iter()
        .map(|l| l.to_lowercase())
        .collect();
    let folded_content = content.to_lowercase();
    let folded_query = query.to_lowercase();
    let expected: Vec<&str> = search(&folded_query, &folded_content, true);
    assert_eq!(expected, found);
    assert_eq!(vec!["PICK THREE."], search(query, content, false));
}

#[test]
fn empty_query_keeps_every_line() {
    let content = "Rust:\n\nPick three.\nDuct tape.";
    let all = vec!["Rust:", "", "Pick three.", "Duct tape."];
    assert_eq!(all, search("", content, true));
    assert_eq!(all, search("", content, false));
}

#[test]
fn empty_content_has_no_lines() {
    assert!(search("", "", true).is_empty());
    assert!(search("", "", false).is_empty());
}

#[test]
fn line_endings_are_stripped() {
    let content = "one fish\r\ntwo fish\nred\r\nblue fish\n";
    assert_eq!(
        vec!["one fish", "two fish", "blue fish"],
        search("fish", content, true)
    );
    assert_eq!(vec!["last\r"], search("last", "first\nlast\r", true));
}

#[test]
fn select_lines_uses_the_keys() {
    let lines = vec!["Alpha", "Beta", "Gamma"];
    let keys = strings(&["xx", "needle here", "needle"]);
    assert_eq!(vec!["Beta", "Gamma"], select_lines(&lines, &keys, "needle"));
    assert_eq!(lines.clone(), select_lines(&lines, &keys, ""));
}

#[test]
fn config_from_two_positional_arguments() {
    let args = strings(&["prog", "hello", "file.txt"]);
    let config = Config::new(&args, None).unwrap();
    assert_eq!("hello", config.query());
    assert_eq!("file.txt", config.filename());
    assert!(config.case_sensitive());
}

#[test]
fn config_flag_overrides_environment() {
    let args = strings(&["prog", "--case-insensitive", "hello", "file.txt"]);
    for env in [None, Some("1"), Some("0"), Some("not a number")] {
        let config = Config::new(&args, env).unwrap();
        assert_eq!("hello", config.query());
        assert_eq!("file.txt", config.filename());
        assert!(!config.case_sensitive());
    }
}

#[test]
fn config_too_few_arguments() {
    let args = strings(&["prog", "hello"]);
    assert_eq!(Err("Not enough arguments"), Config::new(&args, None).map(|_| ()));
    let none: Vec<String> = Vec::new();
    assert_eq!(Err("Not enough arguments"), Config::new(&none, Some("0")).map(|_| ()));
}

#[test]
fn config_environment_sets_default() {
    let args = strings(&["prog", "hello", "file.txt"]);
    assert!(!Config::new(&args, Some("0")).unwrap().case_sensitive());
    assert!(Config::new(&args, Some("7")).unwrap().case_sensitive());
    assert!(Config::new(&args, Some("-3")).unwrap().case_sensitive());
    assert!(Config::new(&args, Some("yes")).unwrap().case_sensitive());
}

#[test]
fn config_flag_needs_four_arguments() {
    let args = strings(&["prog", "--case-insensitive", "file.txt"]);
    let config = Config::new(&args, None).unwrap();
    assert_eq!("--case-insensitive", config.query());
    assert_eq!("file.txt", config.filename());
    assert!(config.case_sensitive());
}

#[test]
fn config_only_last_two_arguments_name_query_and_file() {
    let args = strings(&["prog", "--other", "ignored", "hello", "file.txt"]);
    let config = Config::new(&args, None).unwrap();
    assert_eq!("hello", config.query());
    assert_eq!("file.txt", config.filename());
    assert!(config.case_sensitive());
}

#[test]
fn case_sensitivity_from_setting() {
    assert!(!case_sensitive_from(Some(0)));
    assert!(case_sensitive_from(Some(1)));
    assert!(case_sensitive_from(Some(-1)));
    assert!(case_sensitive_from(None));
    assert!(!default_case_sensitive(Some("0")));
    assert!(default_case_sensitive(Some("12")));
    assert!(default_case_sensitive(Some("1.5")));
    assert!(default_case_sensitive(None));
}
