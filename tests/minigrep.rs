use rust_book::minigrep::{contains, split_lines};
use rust_book::{search, search_case_insensitive, Config};

#[test]
fn case_sensitive() {
    let query = "duct";
    let contents = "\
            Rust:
            safe, fast, productive.
            Pick three.
            Duct tape.";
    assert_eq!(vec!["safe, fast, productive."], search(query, contents));
}

#[test]
fn case_insensitive() {
    let query = "rUsT";
    let contents = "\
            Rust:
            safe, fast, productive.
            Trust me.";
    assert_eq!(
        vec!["Rust:", "Trust me."],
        search_case_insensitive(query, contents)
    );
}

#[test]
fn search_on_empty_contents_finds_nothing() {
    assert!(search("a", "").is_empty());
    assert!(search_case_insensitive("a", "").is_empty());
}

#[test]
fn empty_query_matches_every_line() {
    assert_eq!(vec!["a", "b", ""], search("", " a\nb \n\n"));
}

#[test]
fn search_is_case_sensitive() {
    assert!(search("rust", "Rust").is_empty());
}

#[test]
fn case_insensitive_search_lowercases_lines() {
    assert_eq!(vec!["ÉTÉ"], search_case_insensitive("été", "ÉTÉ\nhiver"));
}

#[test]
fn split_lines_drops_line_endings() {
    assert_eq!(vec!["a", "b", "", "c\r"], split_lines("a\r\nb\n\nc\r"));
    assert_eq!(vec!["x"], split_lines("x\n"));
    assert!(split_lines("").is_empty());
    assert_eq!(vec![""], split_lines("\n"));
}

#[test]
fn contains_finds_substrings() {
    assert!(contains("productive", "duct"));
    assert!(contains("abc", ""));
    assert!(contains("abc", "abc"));
    assert!(!contains("ab", "abc"));
    assert!(!contains("abd", "bc"));
}

#[test]
fn search_trims_unicode_white_space() {
    assert_eq!(vec!["x y"], search("x", "\u{3000}\tx y\u{a0} "));
}

fn args(v: &[&str]) -> Vec<String> {
    v.iter().map(|s| s.to_string()).collect()
}

#[test]
fn config_needs_a_query() {
    assert_eq!(Config::new(args(&["prog"]), false).err(), Some("Didn't get a query string"));
    assert_eq!(Config::new(args(&[]), false).err(), Some("Didn't get a query string"));
}

#[test]
fn config_needs_a_file_name() {
    assert_eq!(Config::new(args(&["prog", "q"]), false).err(), Some("Didn't get a file name"));
}

#[test]
fn config_reads_query_and_file_name() {
    let c = Config::new(args(&["prog", "to", "poem.txt", "extra"]), false).unwrap();
    assert_eq!(c.query, "to");
    assert_eq!(c.filename, "poem.txt");
    assert!(c.case_sensitive);
    let c = Config::new(args(&["prog", "to", "poem.txt"]), true).unwrap();
    assert!(!c.case_sensitive);
}

#[test]
fn config_selects_the_search() {
    let contents = "Rust:\nTrust me.";
    let c = Config::new(args(&["prog", "rUsT", "f"]), false).unwrap();
    assert!(c.matching_lines(contents).is_empty());
    let c = Config::new(args(&["prog", "rUsT", "f"]), true).unwrap();
    assert_eq!(vec!["Rust:", "Trust me."], c.matching_lines(contents));
}
