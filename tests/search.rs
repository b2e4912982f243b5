use minigrep::text::lower_str;
use minigrep::{run_search, search, search_case_insensitive, select_by_keys, Config};

#[test]
fn case_sensitive() {
    let query = "duct";
    let contents = "\
Rust:
safe, fast, productive.
Pick three.
Duct tape.";

    assert_eq!(vec!["safe, fast, productive."], search(query, contents));
}

#[test]
fn case_insensitive() {
    let query = "rUsT";
    let contents = "\
Rust:
safe, fast, productive.
Pick three.
Trust me.";

    assert_eq!(
        vec!["Rust:", "Trust me."],
        search_case_insensitive(query, contents)
    );
}

#[test]
fn absent_query_gives_empty_result() {
    let contents = "Rust:\nsafe, fast, productive.\nPick three.\nDuct tape.";
    assert!(search("zzz", contents).is_empty());
    assert!(search_case_insensitive("zzz", contents).is_empty());
}

#[test]
fn exact_matches_are_among_case_insensitive_matches() {
    let contents = "Rust:\nrust is fast\nTrust me.\nno match";
    let exact = search("rust", contents);
    let loose = search_case_insensitive("rust", contents);
    assert_eq!(vec!["rust is fast", "Trust me."], exact);
    assert_eq!(vec!["Rust:", "rust is fast", "Trust me."], loose);
    for line in &exact {
        assert!(loose.contains(line));
    }
}

#[test]
fn search_twice_gives_same_lines() {
    let contents = "one\ntwo\nthree\ntwo again";
    assert_eq!(search("two", contents), search("two", contents));
    assert_eq!(
        search_case_insensitive("TWO", contents),
        search_case_insensitive("TWO", contents)
    );
}

#[test]
fn matches_keep_their_order_and_repeat() {
    let contents = "b x\na x\nb x\nc";
    assert_eq!(vec!["b x", "a x", "b x"], search("x", contents));
}

#[test]
fn line_endings_are_removed() {
    let contents = "alpha\r\nbeta\n\ngamma\n";
    assert_eq!(vec!["alpha", "beta", "", "gamma"], search("", contents));
    assert_eq!(vec!["alpha"], search("ha", contents));
}

#[test]
fn trailing_carriage_return_stays_in_last_line() {
    assert_eq!(vec!["end\r"], search("end", "end\r"));
}

#[test]
fn empty_contents_have_no_lines() {
    assert!(search("", "").is_empty());
}

#[test]
fn run_search_follows_case_setting() {
    let contents = "Rust:\nTrust me.\nrusty";
    let exact = Config {
        query: "Rust".to_string(),
        file_path: "poem.txt".to_string(),
        ignore_case: false,
    };
    assert_eq!(vec!["Rust:"], run_search(&exact, contents));
    let loose = Config {
        query: "Rust".to_string(),
        file_path: "poem.txt".to_string(),
        ignore_case: true,
    };
    assert_eq!(vec!["Rust:", "Trust me.", "rusty"], run_search(&loose, contents));
}

#[test]
fn non_ascii_letters_are_lowered() {
    assert_eq!(vec!["ÄPFEL und Birnen"], search_case_insensitive("äpfel", "ÄPFEL und Birnen\nKirschen"));
}

#[test]
fn select_by_keys_keeps_lines_whose_keys_hold_needle() {
    let lines = vec!["Rust:", "Pick three.", "Trust me."];
    let keys = vec!["rust:".to_string(), "pick three.".to_string(), "trust me.".to_string()];
    assert_eq!(vec!["Rust:", "Trust me."], select_by_keys(&lines, &keys, "rust"));
    assert!(select_by_keys(&lines, &keys, "Rust").is_empty());
}

#[test]
fn final_sigma_line_is_kept_ignoring_case() {
    assert_eq!(vec!["ΑΣ"], search("Σ", "ΑΣ"));
    assert_eq!(vec!["ΑΣ"], search_case_insensitive("Σ", "ΑΣ"));
    assert_eq!(vec!["ΟΔΟΣ end"], search_case_insensitive("οσ", "ΟΔΟΣ end\nother"));
}

#[test]
fn absent_query_ignoring_case_gives_empty_result() {
    let contents = "ABC\nZZy\nzz z";
    assert!(search_case_insensitive("ZZZ", contents).is_empty());
}

#[test]
fn lower_str_lowers_each_character() {
    assert_eq!("ασ", lower_str("ΑΣ"));
    assert_eq!("rust: trust me.", lower_str("Rust: TRUST me."));
    assert_eq!("", lower_str(""));
}
