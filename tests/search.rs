use minigrep::{contains_chars, search, search_case_insensitive};

#[test]
fn case_sensitive_finds_one_line() {
    let contents = "Rust:\nsafe, fast, productive.\nPick three.";
    assert_eq!(search("duct", contents), vec!["safe, fast, productive."]);
}

#[test]
fn case_sensitive_skips_other_case() {
    let contents = "Rust:\nsafe, fast, productive.\nPick three.\nDuct tape.";
    assert_eq!(search("duct", contents), vec!["safe, fast, productive."]);
}

#[test]
fn case_insensitive_finds_both_lines() {
    assert_eq!(search_case_insensitive("rUsT", "Rust:\nTrust me."), vec!["Rust:", "Trust me."]);
}

#[test]
fn case_insensitive_returns_lines_unchanged() {
    let found = search_case_insensitive("HELLO", "say Hello\nbye");
    assert_eq!(found, vec!["say Hello"]);
}

#[test]
fn empty_text_gives_nothing() {
    assert!(search("anything", "").is_empty());
    assert!(search("", "").is_empty());
    assert!(search_case_insensitive("x", "").is_empty());
}

#[test]
fn empty_query_gives_every_line() {
    let contents = "one\ntwo\n\nthree";
    assert_eq!(search("", contents), vec!["one", "two", "", "three"]);
}

#[test]
fn repeated_calls_agree() {
    let contents = "alpha\nbeta\nAlphabet";
    assert_eq!(search("lph", contents), search("lph", contents));
    assert_eq!(
        search_case_insensitive("ALPH", contents),
        search_case_insensitive("ALPH", contents)
    );
}

#[test]
fn case_sensitive_matches_are_among_insensitive_ones() {
    let contents = "Rust:\nrust belt\nTrust me.\nnothing";
    let exact = search("rust", contents);
    let folded = search_case_insensitive("rust", contents);
    assert_eq!(exact, vec!["rust belt", "Trust me."]);
    for line in exact {
        assert!(folded.contains(&line));
    }
}

#[test]
fn no_match_gives_empty_result() {
    assert!(search("zzz", "abc\ndef").is_empty());
    assert!(search_case_insensitive("ZZZ", "abc\ndef").is_empty());
}

#[test]
fn crlf_line_endings_are_dropped() {
    assert_eq!(search("a", "a1\r\na2\r\nb"), vec!["a1", "a2"]);
}

#[test]
fn final_newline_adds_no_empty_line() {
    assert_eq!(search("", "x\ny\n"), vec!["x", "y"]);
}

#[test]
fn bare_carriage_return_at_the_end_stays() {
    assert_eq!(search("", "x\ny\r"), vec!["x", "y\r"]);
}

#[test]
fn duplicate_lines_are_all_kept() {
    assert_eq!(search("a", "a\nb\na"), vec!["a", "a"]);
}

#[test]
fn non_ascii_lines_are_sliced_by_character() {
    assert_eq!(search("ö", "grün\nschön\nrot"), vec!["schön"]);
    assert_eq!(search_case_insensitive("ÄPFEL", "äpfel\nBirnen"), vec!["äpfel"]);
}

#[test]
fn contains_chars_checks_contiguous_parts() {
    let text: Vec<char> = "productive".chars().collect();
    let duct: Vec<char> = "duct".chars().collect();
    let dt: Vec<char> = "dt".chars().collect();
    let longer: Vec<char> = "productive!".chars().collect();
    assert!(contains_chars(&text, &duct));
    assert!(!contains_chars(&text, &dt));
    assert!(!contains_chars(&text, &longer));
    assert!(contains_chars(&text, &[]));
    assert!(contains_chars(&[], &[]));
    assert!(!contains_chars(&[], &['a']));
}
