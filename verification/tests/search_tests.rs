use minigrep::{render_matches, search, search_case_insensitive};

#[test]
fn case_sensitive_one_result() {
    let query = "duct";
    let contents = "\
Rust:
safe, fast, productive.
Pick three.";

    assert_eq!(
        vec!["2: safe, fast, productive."],
        render_matches(&search(contents, query))
    );
}

#[test]
fn case_sensitive_no_result() {
    let query = "nothere";
    let contents = "\
Rust:
safe, fast, productive.
Pick three.";

    assert_eq!(0, search(contents, query).len());
}

#[test]
fn case_sensitive_all_result() {
    let query = "a";
    let contents = "\
abicus
anteater
atlas";

    assert_eq!(
        vec!["1: abicus", "2: anteater", "3: atlas"],
        render_matches(&search(contents, query))
    );
}

#[test]
fn case_insensitive_one_result() {
    let query = "DuCt";
    let contents = "\
Rust:
safe, fast, productive.
Pick three.";

    assert_eq!(
        vec!["2: safe, fast, productive."],
        render_matches(&search_case_insensitive(contents, query))
    );
}

#[test]
fn case_insensitive_no_result() {
    let query = "NO";
    let contents = "\
Rust:
safe, fast, productive.
Pick three.";

    assert_eq!(0, search_case_insensitive(contents, query).len());
}

#[test]
fn case_insensitive_all_result() {
    let query = "A";
    let contents = "\
abicus
anteater
atlas";

    assert_eq!(
        vec!["1: abicus", "2: anteater", "3: atlas"],
        render_matches(&search_case_insensitive(contents, query))
    );
}
