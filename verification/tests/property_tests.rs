use minigrep::{render_matches, run, search, search_case_insensitive, Config, MatchRecord};

#[test]
fn sensitive_search_reports_only_containing_lines() {
    let contents = "one\ntwo\nthree\ntwenty-two";
    let found = search(contents, "two");
    assert_eq!(
        vec!["2: two", "4: twenty-two"],
        render_matches(&found)
    );
    for record in &found {
        assert!(record.line_text.contains("two"));
    }
}

#[test]
fn insensitive_result_covers_the_sensitive_one() {
    let contents = "Duct tape\nduct\nnothing";
    let sensitive = search(contents, "duct");
    let insensitive = search_case_insensitive(contents, "duct");
    assert_eq!(vec!["2: duct"], render_matches(&sensitive));
    assert_eq!(vec!["1: Duct tape", "2: duct"], render_matches(&insensitive));
    for record in &sensitive {
        assert!(insensitive.contains(record));
    }
}

#[test]
fn empty_needle_matches_every_line_in_both_modes() {
    let contents = "alpha\nbeta\ngamma";
    let expected = vec!["1: alpha", "2: beta", "3: gamma"];
    assert_eq!(expected, render_matches(&search(contents, "")));
    assert_eq!(expected, render_matches(&search_case_insensitive(contents, "")));
}

#[test]
fn identical_inputs_yield_identical_results() {
    let contents = "Rust:\nsafe, fast, productive.\nPick three.";
    assert_eq!(search(contents, "t"), search(contents, "t"));
    assert_eq!(
        search_case_insensitive(contents, "T"),
        search_case_insensitive(contents, "T")
    );
}

#[test]
fn trailing_line_feed_yields_a_final_empty_line() {
    let contents = "solo\n";
    assert_eq!(vec!["1: solo", "2: "], render_matches(&search(contents, "")));
}

#[test]
fn carriage_returns_stay_in_the_line_text() {
    let contents = "one\r\ntwo\r";
    let found = search(contents, "one");
    assert_eq!(1, found.len());
    assert_eq!("one\r", found[0].line_text);
    assert_eq!(1, found[0].line_number);
}

#[test]
fn lowercasing_reaches_the_line_not_only_the_needle() {
    // Fails if case folding left its argument unchanged: the line contains
    // the needle only after the line itself is lowercased.
    let contents = "PRODUCTIVE";
    assert_eq!(
        vec!["1: PRODUCTIVE"],
        render_matches(&search_case_insensitive(contents, "duct"))
    );
    assert_eq!(0, search(contents, "duct").len());
}

#[test]
fn line_numbers_render_in_full_decimal() {
    let contents = "a\nb\nc\nd\ne\nf\ng\nh\ni\nj\nk\nneedle here";
    assert_eq!(vec!["12: needle here"], render_matches(&search(contents, "needle")));
    let record = MatchRecord {
        line_number: 205,
        line_text: "text".to_string(),
    };
    assert_eq!("205: text", record.render());
}

#[test]
fn run_follows_the_configured_mode() {
    let contents = "Rust:\nsafe, fast, productive.\nPick three.";
    let sensitive = Config::new(
        vec!["DuCt".to_string(), "poem.txt".to_string()],
        false,
    )
    .unwrap();
    assert_eq!(0, run(&sensitive, contents).len());
    let insensitive = Config::new(
        vec!["DuCt".to_string(), "poem.txt".to_string()],
        true,
    )
    .unwrap();
    assert_eq!(
        vec!["2: safe, fast, productive."],
        render_matches(&run(&insensitive, contents))
    );
}

#[test]
fn no_matches_leaves_nothing_to_report() {
    let found = search("Rust:\nsafe, fast, productive.\nPick three.", "nothere");
    assert!(found.is_empty());
    assert!(render_matches(&found).is_empty());
}
