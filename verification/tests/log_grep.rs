use exercises::log_grep::{
    count_matches, count_selected, keep_selected, line_flags, line_selected, select_lines,
    LinePattern,
};
use exercises::text::split_lines;

fn sample_lines() -> Vec<String> {
    split_lines(
        "INFO request started\nERROR connection failed\nINFO request finished\nERROR timeout\n200 OK\n",
    )
}

fn pattern(text: &str) -> LinePattern {
    match LinePattern::new(text) {
        Ok(p) => p,
        Err(_) => panic!("pattern should compile"),
    }
}

#[test]
fn counts_matching_lines() {
    let re = pattern("ERROR");
    let input = sample_lines();
    assert_eq!(count_matches(&input, &re, false), 2);
}

#[test]
fn counts_inverted_lines() {
    let re = pattern("200");
    let input = sample_lines();
    assert_eq!(count_matches(&input, &re, true), 4);
}

#[test]
fn print_matches_filters_correctly() {
    let re = pattern("^INFO");
    let input = sample_lines();
    let output = select_lines(&input, &re, false);
    assert_eq!(output, vec!["INFO request started", "INFO request finished"]);
}

#[test]
fn regex_rejects_invalid_pattern() {
    let result = LinePattern::new("(");
    assert!(result.is_err());
}

#[test]
fn inverted_and_plain_counts_cover_all_lines() {
    let input = sample_lines();
    for p in ["ERROR", "INFO", "^200", "nothing", ""].iter() {
        let re = pattern(p);
        let plain = count_matches(&input, &re, false);
        let inverted = count_matches(&input, &re, true);
        assert_eq!(plain + inverted, input.len());
        assert_eq!(select_lines(&input, &re, false).len(), plain);
        assert_eq!(select_lines(&input, &re, true).len(), inverted);
    }
}

#[test]
fn selection_from_flags() {
    let flags = vec![true, false, true];
    assert_eq!(count_selected(&flags, false), 2);
    assert_eq!(count_selected(&flags, true), 1);
    let lines = vec!["a".to_string(), "b".to_string(), "c".to_string()];
    assert_eq!(keep_selected(&lines, &flags, false), vec!["a", "c"]);
    assert_eq!(keep_selected(&lines, &flags, true), vec!["b"]);
}

#[test]
fn flags_follow_the_regex() {
    let re = pattern("o+k");
    let lines = vec!["book".to_string(), "bk".to_string(), "OK".to_string()];
    assert_eq!(line_flags(&re, &lines), vec![true, false, false]);
    assert!(line_selected(&re, "look", false));
    assert!(!line_selected(&re, "look", true));
    assert!(line_selected(&re, "nope", true));
}
