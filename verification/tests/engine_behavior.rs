use rulesort::engine::{decide, file_matches, select_files, RuleDecision};
use rulesort::rule::Rule;

fn rule(name: &str, ext: &str, enabled: bool) -> Rule {
    Rule {
        name: String::from(name),
        input_dir: String::from("/in"),
        output_dir: String::from("/out"),
        ext: String::from(ext),
        enabled,
    }
}

#[test]
fn matching_is_on_the_token_after_the_last_dot() {
    assert!(file_matches("a.txt", "txt"));
    assert!(file_matches("archive.tar.gz", "gz"));
    assert!(file_matches("noise.", ""));
    assert!(file_matches(".txt", "txt"));
}

#[test]
fn matching_is_case_sensitive() {
    assert!(!file_matches("b.TXT", "txt"));
    assert!(!file_matches("b.txt", "TXT"));
}

#[test]
fn multi_segment_extensions_never_match() {
    assert!(!file_matches("archive.tar.gz", "tar.gz"));
}

#[test]
fn a_name_without_a_dot_never_matches() {
    assert!(!file_matches("d", "d"));
    assert!(!file_matches("d", ""));
}

#[test]
fn no_dot_stripping_on_the_extension() {
    assert!(!file_matches("a.txt", ".txt"));
}

#[test]
fn listing_selection_scenario() {
    let names = vec![
        String::from("a.txt"),
        String::from("b.TXT"),
        String::from("c.tar.gz"),
        String::from("d"),
    ];
    let chosen = select_files(&names, "txt");
    assert_eq!(chosen.len(), 1);
    assert_eq!(chosen[0], "a.txt");
}

#[test]
fn selection_keeps_listing_order() {
    let names = vec![
        String::from("z.txt"),
        String::from("skip.pdf"),
        String::from("a.txt"),
    ];
    let chosen = select_files(&names, "txt");
    assert_eq!(chosen.len(), 2);
    assert_eq!(chosen[0], "z.txt");
    assert_eq!(chosen[1], "a.txt");
}

#[test]
fn disabled_rule_is_skipped_whatever_the_directories_say() {
    let r = rule("off", "txt", false);
    assert_eq!(decide(&r, true, true), RuleDecision::SkipDisabled);
    assert_eq!(decide(&r, false, true), RuleDecision::SkipDisabled);
    assert_eq!(decide(&r, true, false), RuleDecision::SkipDisabled);
    assert_eq!(decide(&r, false, false), RuleDecision::SkipDisabled);
}

#[test]
fn missing_directory_skips_without_error() {
    let r = rule("on", "txt", true);
    assert_eq!(decide(&r, false, true), RuleDecision::SkipMissingDir);
    assert_eq!(decide(&r, true, false), RuleDecision::SkipMissingDir);
    assert_eq!(decide(&r, false, false), RuleDecision::SkipMissingDir);
}

#[test]
fn enabled_rule_with_both_directories_scans() {
    let r = rule("on", "txt", true);
    assert_eq!(decide(&r, true, true), RuleDecision::Scan);
}
