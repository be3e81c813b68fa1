use rulesort::list::RuleList;
use rulesort::report::RuleReport;
use rulesort::rule::Rule;

fn rule(name: &str, enabled: bool) -> Rule {
    Rule {
        name: String::from(name),
        input_dir: String::from("/in"),
        output_dir: String::from("/out"),
        ext: String::from("txt"),
        enabled,
    }
}

#[test]
fn partial_failure_keeps_both_outcomes() {
    let mut report = RuleReport::new(String::from("docs"));
    report.record_failed(String::from("first.txt"));
    report.record_copied(String::from("second.txt"));
    assert_eq!(report.error_count(), 1);
    assert_eq!(report.files_copied(), 1);
    assert_eq!(report.failed.len(), 1);
    assert_eq!(report.failed[0], "first.txt");
    assert_eq!(report.copied.len(), 1);
    assert_eq!(report.copied[0], "second.txt");
    assert_eq!(report.rule_name, "docs");
}

#[test]
fn fresh_report_is_empty() {
    let report = RuleReport::new(String::from("r"));
    assert_eq!(report.files_copied(), 0);
    assert_eq!(report.error_count(), 0);
}

#[test]
fn list_starts_empty_and_appends_in_order() {
    let mut list = RuleList::new();
    assert_eq!(list.len(), 0);
    list.add(rule("a", true));
    list.add(rule("b", false));
    assert_eq!(list.len(), 2);
    let snapshot = list.list();
    assert_eq!(snapshot[0].name, "a");
    assert!(snapshot[0].enabled);
    assert_eq!(snapshot[1].name, "b");
    assert!(!snapshot[1].enabled);
}

#[test]
fn set_enabled_toggles_only_the_chosen_rule() {
    let mut list = RuleList::from_rules(vec![rule("a", true), rule("b", true)]);
    list.set_enabled(0, false);
    let snapshot = list.list();
    assert!(!snapshot[0].enabled);
    assert_eq!(snapshot[0].name, "a");
    assert_eq!(snapshot[0].ext, "txt");
    assert!(snapshot[1].enabled);
    assert_eq!(snapshot[1].name, "b");
}

#[test]
fn snapshot_is_stable_under_later_mutation() {
    let mut list = RuleList::from_rules(vec![rule("a", true)]);
    let snapshot = list.list();
    list.add(rule("b", true));
    list.set_enabled(0, false);
    assert_eq!(snapshot.len(), 1);
    assert!(snapshot[0].enabled);
}
