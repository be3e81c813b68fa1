use rulesort::rule::Rule;
use rulesort::store::{load_from_text, save_to_text, LoadError};

fn rule(name: &str, input_dir: &str, output_dir: &str, ext: &str, enabled: bool) -> Rule {
    Rule {
        name: String::from(name),
        input_dir: String::from(input_dir),
        output_dir: String::from(output_dir),
        ext: String::from(ext),
        enabled,
    }
}

fn assert_rules_field_equal(a: &[Rule], b: &[Rule]) {
    assert_eq!(a.len(), b.len());
    for i in 0..a.len() {
        assert_eq!(a[i].name, b[i].name);
        assert_eq!(a[i].input_dir, b[i].input_dir);
        assert_eq!(a[i].output_dir, b[i].output_dir);
        assert_eq!(a[i].ext, b[i].ext);
        assert_eq!(a[i].enabled, b[i].enabled);
    }
}

fn round_trip(rules: Vec<Rule>) {
    let text = save_to_text(&rules);
    let loaded = load_from_text(Some(text.as_str())).expect("written document must load");
    assert_rules_field_equal(&rules, &loaded);
}

#[test]
fn exact_document_text_for_one_rule() {
    let rules = vec![rule("docs", "/in", "/out", "txt", true)];
    let text = save_to_text(&rules);
    assert_eq!(
        text,
        "[{\"name\":\"docs\",\"input_dir\":\"/in\",\"output_dir\":\"/out\",\"ext\":\"txt\",\"enabled\":true}]"
    );
}

#[test]
fn exact_document_text_for_empty_sequence() {
    let rules: Vec<Rule> = vec![];
    assert_eq!(save_to_text(&rules), "[]");
}

#[test]
fn round_trip_empty_sequence() {
    round_trip(vec![]);
}

#[test]
fn round_trip_single_rule() {
    round_trip(vec![rule("music", "/home/u/dl", "/home/u/music", "mp3", false)]);
}

#[test]
fn round_trip_several_rules_keeps_order() {
    let rules = vec![
        rule("a", "/i1", "/o1", "txt", true),
        rule("b", "/i2", "/o2", "pdf", false),
        rule("c", "/i3", "/o3", "", true),
    ];
    let text = save_to_text(&rules);
    let loaded = load_from_text(Some(text.as_str())).expect("written document must load");
    assert_eq!(loaded[0].name, "a");
    assert_eq!(loaded[1].name, "b");
    assert_eq!(loaded[2].name, "c");
    assert_rules_field_equal(&rules, &loaded);
}

#[test]
fn round_trip_with_delimiter_characters() {
    round_trip(vec![rule("we},ird", "[in,dir]", "out}]dir", "t,x{t", true)]);
}

#[test]
fn round_trip_with_quotes_and_backslashes() {
    round_trip(vec![rule("say \"hi\"", "C:\\in\\dir", "\\\\share\\out", "\"\\", false)]);
}

#[test]
fn round_trip_with_control_characters() {
    round_trip(vec![rule("line\nbreak\ttab\rret", "/in\n", "/out\t", "e\rx", true)]);
}

#[test]
fn round_trip_with_record_shaped_strings() {
    round_trip(vec![rule(
        "{\"name\":\"x\",\"enabled\":true}",
        "[{\"input_dir\":\"y\"}]",
        "},{",
        "enabled\":",
        true,
    )]);
}

#[test]
fn load_missing_target_bootstraps_empty() {
    let loaded = load_from_text(None).expect("missing target is not an error");
    assert_eq!(loaded.len(), 0);
}

#[test]
fn load_empty_document() {
    let loaded = load_from_text(Some("[]")).expect("empty document must load");
    assert_eq!(loaded.len(), 0);
}

#[test]
fn load_rejects_empty_text() {
    assert!(matches!(load_from_text(Some("")), Err(LoadError::Malformed)));
}

#[test]
fn load_rejects_unclosed_document() {
    assert!(matches!(load_from_text(Some("[")), Err(LoadError::Malformed)));
    let one = "[{\"name\":\"a\",\"input_dir\":\"b\",\"output_dir\":\"c\",\"ext\":\"d\",\"enabled\":true}";
    assert!(matches!(load_from_text(Some(one)), Err(LoadError::Malformed)));
}

#[test]
fn load_rejects_record_with_missing_fields() {
    assert!(matches!(load_from_text(Some("[{\"name\":\"a\"}]")), Err(LoadError::Malformed)));
}

#[test]
fn load_rejects_record_with_bad_flag() {
    let doc = "[{\"name\":\"a\",\"input_dir\":\"b\",\"output_dir\":\"c\",\"ext\":\"d\",\"enabled\":maybe}]";
    assert!(matches!(load_from_text(Some(doc)), Err(LoadError::Malformed)));
}

#[test]
fn load_rejects_unknown_escape() {
    let doc = "[{\"name\":\"a\\x\",\"input_dir\":\"b\",\"output_dir\":\"c\",\"ext\":\"d\",\"enabled\":true}]";
    assert!(matches!(load_from_text(Some(doc)), Err(LoadError::Malformed)));
}

#[test]
fn load_rejects_trailing_garbage() {
    let doc = "[{\"name\":\"a\",\"input_dir\":\"b\",\"output_dir\":\"c\",\"ext\":\"d\",\"enabled\":true}] ";
    assert!(matches!(load_from_text(Some(doc)), Err(LoadError::Malformed)));
}

#[test]
fn one_bad_record_fails_the_whole_load() {
    let doc = "[{\"name\":\"good\",\"input_dir\":\"b\",\"output_dir\":\"c\",\"ext\":\"d\",\"enabled\":true},{\"name\":\"bad\"}]";
    assert!(matches!(load_from_text(Some(doc)), Err(LoadError::Malformed)));
}
