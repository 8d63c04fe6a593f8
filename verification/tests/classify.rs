use doc_md::classify::classify_corpus;
use doc_md::classify::classify_entry;
use doc_md::classify::canonical_name;
use doc_md::classify::command_name_of;
use doc_md::classify::is_command;
use doc_md::props::Properties;

fn command_content(extra: &str) -> String {
    format!("header 100-6957482 Number: 42 {}", extra)
}

#[test]
fn sentinel_a_selects_alone() {
    assert!(is_command("xx 100-6957482 yy"));
}

#[test]
fn sentinel_a_selects_despite_excluded_marker() {
    assert!(is_command("100-6957482 ak_610.png"));
}

#[test]
fn sentinel_b_needs_marker() {
    assert!(!is_command("100-6993921 alone"));
    assert!(is_command("100-6993921 with ak_700.png"));
}

#[test]
fn sentinel_b_blocked_by_excluded_marker() {
    assert!(!is_command("100-6993921 ak_700.png ak_610.png"));
}

#[test]
fn no_sentinel_no_command() {
    assert!(!is_command("plain text ak_700.png"));
}

#[test]
fn alias_maps_renamed_command() {
    assert_eq!(canonical_name("get-action-info"), "action-info");
    assert_eq!(canonical_name("get-mouse"), "mouse-position");
    assert_eq!(canonical_name("session-storage-by-id"), "session-storage");
}

#[test]
fn alias_passes_unknown_names_through() {
    assert_eq!(canonical_name("open-window"), "open-window");
}

#[test]
fn command_name_takes_first_dot_segment_lowercased() {
    assert_eq!(command_name_of("Get-Action-Info.en"), "get-action-info");
    assert_eq!(command_name_of("plain"), "plain");
    assert_eq!(command_name_of("A.B.C"), "a");
}

#[test]
fn stem_with_alias_yields_canonical_identifier() {
    let content = command_content("");
    let r = classify_entry("get-action-info.en", &content).unwrap();
    assert_eq!(r.0, "action-info");
    assert_eq!(r.1.unwrap().command_id, 42);
}

#[test]
fn stem_of_other_language_is_skipped() {
    let content = command_content("");
    assert!(classify_entry("get-action-info.fr", &content).is_none());
}

#[test]
fn obsolete_prefix_is_skipped() {
    let content = command_content("");
    assert!(classify_entry("o-ld-command.en", &content).is_none());
}

#[test]
fn non_command_page_is_skipped() {
    assert!(classify_entry("foo.en", "no sentinels here").is_none());
}

#[test]
fn command_without_number_yields_empty_record() {
    let r = classify_entry("foo.en", "100-6957482 but no labelled number").unwrap();
    assert_eq!(r.0, "foo");
    assert!(r.1.is_none());
}

#[test]
fn corpus_overwrites_duplicate_identifiers() {
    let corpus = vec![
        ("foo.en".to_string(), command_content("")),
        (
            "foo.en".to_string(),
            "100-6957482 Number: 7 image/prop/preemption.xx.png".to_string(),
        ),
    ];
    let t = classify_corpus(&corpus);
    let r: &Option<Properties> = t.get("foo").unwrap();
    let p = (*r).unwrap();
    assert_eq!(p.command_id, 7);
    assert!(p.preemptive);
}

#[test]
fn corpus_keeps_distinct_identifiers() {
    let corpus = vec![
        ("alpha.en".to_string(), command_content("")),
        ("beta.en".to_string(), command_content("")),
        ("gamma.fr".to_string(), command_content("")),
    ];
    let t = classify_corpus(&corpus);
    assert!(t.get("alpha").is_some());
    assert!(t.get("beta").is_some());
    assert!(t.get("gamma").is_none());
}

#[test]
fn record_flags_follow_markers() {
    let content = "100-6957482 Number: 13 image/prop/ok.xx.png image/prop/currentsel.xx.png \
                   image/prop/notcs.xx.png";
    let p = Properties::from(content).unwrap();
    assert_eq!(p.command_id, 13);
    assert!(p.modify_ok);
    assert!(p.modify_selection);
    assert!(p.not_for_server);
    assert!(!p.preemptive);
    assert!(!p.modify_document);
    assert!(!p.modify_locked_set);
    assert!(!p.modify_user_set);
    assert!(!p.modify_error);
    assert!(!p.modify_record);
    assert!(!p.remote);
}

#[test]
fn new_record_is_all_clear() {
    let p = Properties::new();
    assert_eq!(p.command_id, 0);
    assert!(!p.preemptive);
    assert!(!p.modify_ok);
    assert!(!p.not_for_server);
}

#[test]
fn empty_content_is_no_command() {
    assert!(!is_command(""));
    assert!(classify_entry("foo.en", "").is_none());
}

#[test]
fn uppercase_stem_is_lowercased_before_aliasing() {
    let content = command_content("");
    let r = classify_entry("Get-Action-Info.en", &content).unwrap();
    assert_eq!(r.0, "action-info");
}
