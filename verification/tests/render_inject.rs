use doc_md::classify::classify_corpus;
use doc_md::inject::detect_language;
use doc_md::inject::process_file;
use doc_md::inject::strip_block;
use doc_md::props::Properties;
use doc_md::render::build_property_to_display;
use doc_md::render::Translation;
use doc_md::table::Table;

fn english() -> Translation {
    Translation {
        command_number: "Command number".to_string(),
        thread_safe: "Thread safe".to_string(),
        modifies_variables: "Modifies variables".to_string(),
        changes_current_record: "Changes current record".to_string(),
        changes_current_selection: "Changes current selection".to_string(),
        forbidden_on_server: "Forbidden on the server".to_string(),
        comma: ", ".to_string(),
        properties: "Properties".to_string(),
    }
}

fn translations() -> Table<Translation> {
    let mut t = Table::new();
    t.insert("en".to_string(), english());
    let mut fr = english();
    fr.properties = "Propriétés".to_string();
    fr.thread_safe = "Thread-safe".to_string();
    t.insert("fr".to_string(), fr);
    t
}

fn preemptive_seven() -> Properties {
    Properties::from("100-6957482 Number: 7 image/prop/preemption.xx.png").unwrap()
}

#[test]
fn preemptive_record_renders_exactly_two_rows() {
    let p = preemptive_seven();
    assert_eq!(p.command_id, 7);
    assert!(p.preemptive);
    assert!(!p.modify_ok && !p.modify_document && !p.modify_error);
    let s = p.to_string(&english());
    assert_eq!(
        s,
        "|  |  |\n| --- | --- |\n| Command number | 7 |\n| Thread safe | &check; |\n"
    );
}

#[test]
fn non_preemptive_record_renders_cross() {
    let p = Properties::from("100-6957482 Number: 12").unwrap();
    let s = p.to_string(&english());
    assert_eq!(
        s,
        "|  |  |\n| --- | --- |\n| Command number | 12 |\n| Thread safe | &cross; |\n"
    );
}

#[test]
fn variable_rows_join_with_separator() {
    let p = Properties::from(
        "100-6957482 Number: 3 image/prop/ok.xx.png image/prop/document.xx.png \
         image/prop/error.xx.png image/prop/currentrecord.xx.png",
    )
    .unwrap();
    let s = p.to_string(&english());
    assert_eq!(
        s,
        "|  |  |\n| --- | --- |\n| Command number | 3 |\n| Thread safe | &cross; |\n\
         | Modifies variables | OK, Document, error |\n| Changes current record ||\n"
    );
}

#[test]
fn display_for_known_command_and_language() {
    let mut props: Table<Option<Properties>> = Table::new();
    props.insert("foo".to_string(), Some(preemptive_seven()));
    let d = build_property_to_display("en", "foo", &translations(), &props).unwrap();
    assert_eq!(
        d,
        "\n\n#### Properties\n\n|  |  |\n| --- | --- |\n| Command number | 7 |\n\
         | Thread safe | &check; |\n\n\n"
    );
}

#[test]
fn display_for_unknown_command_is_empty() {
    let props: Table<Option<Properties>> = Table::new();
    let d = build_property_to_display("en", "foo", &translations(), &props).unwrap();
    assert_eq!(d, "");
}

#[test]
fn display_for_command_without_record_is_empty() {
    let mut props: Table<Option<Properties>> = Table::new();
    props.insert("foo".to_string(), None);
    let d = build_property_to_display("en", "foo", &translations(), &props).unwrap();
    assert_eq!(d, "");
}

#[test]
fn display_for_unknown_language_is_skipped() {
    let mut props: Table<Option<Properties>> = Table::new();
    props.insert("foo".to_string(), Some(preemptive_seven()));
    assert!(build_property_to_display("de", "foo", &translations(), &props).is_none());
}

#[test]
fn strip_leaves_plain_page_alone() {
    let page = "# Title\n\nBody text.\n\n#### See also\n\nLinks.\n";
    assert_eq!(strip_block(page), page);
}

#[test]
fn strip_removes_appended_block() {
    let mut props: Table<Option<Properties>> = Table::new();
    props.insert("foo".to_string(), Some(preemptive_seven()));
    let page = "# foo\n\nBody.";
    let d = build_property_to_display("en", "foo", &translations(), &props).unwrap();
    let injected = format!("{}{}", page, d);
    assert_eq!(strip_block(&injected), page);
}

#[test]
fn language_detected_from_path() {
    let l = detect_language("../docs/i18n/fr/plugin/commands-legacy/foo.md").unwrap();
    assert_eq!(l, "fr");
}

#[test]
fn language_absent_without_marker() {
    assert!(detect_language("../docs/commands/foo.md").is_none());
}

#[test]
fn update_is_idempotent() {
    let mut props: Table<Option<Properties>> = Table::new();
    props.insert("foo".to_string(), Some(preemptive_seven()));
    let tr = translations();
    let page = "# foo\n\nBody.\n";
    let once = process_file("docs/commands/foo.en.md", "foo.en", page, "en", &tr, &props);
    let twice = process_file(
        "docs/commands/foo.en.md",
        "foo.en",
        &once.1,
        &once.0,
        &tr,
        &props,
    );
    assert_eq!(once.1, twice.1);
    assert!(once.1.contains("#### Properties"));
}

#[test]
fn language_carries_over_within_an_expansion() {
    let mut props: Table<Option<Properties>> = Table::new();
    props.insert("foo".to_string(), Some(preemptive_seven()));
    let tr = translations();
    let first = process_file(
        "docs/i18n/fr/plugin/commands-legacy/foo.fr.md",
        "foo.fr",
        "page un\n",
        "en",
        &tr,
        &props,
    );
    assert_eq!(first.0, "fr");
    assert!(first.1.contains("#### Propriétés"));
    let second = process_file(
        "docs/other/bar.md",
        "foo.xx",
        "page deux\n",
        &first.0,
        &tr,
        &props,
    );
    assert_eq!(second.0, "fr");
    assert!(second.1.contains("#### Propriétés"));
}

#[test]
fn corpus_to_rendering_end_to_end() {
    let corpus = vec![(
        "Get-Action-Info.en".to_string(),
        "100-6957482 Number: 7 image/prop/preemption.xx.png".to_string(),
    )];
    let props = classify_corpus(&corpus);
    let d = build_property_to_display("en", "action-info", &translations(), &props).unwrap();
    assert!(d.contains("| Command number | 7 |"));
    assert!(d.contains("| Thread safe | &check; |"));
}
