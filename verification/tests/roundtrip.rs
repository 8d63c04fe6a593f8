use doc_md::classify::classify_corpus;
use doc_md::props::Properties;
use doc_md::render::Translation;
use doc_md::table::Table;
use serde_json::Value;

fn english() -> Translation {
    Translation {
        command_number: "Command number".to_string(),
        thread_safe: "Thread safe".to_string(),
        modifies_variables: "Modifies variables".to_string(),
        changes_current_record: "Changes current record".to_string(),
        changes_current_selection: "Changes current selection".to_string(),
        forbidden_on_server: "Forbidden on the server".to_string(),
        comma: ", ".to_string(),
        properties: "Properties".to_string(),
    }
}

fn record_to_value(p: &Properties) -> Value {
    let mut m = serde_json::Map::new();
    m.insert("command_id".to_string(), Value::from(p.command_id as u64));
    m.insert("preemptive".to_string(), Value::from(p.preemptive));
    m.insert("modify_ok".to_string(), Value::from(p.modify_ok));
    m.insert("modify_document".to_string(), Value::from(p.modify_document));
    m.insert("modify_locked_set".to_string(), Value::from(p.modify_locked_set));
    m.insert("modify_user_set".to_string(), Value::from(p.modify_user_set));
    m.insert("modify_error".to_string(), Value::from(p.modify_error));
    m.insert("modify_record".to_string(), Value::from(p.modify_record));
    m.insert("modify_selection".to_string(), Value::from(p.modify_selection));
    m.insert("remote".to_string(), Value::from(p.remote));
    m.insert("not_for_server".to_string(), Value::from(p.not_for_server));
    Value::Object(m)
}

fn value_to_record(v: &Value) -> Properties {
    let m = v.as_object().unwrap();
    let flag = |k: &str| m.get(k).unwrap().as_bool().unwrap();
    Properties {
        command_id: m.get("command_id").unwrap().as_u64().unwrap() as usize,
        preemptive: flag("preemptive"),
        modify_ok: flag("modify_ok"),
        modify_document: flag("modify_document"),
        modify_locked_set: flag("modify_locked_set"),
        modify_user_set: flag("modify_user_set"),
        modify_error: flag("modify_error"),
        modify_record: flag("modify_record"),
        modify_selection: flag("modify_selection"),
        remote: flag("remote"),
        not_for_server: flag("not_for_server"),
    }
}

fn table_to_json(t: &Table<Option<Properties>>) -> String {
    let mut m = serde_json::Map::new();
    for (k, v) in t.entries.iter() {
        let val = match v {
            Some(p) => record_to_value(p),
            None => Value::Null,
        };
        m.insert(k.clone(), val);
    }
    serde_json::to_string_pretty(&Value::Object(m)).unwrap()
}

fn json_to_table(s: &str) -> Table<Option<Properties>> {
    let v: Value = serde_json::from_str(s).unwrap();
    let mut t: Table<Option<Properties>> = Table::new();
    for (k, val) in v.as_object().unwrap().iter() {
        let rec = match val {
            Value::Null => None,
            other => Some(value_to_record(other)),
        };
        t.insert(k.clone(), rec);
    }
    t
}

/// Classifying, serializing to the metadata artifact, reading it back, and
/// rendering must give tables byte-identical to rendering straight from the
/// in-memory classification result.
#[test]
fn artifact_round_trip_renders_identically() {
    let corpus = vec![
        (
            "alpha.en".to_string(),
            "100-6957482 Number: 7 image/prop/preemption.xx.png".to_string(),
        ),
        (
            "beta.en".to_string(),
            "100-6993921 ak_700.png Number: 12 image/prop/ok.xx.png image/prop/error.xx.png \
             image/prop/notcs.xx.png"
                .to_string(),
        ),
        ("gamma.en".to_string(), "100-6957482 no number".to_string()),
    ];
    let direct = classify_corpus(&corpus);
    let artifact = table_to_json(&direct);
    let reloaded = json_to_table(&artifact);
    let t = english();
    for name in ["alpha", "beta", "gamma", "missing"] {
        let a = doc_md::render::build_property_to_display("en", name, &trans(), &direct);
        let b = doc_md::render::build_property_to_display("en", name, &trans(), &reloaded);
        assert_eq!(a, b);
    }
    let p = (*direct.get("beta").unwrap()).unwrap();
    let q = (*reloaded.get("beta").unwrap()).unwrap();
    assert_eq!(p.to_string(&t), q.to_string(&t));
}

fn trans() -> Table<Translation> {
    let mut t = Table::new();
    t.insert("en".to_string(), english());
    t
}
