//! What is published of the records.
use corral::daemon::curator::{
    audit, describe, record_json, reflect, refresh, vanished, vetted_name, StoreFile,
};

#[test]
fn vetted_name_separates_one_session_id_across_directories() {
    // The H2 regression: two directories claiming one session id must not
    // share a filename, or the later write evicts the earlier record.
    let a = vetted_name("/home/dev/victim", "shared");
    let b = vetted_name("/home/dev/attacker", "shared");
    assert_ne!(a, b, "a squatted id must not collide in the vetted store");
    // Stable across calls, so write-on-change still suppresses rewrites.
    assert_eq!(a, vetted_name("/home/dev/victim", "shared"));
    assert!(a.ends_with("-shared.json"));
}

#[test]
fn record_json_includes_model_when_set() {
    let mut rec = corral::discovery::parse_registry_json(
        r#"{"sessionId":"s1","model":"acme/opus-4"}"#,
    )
    .unwrap();
    rec.cwd = Some("/tmp/p".into());
    let json = record_json(&rec);
    assert!(json.contains("\"model\": \"acme/opus-4\""));
    // Absent model is omitted, not written as null.
    rec.model = None;
    assert!(!record_json(&rec).contains("model"));
}

#[test]
fn record_json_roundtrips_pid_and_namespace() {
    // Regression: record_json hand-lists fields, so pid/pidNamespace must be
    // written or the board reading the vetted store cannot translate to a
    // host pid (focus/kill silently break for sandboxed agents).
    let mut rec = corral::discovery::parse_registry_json(
        r#"{"sessionId":"s1","pid":42,"pidNamespace":4026532999}"#,
    )
    .unwrap();
    rec.cwd = Some("/tmp/p".into());
    let json = record_json(&rec);
    assert!(json.contains("\"pid\": 42"));
    assert!(json.contains("\"pidNamespace\": 4026532999"));
    let back = corral::discovery::parse_registry_json(&json).unwrap();
    assert_eq!(back.pid, Some(42));
    assert_eq!(back.pid_namespace, Some(4026532999));
    // Absent -> omitted, not null.
    rec.pid = None;
    rec.pid_namespace = None;
    let json = record_json(&rec);
    assert!(!json.contains("pid"));
    assert!(!json.contains("pidNamespace"));
}

#[test]
fn record_json_includes_context_fields_when_set() {
    // Regression: record_json hand-lists fields, so a new RegistryEntry
    // field must be added here explicitly or the vetted state/registry/
    // output silently drops it even though the raw record carries it.
    let mut rec = corral::discovery::parse_registry_json(
        r#"{"sessionId":"s1","entries":42,"contextPercent":12,"contextAge":"3d"}"#,
    )
    .unwrap();
    rec.cwd = Some("/tmp/p".into());
    let json = record_json(&rec);
    assert!(json.contains("\"entries\": 42"));
    assert!(json.contains("\"contextPercent\": 12"));
    assert!(json.contains("\"contextAge\": \"3d\""));
    // Absent fields are omitted, not written as null.
    rec.entries = None;
    rec.context_percent = None;
    rec.context_age = None;
    let json = record_json(&rec);
    assert!(!json.contains("entries"));
    assert!(!json.contains("contextPercent"));
    assert!(!json.contains("contextAge"));
}

#[test]
fn what_is_published_reads_back_as_it_was() {
    let rec = corral::discovery::parse_registry_json(
        r#"{"sessionId":"s1","cwd":"/tmp/p","title":"a \"b\" \u00e9","socket":"/tmp/p/.corral/s1.sock",
            "label":"pi","lastSeen":"t","gui":true,"messageFlag":"-m","hidden":true,
            "description":"d","spawnCommand":["pi"],"resumeCommand":["pi","{sessionId}"],
            "pid":4,"pidNamespace":5,"model":"m","entries":6,"contextPercent":7,"contextAge":"8s"}"#,
    )
    .unwrap();
    let back = corral::discovery::parse_registry_json(&record_json(&rec)).unwrap();
    assert_eq!(back, rec);
}

#[test]
fn a_store_holds_one_file_per_record() {
    let a = corral::discovery::parse_registry_json(r#"{"sessionId":"s1","cwd":"/a"}"#).unwrap();
    let b = corral::discovery::parse_registry_json(r#"{"sessionId":"s1","cwd":"/b"}"#).unwrap();
    let files = refresh(&vec![a, b]);
    assert_eq!(files.len(), 2);
    assert_eq!(files[0].0, vetted_name("/a", "s1"));
    assert_ne!(files[0].0, files[1].0);
    assert_eq!(
        vanished(
            &vec!["old.json".to_string(), files[0].0.clone(), "notes.txt".to_string()],
            &vec![files[0].0.clone()],
        ),
        ["old.json"]
    );
}

#[test]
fn the_audit_line_is_stamped() {
    assert_eq!(audit(7, "started"), "7 started\n");
    assert_eq!(audit(7, "a\n8 b\t"), "7 a 8 b\t\n", "one entry is one line");
    let t = corral::approved_commands::Template {
        spawn: Some(vec!["pi".into()]),
        resume: None,
        gui: true,
        message_flag: Some("-m".into()),
    };
    assert!(describe(&t).contains("pi"));
}

#[test]
fn a_store_is_brought_up_to_date_and_then_left_alone() {
    let rec = |id: &str, label: &str, title: &str| {
        corral::discovery::parse_registry_json(&format!(
            r#"{{"sessionId":"{id}","cwd":"/a","label":"{label}","title":"{title}","spawnCommand":["{label}"]}}"#
        ))
        .unwrap()
    };
    let kinds = r#"{"pi":{"spawn":["pi"]}}"#;
    let file = |name: &str, text: &str| StoreFile {
        name: name.to_string(),
        text: Some(text.to_string()),
    };
    let name = |id: &str| vetted_name("/a", id);
    let same = record_json(&rec("s1", "pi", "t"));
    let existing = vec![
        file(&name("s1"), &same),
        file(&name("s2"), "old"),
        StoreFile { name: name("s3"), text: None },
        file(&name("gone"), "x"),
        file("notes.txt", "x"),
    ];
    let vetted = || {
        vec![rec("s1", "pi", "t"), rec("s2", "pi", "t"), rec("s3", "pi", "t"), rec("s4", "sh", "t")]
    };
    let r = reflect(vetted(), Some(kinds), &existing);
    let written: Vec<&str> = r.writes.iter().map(|w| w.0.as_str()).collect();
    assert_eq!(written, [name("s2"), name("s3")], "only what changes");
    assert_eq!(r.writes[0].1, record_json(&rec("s2", "pi", "t")));
    assert_eq!(r.removals, [name("gone")]);
    assert_eq!(r.pending.len(), 1);
    assert_eq!(r.pending[0].0, "sh");
    // The store as it is now needs nothing more.
    let mut now = vec![file(&name("s1"), &same), file("notes.txt", "x")];
    now.extend(r.writes.iter().map(|w| file(&w.0, &w.1)));
    let again = reflect(vetted(), Some(kinds), &now);
    assert!(again.writes.is_empty() && again.removals.is_empty());
    // Without an approved kind nothing is published.
    let none = reflect(vetted(), None, &now);
    assert!(none.writes.is_empty());
    assert_eq!(none.removals.len(), 3);
    assert_eq!(none.pending.len(), 2);
}
