//! The trust boundary, end to end over what is read and what is written.
use corral::approved_commands::{approved_json, read_approved, Approved, Template};
use corral::curation::{
    curate_dir, locate_socket, partition, resolve_submission, vet, FileFacts, RecordFile, SocketPlace,
    Split, SubmissionError,
};
use corral::daemon::curator::refresh;
use corral::discovery::{parse_registry_json, scan_registry, RegistryEntry};
use corral::engine::Engine;

fn mk_rec(sid: &str, socket: Option<&str>) -> RegistryEntry {
    RegistryEntry {
        session_id: sid.into(),
        cwd: Some("/lie".into()),
        title: None,
        socket: socket.map(String::from),
        pid: None,
        pid_namespace: None,
        spawn_command: None,
        resume_command: None,
        label: Some("pi".into()),
        last_seen: None,
        gui: false,
        message_flag: None,
        hidden: false,
        description: None,
        model: None,
        entries: None,
        context_percent: None,
        context_age: None,
    }
}

fn file(name: &str, text: &str) -> RecordFile {
    RecordFile {
        name: name.to_string(),
        text: text.to_string(),
        age: Some(0),
    }
}

fn absent(_socket: &str) -> SocketPlace {
    SocketPlace::Absent
}

/// The store that approves one label with one launch set, as it is written.
fn approve(label: &str, t: Template) -> String {
    let mut a = Approved::new();
    a.insert(label.into(), t);
    approved_json(&a)
}

/// From the record files of directories to what is published and what waits.
fn curate(dirs: &[(&str, Vec<RecordFile>)], store: Option<&str>) -> Split {
    let mut vetted = vec![];
    for (dir, files) in dirs {
        vetted.extend(curate_dir(dir, files, &absent).records);
    }
    partition(vetted, &read_approved(store))
}

/// The session ids that a viewer of the published store sees.
fn published(split: &Split) -> Vec<String> {
    let mut ids: Vec<String> = scan_registry(&refresh(&split.registered))
        .into_iter()
        .map(|r| r.session_id)
        .collect();
    ids.sort();
    ids
}

const FACTS: Option<FileFacts> = Some(FileFacts { regular: true, len: 40 });

#[test]
fn t2_cwd_from_location_not_content() {
    let (derived, content) = resolve_submission(
        FACTS,
        Some("/box/.corral/outbox/m1.json"),
        Some(r#"{"fromCwd":"/victim","message":"hi"}"#.to_string()),
    )
    .expect("regular outbox file");
    assert_eq!(derived, "/box", "cwd is the real location, not the claimed /victim");
    assert!(content.contains("/victim"), "content returned verbatim");
}

#[test]
fn t2_symlink_target_outside_outbox_rejected() {
    assert_eq!(
        resolve_submission(FACTS, Some("/t/secret.json"), Some("{}".to_string())),
        Err(SubmissionError::OutsideOutbox)
    );
}

#[test]
fn t14_rejects_fifo() {
    let fifo = Some(FileFacts { regular: false, len: 0 });
    assert_eq!(
        resolve_submission(fifo, Some("/box/.corral/outbox/m1.json"), None),
        Err(SubmissionError::NotRegularFile)
    );
}

#[test]
fn t14_rejects_dir_and_oversize_and_outside_outbox() {
    let at = Some("/box/.corral/outbox/big.json");
    let sized = |len: u64| Some(FileFacts { regular: true, len });
    // Oversize (> 256 KiB cap); the cap itself still fits.
    assert_eq!(
        resolve_submission(sized(256 * 1024 + 1), at, Some(String::new())),
        Err(SubmissionError::TooLarge)
    );
    assert!(resolve_submission(sized(256 * 1024), at, Some(String::new())).is_ok());
    // A regular file NOT under .corral/outbox is rejected (wrong shape).
    assert_eq!(
        resolve_submission(FACTS, Some("/box/.corral/stray.json"), Some(String::new())),
        Err(SubmissionError::OutsideOutbox)
    );
    assert_eq!(resolve_submission(None, at, None), Err(SubmissionError::Unopenable));
    assert_eq!(resolve_submission(FACTS, at, None), Err(SubmissionError::Unreadable));
}

#[test]
fn t3_record_attributed_to_physical_dir_ignoring_content_cwd() {
    let store = approve("pi", Template::default()); // no commands -> matches
    let split = curate(
        &[("/box", vec![file("s1.json", r#"{"sessionId":"s1","label":"pi","cwd":"/victim"}"#)])],
        Some(&store),
    );
    let recs = scan_registry(&refresh(&split.registered));
    assert_eq!(recs.len(), 1);
    assert_eq!(recs[0].cwd.as_deref(), Some("/box"), "cwd is physical, not /victim");
}

#[test]
fn t3_bad_session_id_or_filename_mismatch_rejected() {
    let store = approve("pi", Template::default());
    let split = curate(
        &[("/box", vec![file("x.json", r#"{"sessionId":"y","label":"pi"}"#)])],
        Some(&store),
    );
    assert!(published(&split).is_empty(), "filename/sessionId mismatch quarantined");
}

fn pi_record() -> Vec<RecordFile> {
    vec![file("s1.json", r#"{"sessionId":"s1","label":"pi"}"#)]
}

#[test]
fn t4_unregistered_kind_is_quarantined_and_pending() {
    let split = curate(&[("/box", pi_record())], None);
    assert!(published(&split).is_empty(), "unregistered kind not published");
    assert_eq!(split.pending.len(), 1);
    assert_eq!(split.pending[0].0, "pi");
}

#[test]
fn t4_registered_kind_publishes_silently() {
    let store = approve("pi", Template::default());
    let split = curate(&[("/box", pi_record())], Some(&store));
    assert_eq!(published(&split), vec!["s1".to_string()]);
    assert!(split.pending.is_empty(), "already-registered kind prompts nothing");
}

#[test]
fn t4_deviating_launch_set_is_a_new_pending_never_published() {
    // Registered pi has a plain spawn; the record smuggles a bash spawn.
    let store = approve(
        "pi",
        Template {
            spawn: Some(vec!["pi".into()]),
            ..Default::default()
        },
    );
    let split = curate(
        &[(
            "/box",
            vec![file(
                "s1.json",
                r#"{"sessionId":"s1","label":"pi","spawnCommand":["bash","-c","rm -rf ~"]}"#,
            )],
        )],
        Some(&store),
    );
    assert!(published(&split).is_empty(), "deviating argv never executed/published");
    assert_eq!(split.pending.len(), 1, "surfaces as a fresh registration to verify");
    assert_eq!(
        split.pending[0].1.spawn.as_deref(),
        Some(&["bash".to_string(), "-c".into(), "rm -rf ~".into()][..])
    );
}

#[test]
fn t4_flood_of_novel_labels_all_pending_none_published() {
    let dirs: Vec<(String, Vec<RecordFile>)> = (0..6)
        .map(|i| {
            (
                format!("/box{i}"),
                vec![file(
                    &format!("s{i}.json"),
                    &format!(r#"{{"sessionId":"s{i}","label":"kind{i}"}}"#),
                )],
            )
        })
        .collect();
    let mut vetted = vec![];
    for (dir, files) in &dirs {
        vetted.extend(curate_dir(dir, files, &absent).records);
    }
    let split = partition(vetted, &read_approved(None));
    assert!(published(&split).is_empty(), "flood publishes nothing");
    assert_eq!(split.pending.len(), 6, "one review item per distinct novel kind");
}

#[test]
fn t16_vet_rejects_flag_like_session_id() {
    // A sessionId that could be mistaken for a CLI flag never reaches launch.
    let rec = mk_rec("--config=/evil", None);
    assert!(vet("/box", "--config=/evil", rec, SocketPlace::Absent).is_none());
}

#[test]
fn t17_socket_must_resolve_inside_own_corral() {
    // A record aiming its socket at another box's session is rejected (T17);
    // one inside its own .corral is accepted.
    let place = |parent: &str| locate_socket(true, Some(true), Some(parent), Some("/box/.corral"));
    let foreign = mk_rec("s1", Some("/other/.corral/pi-1.sock"));
    assert!(
        vet("/box", "s1", foreign, place("/other/.corral")).is_none(),
        "foreign socket rejected"
    );

    let own = mk_rec("s1", Some("/box/.corral/pi-1.sock"));
    assert!(
        vet("/box", "s1", own, place("/box/.corral")).is_some(),
        "own-box socket accepted"
    );
}

#[test]
fn viewer_renders_only_vetted_records() {
    // An unregistered (quarantined) record exists, but the viewer reads only
    // what is published, so it renders nothing.
    let split = curate(&[("/box", pi_record())], None);
    let entries = scan_registry(&refresh(&split.registered));
    let ages = vec![None; entries.len()];
    let mut e = Engine::new();
    e.tick(Some((&entries, &ages)), vec![], 0);
    assert_eq!(e.board().column_counts().iter().sum::<usize>(), 0);
}

#[test]
fn a_record_out_of_its_box_is_dropped() {
    let text = r#"{"sessionId":"evil","label":"pi","socket":"/attacker/.corral/evil.sock"}"#;
    let foreign = |_s: &str| SocketPlace::Foreign;
    assert!(curate_dir("/attacker", &vec![file("evil.json", text)], &foreign).records.is_empty());
    assert_eq!(parse_registry_json(text).unwrap().session_id, "evil");
}
