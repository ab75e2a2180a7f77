//! From what agents announce to what is published.
use corral::approved_commands::{register, Approved};
use corral::curation::{
    admit_submission, canonical_dirs, curate_dir, forget_dormant, forgotten, locate_socket, partition,
    prune_orphan_pointers, read_pointers, record_dir, resolve_submission, sanitize, vet, FileFacts,
    PointerFile, RecordFile, Removal, SocketPlace, SubmissionError, DORMANT_MAX_AGE, POINTER_GRACE,
};
use corral::discovery::RegistryEntry;
use std::cell::{Cell, RefCell};

fn rec(sid: &str, socket: Option<&str>) -> RegistryEntry {
    RegistryEntry {
        session_id: sid.into(),
        cwd: Some("/lie".into()),
        title: Some("t".into()),
        socket: socket.map(String::from),
        pid: None,
        pid_namespace: None,
        spawn_command: None,
        resume_command: None,
        label: Some("pi".into()),
        last_seen: None,
        gui: false,
        message_flag: None,
        hidden: false,
        description: None,
        model: None,
        entries: None,
        context_percent: None,
        context_age: None,
    }
}

#[test]
fn vet_stamps_cwd_and_ignores_content_cwd() {
    let out = vet("/home/dev/x", "s1", rec("s1", None), SocketPlace::Absent).unwrap();
    assert_eq!(out.cwd.as_deref(), Some("/home/dev/x"));
}

#[test]
fn vet_rejects_bad_session_id_and_filename_mismatch() {
    let p = SocketPlace::Absent;
    assert_eq!(vet("/w", "s1", rec("--evil", None), p), None); // charset
    assert_eq!(vet("/w", "s1", rec("other", None), p), None); // != filename
}

#[test]
fn vet_quarantines_a_foreign_socket_and_dormants_an_absent_one() {
    let sock = Some("/w/.corral/pi-1.sock");
    // Physically inside its own box -> published live.
    let ok = vet("/w", "s1", rec("s1", sock), SocketPlace::Inside).unwrap();
    assert!(ok.socket.is_some());
    // Leads outside the box (T17: symlink, `..`, foreign path) -> quarantined,
    // so corral never connects there and the operator's `m` cannot land in
    // another session.
    assert_eq!(vet("/w", "s1", rec("s1", sock), SocketPlace::Foreign), None);
    // Nothing bound (crashed session): the record survives as dormant, so it
    // stays visible and resumable rather than disappearing from the board.
    let dormant = vet("/w", "s1", rec("s1", sock), SocketPlace::Absent).unwrap();
    assert_eq!(dormant.socket, None);
}

#[test]
fn vet_sanitizes_display_fields() {
    let mut r = rec("s1", None);
    r.title = Some("hi\u{7}\nthere".into());
    let out = vet("/w", "s1", r, SocketPlace::Absent).unwrap();
    assert_eq!(out.title.as_deref(), Some("hithere"));
}

#[test]
fn partition_gates_on_registration_and_dedups_pending() {
    let mut pi = rec("s1", None);
    pi.spawn_command = Some(vec!["pi".into()]);
    let approved = register(Approved::new(), &pi);
    // A registered pi session is published; two unregistered opencode
    // sessions collapse to one pending prompt (approval-flood defense).
    let mut oc1 = rec("s2", None);
    oc1.label = Some("opencode".into());
    oc1.spawn_command = Some(vec!["opencode".into()]);
    let mut oc2 = rec("s3", None);
    oc2.label = Some("opencode".into());
    oc2.spawn_command = Some(vec!["opencode".into()]);
    let split = partition(vec![pi, oc1, oc2], &approved);
    assert_eq!(split.registered.len(), 1);
    assert_eq!(split.registered[0].session_id, "s1");
    assert_eq!(
        split.pending.len(),
        1,
        "one prompt per novel kind, not per session"
    );
    assert_eq!(split.pending[0].0, "opencode");
}

#[test]
fn locate_socket_refuses_a_symlink_into_another_box() {
    let own = Some("/attacker/.corral");
    // The symlink's target lies in another box.
    assert_eq!(
        locate_socket(true, Some(true), Some("/victim/.corral"), own),
        SocketPlace::Foreign
    );
    // Its own genuinely bound socket is accepted.
    assert_eq!(locate_socket(true, Some(true), own, own), SocketPlace::Inside);
    // A symlinked `.corral` directory cannot launder a foreign socket.
    assert_eq!(
        locate_socket(false, Some(true), Some("/victim/.corral"), Some("/victim/.corral")),
        SocketPlace::Foreign
    );
    // A path with nothing at it is Absent, not an attack.
    assert_eq!(locate_socket(true, None, own, own), SocketPlace::Absent);
    // A regular file where a socket should be is refused (never connected to).
    assert_eq!(locate_socket(true, Some(false), own, own), SocketPlace::Foreign);
}

#[test]
fn read_pointers_dedups_by_cwd_and_skips_non_files() {
    let texts: Vec<String> = ["/a\n", "  /b  \n", "/a\n", " \n"].iter().map(|s| s.to_string()).collect();
    let mut got = read_pointers(&texts);
    got.sort();
    assert_eq!(got, vec!["/a", "/b"]);
    assert!(read_pointers(&vec![]).is_empty());
    assert_eq!(
        canonical_dirs(&vec!["/a".into(), "/a".into(), "/c".into()]).len(),
        2
    );
}

#[test]
fn prune_orphan_pointers_keeps_live_and_young_ones() {
    let old = Some(POINTER_GRACE + 60_000_000_000);
    let pointer = |name: &str, age: Option<u128>| PointerFile {
        name: name.to_string(),
        text: Some("/proj\n".to_string()),
        age,
    };
    let ps = vec![
        // A session whose record still exists: keep, however old the pointer.
        pointer("live", old),
        // A session whose record is gone: prune.
        pointer("gone", old),
        // Same, but written just now: an announce may still be in flight.
        pointer("young", Some(0)),
        pointer("undated", None),
    ];
    let exists = |p: &str| p == "/proj/.corral/registry/live.json";
    assert_eq!(record_dir("/proj"), "/proj/.corral/registry");
    assert_eq!(prune_orphan_pointers(&ps, &exists), ["gone"]);
}

#[test]
fn forget_dormant_deletes_record_and_pointer() {
    assert_eq!(
        forget_dormant("/proj", "sid-7", Some("/input-registry")),
        ["/proj/.corral/registry/sid-7.json", "/input-registry/sid-7"]
    );
}

#[test]
fn resolve_submission_derives_cwd_and_rejects_bad_paths() {
    let facts = Some(FileFacts { regular: true, len: 25 });
    let (cwd, content) = resolve_submission(
        facts,
        Some("/t/proj/.corral/outbox/m1.json"),
        Some(r#"{"id":"1","message":"hi"}"#.to_string()),
    )
    .unwrap();
    assert_eq!(cwd, "/t/proj");
    assert!(content.contains("\"message\":\"hi\""));
    assert_eq!(
        admit_submission(facts, Some("/t/proj/.corral/stray.json")),
        Err(SubmissionError::OutsideOutbox)
    );
    assert_eq!(admit_submission(None, None), Err(SubmissionError::Unopenable));
}

#[test]
fn curate_scans_project_records_and_attributes_cwd() {
    let file = |name: &str, text: &str, age: Option<u128>| RecordFile {
        name: name.to_string(),
        text: text.to_string(),
        age,
    };
    let files = vec![
        file("s1.json", r#"{"sessionId":"s1","cwd":"/lie","label":"pi"}"#, Some(0)),
        // A filename/sessionId mismatch is quarantined.
        file("s2.json", r#"{"sessionId":"nope"}"#, Some(0)),
        file("notes.txt", r#"{"sessionId":"notes"}"#, Some(0)),
        // A dormant record of long ago is to be deleted.
        file("s3.json", r#"{"sessionId":"s3"}"#, Some(DORMANT_MAX_AGE + 1)),
    ];
    let got = curate_dir("/proj", &files, &|_s: &str| SocketPlace::Absent);
    assert_eq!(got.records.len(), 1);
    assert_eq!(got.records[0].session_id, "s1");
    assert_eq!(got.records[0].cwd.as_deref(), Some("/proj"));
    assert_eq!(got.stale, ["s3.json"]);
}

#[test]
fn a_shown_text_is_cut_and_cleaned() {
    assert_eq!(sanitize("a\u{0}b\u{85}c\n"), "abc");
    assert_eq!(sanitize(&"é".repeat(300)).chars().count(), 200);
}

#[test]
fn forgetting_twice_is_harmless() {
    assert_eq!(forgotten(&vec![Removal::Removed, Removal::Removed]), Ok(()));
    assert_eq!(forgotten(&vec![Removal::Missing, Removal::Missing]), Ok(()));
    assert_eq!(
        forgotten(&vec![
            Removal::Missing,
            Removal::Failed("denied".into()),
            Removal::Failed("later".into()),
        ]),
        Err("denied".into())
    );
}

#[test]
fn forgetting_asks_for_both_files_whatever_comes_of_the_first() {
    let files = RefCell::new(vec![
        "/proj/.corral/registry/sid-7.json".to_string(),
        "/input/sid-7".to_string(),
        "/input/sid-8".to_string(),
    ]);
    let locked = Cell::new(true);
    let remove = |path: &str| {
        let at = files.borrow().iter().position(|f| f == path);
        match at {
            None => Removal::Missing,
            Some(_) if locked.get() && path.ends_with(".json") => Removal::Failed("denied".into()),
            Some(i) => {
                files.borrow_mut().remove(i);
                Removal::Removed
            }
        }
    };
    let forget = |id: &str, pointers: Option<&str>| {
        let removals: Vec<Removal> =
            forget_dormant("/proj", id, pointers).iter().map(|p| remove(p)).collect();
        forgotten(&removals)
    };
    assert_eq!(forget("sid-7", Some("/input")), Err("denied".into()));
    assert_eq!(*files.borrow(), ["/proj/.corral/registry/sid-7.json", "/input/sid-8"]);
    locked.set(false);
    assert_eq!(forget("sid-7", Some("/input")), Ok(()));
    assert_eq!(*files.borrow(), ["/input/sid-8"]);
    assert_eq!(forget("sid-7", Some("/input")), Ok(()), "twice is harmless");
    assert_eq!(*files.borrow(), ["/input/sid-8"]);
    assert_eq!(forget("sid-8", None), Ok(()));
    assert_eq!(*files.borrow(), ["/input/sid-8"], "no pointer store, no pointer");
}

#[test]
fn a_socket_whose_place_cannot_be_told_is_not_published() {
    let own = Some("/proj/.corral");
    assert_eq!(locate_socket(true, Some(true), None, own), SocketPlace::Absent);
    assert_eq!(locate_socket(true, Some(true), own, None), SocketPlace::Absent);
    assert_eq!(locate_socket(true, Some(false), None, own), SocketPlace::Foreign);
    let vetted = vet("/proj", "s1", rec("s1", Some("/proj/.corral/a.sock")), SocketPlace::Absent);
    assert_eq!(vetted.unwrap().socket, None);
}

#[test]
fn pruning_twice_is_harmless() {
    let pointer = |name: &str, cwd: &str, age: Option<u128>| PointerFile {
        name: name.to_string(),
        text: Some(cwd.to_string()),
        age,
    };
    let mut ps = vec![
        pointer("kept", "/w", Some(POINTER_GRACE)),
        pointer("young", "/gone", Some(POINTER_GRACE - 1)),
        pointer("ageless", "/gone", None),
        pointer("orphan", "/gone", Some(POINTER_GRACE)),
    ];
    let exists = |p: &str| p == "/w/.corral/registry/kept.json";
    let gone = prune_orphan_pointers(&ps, &exists);
    assert_eq!(gone, ["orphan"]);
    ps.retain(|p| !gone.contains(&p.name));
    assert!(prune_orphan_pointers(&ps, &exists).is_empty());
}
