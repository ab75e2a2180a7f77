//! Records, sockets and processes.
use corral::discovery::{
    cwd_from_outbox_path, cwd_from_record_path, deepest_nspid, live_socket, parse_registry_json,
    parse_socket_filename, resolve_host_pid, resolve_socket_host_pid, scan_registry, unique_session,
    valid_session_id, ProcInfo, ProcTable,
};

#[test]
fn model_field_parses_and_defaults_none() {
    let e =
        parse_registry_json(r#"{"sessionId":"s1","model":"acme/opus-4"}"#).unwrap();
    assert_eq!(e.model.as_deref(), Some("acme/opus-4"));
    // Absent -> None (older/unknown producer).
    let e = parse_registry_json(r#"{"sessionId":"s2"}"#).unwrap();
    assert_eq!(e.model, None);
    // Non-string -> None (never a garbled value).
    let e = parse_registry_json(r#"{"sessionId":"s3","model":42}"#).unwrap();
    assert_eq!(e.model, None);
}

#[test]
fn context_fields_parse_and_default_none() {
    let json = r#"{"sessionId":"s1","entries":42,"contextPercent":12,"contextAge":"3d"}"#;
    let e = parse_registry_json(json).unwrap();
    assert_eq!(e.entries, Some(42));
    assert_eq!(e.context_percent, Some(12));
    assert_eq!(e.context_age.as_deref(), Some("3d"));
    // Absent -> None (older/unknown producer, or an adapter that never reports it).
    let e = parse_registry_json(r#"{"sessionId":"s2"}"#).unwrap();
    assert_eq!(e.entries, None);
    assert_eq!(e.context_percent, None);
    assert_eq!(e.context_age, None);
    // contextPercent can be legitimately absent (unknown estimate) even when
    // entries/contextAge are present.
    let json = r#"{"sessionId":"s3","entries":7,"contextAge":"5m"}"#;
    let e = parse_registry_json(json).unwrap();
    assert_eq!(e.entries, Some(7));
    assert_eq!(e.context_percent, None);
    assert_eq!(e.context_age.as_deref(), Some("5m"));
    // Non-numeric entries/contextPercent or non-string contextAge -> None,
    // never a garbled value.
    let json = r#"{"sessionId":"s4","entries":"lots","contextPercent":"high","contextAge":9}"#;
    let e = parse_registry_json(json).unwrap();
    assert_eq!(e.entries, None);
    assert_eq!(e.context_percent, None);
    assert_eq!(e.context_age, None);
}

#[test]
fn session_id_charset_is_strict() {
    assert!(valid_session_id("6f1c2e7a-3b4d-4c5e-9a10"));
    assert!(valid_session_id("abc.def_123"));
    // Rejected: leading dash (flag injection), empty, and metacharacters.
    assert!(!valid_session_id("--config=/evil"));
    assert!(!valid_session_id(""));
    assert!(!valid_session_id("a/b"));
    assert!(!valid_session_id("a b"));
    assert!(!valid_session_id("a;rm"));
}

#[test]
fn cwd_derives_from_record_physical_path() {
    assert_eq!(
        cwd_from_record_path("/home/dev/x/.corral/abc.json").as_deref(),
        Some("/home/dev/x")
    );
    // Not under a .corral dir -> rejected (cannot be attributed).
    assert_eq!(
        cwd_from_record_path("/home/dev/x/abc.json"),
        None
    );
    assert_eq!(cwd_from_record_path("/abc.json"), None);
}

#[test]
fn cwd_derives_from_outbox_physical_path() {
    assert_eq!(
        cwd_from_outbox_path("/home/dev/x/.corral/outbox/m1.json").as_deref(),
        Some("/home/dev/x")
    );
    // Wrong shape (not under .corral/outbox) -> rejected.
    assert_eq!(
        cwd_from_outbox_path("/home/dev/x/.corral/m1.json"),
        None
    );
    assert_eq!(cwd_from_outbox_path("/etc/passwd"), None);
}

#[test]
fn discovery_parses_simple_filename() {
    assert_eq!(
        parse_socket_filename("opencode-1234.sock"),
        Some(("opencode".to_string(), 1234))
    );
}

#[test]
fn discovery_label_may_contain_dashes() {
    assert_eq!(
        parse_socket_filename("opencode-agent-acp-99.sock"),
        Some(("opencode-agent-acp".to_string(), 99))
    );
}

#[test]
fn discovery_rejects_non_sockets_and_malformed_names() {
    assert_eq!(parse_socket_filename("readme.txt"), None);
    assert_eq!(parse_socket_filename("nopid.sock"), None);
    assert_eq!(parse_socket_filename("label-notanumber.sock"), None);
    assert_eq!(parse_socket_filename("-42.sock"), None);
}

#[test]
fn discovery_scan_missing_dir_is_empty() {
    assert!(scan_registry(&vec![]).is_empty());
}

#[test]
fn discovery_parses_live_registry_record() {
    let json = r#"{"sessionId":"abc","cwd":"/tmp/p","title":"fix bug",
        "socket":"/tmp/p/.corral/pi-42.sock",
        "spawnCommand":["pi"],
        "resumeCommand":["pi","--session","/s/abc.jsonl"],"lastSeen":"t"}"#;
    let e = parse_registry_json(json).unwrap();
    assert_eq!(e.session_id, "abc");
    assert_eq!(e.cwd.as_deref(), Some("/tmp/p"));
    assert_eq!(
        e.spawn_command.as_deref(),
        Some(["pi".to_string()].as_slice())
    );
    assert_eq!(
        e.resume_command.as_deref().unwrap(),
        ["pi", "--session", "/s/abc.jsonl"]
    );
    // Legacy filename (no record pid) still resolves label+pid for a
    // record written before pid/label moved into the JSON.
    let sock = live_socket(&e).unwrap();
    assert_eq!(sock.label, "pi");
    assert_eq!(sock.pid, Some(42));
    assert_eq!(sock.pid_namespace, None);
    assert_eq!(sock.path, "/tmp/p/.corral/pi-42.sock");
}

#[test]
fn live_socket_reads_pid_label_ns_from_record() {
    // New shape: <sessionId>.sock filename, structured fields in the record.
    let json = r#"{"sessionId":"abc","label":"pi","pid":42,"pidNamespace":4026532999,
        "socket":"/tmp/p/.corral/abc.sock"}"#;
    let e = parse_registry_json(json).unwrap();
    assert_eq!(e.pid, Some(42));
    assert_eq!(e.pid_namespace, Some(4026532999));
    let sock = live_socket(&e).unwrap();
    assert_eq!(sock.label, "pi");
    assert_eq!(sock.pid, Some(42));
    assert_eq!(sock.pid_namespace, Some(4026532999));
    assert_eq!(sock.path, "/tmp/p/.corral/abc.sock");
}

#[test]
fn live_socket_without_pid_is_still_watched_uncorrelatable() {
    // A <sessionId>.sock with no record pid: still a live socket (watched),
    // just not window-correlatable (pid None).
    let e = parse_registry_json(
        r#"{"sessionId":"abc","label":"pi","socket":"/tmp/p/.corral/abc.sock"}"#,
    )
    .unwrap();
    let sock = live_socket(&e).unwrap();
    assert_eq!(sock.label, "pi");
    assert_eq!(sock.pid, None);
}

#[test]
fn live_socket_missing_label_defaults_to_agent() {
    let e = parse_registry_json(
        r#"{"sessionId":"abc","pid":9,"socket":"/tmp/p/.corral/abc.sock"}"#,
    )
    .unwrap();
    assert_eq!(live_socket(&e).unwrap().label, "agent");
}

#[test]
fn resume_and_spawn_argv_substitute_placeholders() {
    let json = r#"{"sessionId":"s9","cwd":"/p",
        "spawnCommand":["cursor","{cwd}"],
        "resumeCommand":["pi","--session","{sessionId}"]}"#;
    let e = parse_registry_json(json).unwrap();
    assert_eq!(e.resume_argv().unwrap(), vec!["pi", "--session", "s9"]);
    assert_eq!(e.spawn_argv().unwrap(), vec!["cursor", "/p"]);
}

struct FakeProc {
    self_ino: Option<u64>,
    procs: Vec<ProcInfo>,
}

impl ProcTable for FakeProc {
    fn self_pid_ns_ino(&self) -> Option<u64> {
        self.self_ino
    }
    fn processes(&self) -> Vec<ProcInfo> {
        self.procs.clone()
    }
}

fn proc(host_pid: u32, ns: u64, nspid: u32) -> ProcInfo {
    ProcInfo {
        host_pid,
        pid_ns_ino: ns,
        deepest_nspid: nspid,
    }
}

#[test]
fn resolve_translates_namespaced_pid_to_host_pid() {
    // Two sandboxes each have a process with namespace-local pid 7; the
    // namespace inode disambiguates, and NSpid picks the process within.
    let table = FakeProc {
        self_ino: Some(1000), // corral's own ns, unrelated to either sandbox
        procs: vec![
            proc(34521, 5001, 7), // sandbox A
            proc(34600, 5002, 7), // sandbox B, same namespaced pid
            proc(34700, 5001, 9), // sandbox A, different process
        ],
    };
    assert_eq!(resolve_host_pid(&table, 7, 5001), Some(34521));
    assert_eq!(resolve_host_pid(&table, 7, 5002), Some(34600));
    assert_eq!(resolve_host_pid(&table, 9, 5001), Some(34700));
    // No process with that (ns, nspid) pair.
    assert_eq!(resolve_host_pid(&table, 8, 5001), None);
    assert_eq!(resolve_host_pid(&table, 7, 9999), None);
}

#[test]
fn resolve_shortcuts_when_target_shares_reader_namespace() {
    // Agent in the reader's own PID namespace: the pid is already host-level,
    // returned without scanning (works even with an empty process list).
    let table = FakeProc {
        self_ino: Some(1000),
        procs: vec![],
    };
    assert_eq!(resolve_host_pid(&table, 42, 1000), Some(42));
}

#[test]
fn resolve_socket_host_pid_handles_optionals() {
    let table = FakeProc {
        self_ino: Some(1000),
        procs: vec![proc(34521, 5001, 7)],
    };
    // No pid -> not correlatable.
    assert_eq!(resolve_socket_host_pid(&table, None, Some(5001)), None);
    // No namespace -> pid is already host-level (pre-bridge behavior).
    assert_eq!(resolve_socket_host_pid(&table, Some(999), None), Some(999));
    // Both present -> translated.
    assert_eq!(resolve_socket_host_pid(&table, Some(7), Some(5001)), Some(34521));
}

#[test]
fn discovery_dormant_record_has_no_socket() {
    let e = parse_registry_json(r#"{"sessionId":"abc","socket":null}"#).unwrap();
    assert_eq!(e.socket, None);
    assert_eq!(live_socket(&e), None);
}

#[test]
fn command_fields_absent_or_malformed_are_none() {
    // Absent commands are None (older producer): discoverable, not launchable.
    let e = parse_registry_json(r#"{"sessionId":"a"}"#).unwrap();
    assert_eq!(e.spawn_command, None);
    assert_eq!(e.resume_command, None);
    // A non-array command is ignored rather than launched as garbage.
    let e = parse_registry_json(r#"{"sessionId":"a","spawnCommand":"pi"}"#).unwrap();
    assert_eq!(e.spawn_command, None);
}

#[test]
fn discovery_rejects_record_without_session_id() {
    assert_eq!(parse_registry_json(r#"{"cwd":"/tmp"}"#), None);
    assert_eq!(parse_registry_json("not json"), None);
}

#[test]
fn message_flag_parses_when_present_else_none() {
    let e = parse_registry_json(r#"{"sessionId":"s1","messageFlag":"--message"}"#).unwrap();
    assert_eq!(e.message_flag.as_deref(), Some("--message"));
    // Absent -> None (positional message, the default for pi/opencode).
    let e = parse_registry_json(r#"{"sessionId":"s2"}"#).unwrap();
    assert_eq!(e.message_flag, None);
}

#[test]
fn hidden_field_parses_true_false_and_absent() {
    let e = parse_registry_json(r#"{"sessionId":"s1","hidden":true}"#).unwrap();
    assert!(e.hidden);
    let e = parse_registry_json(r#"{"sessionId":"s2","hidden":false}"#).unwrap();
    assert!(!e.hidden);
    // Absent defaults to false (existing pi/opencode records).
    let e = parse_registry_json(r#"{"sessionId":"s3"}"#).unwrap();
    assert!(!e.hidden);
    // Non-boolean ignored leniently.
    let e = parse_registry_json(r#"{"sessionId":"s4","hidden":"yes"}"#).unwrap();
    assert!(!e.hidden);
    // launch_mode carries it.
    let e = parse_registry_json(r#"{"sessionId":"s5","hidden":true}"#).unwrap();
    assert!(e.launch_mode().hidden);
}

#[test]
fn gui_field_parses_true_false_and_absent() {
    // Explicit true.
    let e = parse_registry_json(r#"{"sessionId":"s1","gui":true}"#).unwrap();
    assert!(e.gui);
    // Explicit false.
    let e = parse_registry_json(r#"{"sessionId":"s2","gui":false}"#).unwrap();
    assert!(!e.gui);
    // Absent defaults to false (pi/opencode records have no such field).
    let e = parse_registry_json(r#"{"sessionId":"s3"}"#).unwrap();
    assert!(!e.gui);
    // A non-boolean value is ignored leniently, not an error.
    let e = parse_registry_json(r#"{"sessionId":"s4","gui":"yes"}"#).unwrap();
    assert!(!e.gui);
}

#[test]
fn only_json_files_with_a_session_are_records() {
    let files = vec![
        ("b.json".to_string(), r#"{"sessionId":"b"}"#.to_string()),
        ("notes.txt".to_string(), r#"{"sessionId":"n"}"#.to_string()),
        ("c.json".to_string(), "{".to_string()),
        ("a.json".to_string(), r#"{"sessionId":"a"}"#.to_string()),
    ];
    let got: Vec<String> = scan_registry(&files).into_iter().map(|e| e.session_id).collect();
    assert_eq!(got, ["b", "a"]);
}

#[test]
fn a_squatted_session_is_nobody() {
    let one = parse_registry_json(r#"{"sessionId":"s","cwd":"/a"}"#).unwrap();
    let two = parse_registry_json(r#"{"sessionId":"s","cwd":"/b"}"#).unwrap();
    let v = vec![one];
    assert_eq!(unique_session(&v, "s").unwrap().cwd.as_deref(), Some("/a"));
    assert!(unique_session(&v, "t").is_none());
    let mut both = v;
    both.push(two);
    assert!(unique_session(&both, "s").is_none());
}

#[test]
fn the_innermost_pid_is_the_last_of_the_line() {
    assert_eq!(deepest_nspid("Name:\tpi\nNSpid:\t34521\t7\nThreads:\t1\n"), Some(7));
    assert_eq!(deepest_nspid("Name:\tpi\n"), None);
    assert_eq!(deepest_nspid("NSpid:\tx\n"), None);
}

#[test]
fn a_pid_is_cut_to_32_bits() {
    let e = parse_registry_json(r#"{"sessionId":"s","pid":4294967296,"contextPercent":-1}"#).unwrap();
    assert_eq!(e.pid, Some(0));
    assert_eq!(e.context_percent, None);
}

#[test]
fn a_command_with_a_member_that_is_no_text_is_none() {
    let e = parse_registry_json(
        r#"{"sessionId":"a","spawnCommand":["pi",42],"resumeCommand":["pi",null]}"#,
    )
    .unwrap();
    assert_eq!(e.spawn_command, None);
    assert_eq!(e.resume_command, None);
    let e = parse_registry_json(r#"{"sessionId":"a","spawnCommand":[]}"#).unwrap();
    assert_eq!(e.spawn_command, Some(vec![]));
}
