//! Routing between agents.
use corral::daemon::mailbox::{self, Submission};
use corral::daemon::router::{deliver as job, status, Answer, ApprovalAction, Delivery, Job, Pending, Router};
use corral::discovery::{resolve_host_pid, ProcInfo, ProcTable, RegistryEntry};
use corral::launch::{LaunchMode, Launcher};
use std::cell::{Cell, RefCell};

/// A process table that shows nothing.
struct NoProcs;
impl ProcTable for NoProcs {
    fn self_pid_ns_ino(&self) -> Option<u64> {
        None
    }
    fn processes(&self) -> Vec<ProcInfo> {
        vec![]
    }
}

/// A router with its whitelist, and what it was told to kill and to send.
struct Desk {
    router: Router,
    whitelist: Option<String>,
    killed: RefCell<Vec<u32>>,
    sent: RefCell<Vec<(String, String)>>,
}

impl Desk {
    fn new(whitelist: Option<String>) -> Desk {
        Desk {
            router: Router::new(),
            whitelist,
            killed: RefCell::new(vec![]),
            sent: RefCell::new(vec![]),
        }
    }
    fn enqueue(&mut self, sub: Submission) {
        self.router.enqueue(sub);
    }
    fn pending(&self) -> Option<&Pending> {
        self.router.pending()
    }
    fn grant(&mut self, from: &str, to: &str) {
        let line = mailbox::whitelist_add(from, to).unwrap();
        self.whitelist = Some(self.whitelist.take().unwrap_or_default() + &line);
    }
    fn apply(&mut self, id: &str, action: ApprovalAction) -> Result<(), String> {
        if let Some(line) = self.router.apply(id, action)? {
            self.whitelist = Some(self.whitelist.take().unwrap_or_default() + &line);
        }
        Ok(())
    }
    fn poll(&mut self, entries: &Vec<RegistryEntry>, launcher: &StubLauncher) -> Option<String> {
        let (killed, sent) = (&self.killed, &self.sent);
        let reports: Vec<String> = self
            .router
            .poll(self.whitelist.as_deref(), entries)
            .into_iter()
            .map(|j| {
                run(
                    j,
                    launcher,
                    &|socket: &str, text: &str| {
                        sent.borrow_mut().push((socket.to_string(), text.to_string()));
                        true
                    },
                    &|pid: u32| {
                        killed.borrow_mut().push(pid);
                        Ok(())
                    },
                )
            })
            .collect();
        status(&reports)
    }
}

/// Does what a job takes, step by step, and gives its report.
fn run<S: Fn(&str, &str) -> bool, K: Fn(u32) -> Result<(), String>>(
    mut job: Job,
    launcher: &StubLauncher,
    send: &S,
    kill: &K,
) -> String {
    loop {
        let answer = match job.step() {
            Delivery::Report(s) => return s.clone(),
            Delivery::Find { pid, pid_namespace } => {
                Answer::Found(resolve_host_pid(&NoProcs, *pid, *pid_namespace))
            }
            Delivery::Kill { pid } => Answer::Done(kill(*pid)),
            Delivery::Prompt { socket, text } => Answer::Sent(send(socket, text)),
            Delivery::Launch { cwd, command, message, mode } => {
                Answer::Done(launcher.launch(cwd, command, Some(message), mode))
            }
        };
        job.take(answer);
    }
}

fn granted() -> Option<String> {
    Some(mailbox::whitelist_add("/a", "/b").unwrap())
}

fn deliver<K: Fn(u32) -> Result<(), String>>(
    sub: &Submission,
    entries: &Vec<RegistryEntry>,
    launcher: &StubLauncher,
    kill: &K,
) {
    run(job(sub.clone(), entries), launcher, &|_: &str, _: &str| false, kill);
}

/// Records launch calls, classifying by the argv the record carried: a
/// resume command contains `--session`, a fresh spawn does not.
#[derive(Default)]
struct StubLauncher {
    spawns: Cell<usize>,
    resumes: Cell<usize>,
    last_msg: RefCell<Option<String>>,
    last_command: RefCell<Option<Vec<String>>>,
    last_hidden: Cell<bool>,
}

impl Launcher for StubLauncher {
    fn launch(
        &self,
        _cwd: &str,
        command: &Vec<String>,
        message: Option<&str>,
        mode: &LaunchMode,
    ) -> Result<(), String> {
        if command.iter().any(|a| a == "--session") {
            self.resumes.set(self.resumes.get() + 1);
        } else {
            self.spawns.set(self.spawns.get() + 1);
        }
        *self.last_msg.borrow_mut() = message.map(str::to_owned);
        *self.last_command.borrow_mut() = Some(command.to_vec());
        self.last_hidden.set(mode.hidden);
        Ok(())
    }
}

/// A no-op kill for `deliver` tests that never take the Stop branch.
fn no_kill(_pid: u32) -> Result<(), String> {
    Ok(())
}

/// A live record whose socket filename carries `pid`, so `deliver_stop`
/// parses that pid to kill.
fn live_record(session_id: &str, cwd: &str, pid: u32) -> RegistryEntry {
    RegistryEntry {
        session_id: session_id.into(),
        cwd: Some(cwd.into()),
        title: None,
        socket: Some(format!("{cwd}/.corral/pi-{pid}.sock")),
        pid: None,
        pid_namespace: None,
        spawn_command: Some(vec!["pi".into()]),
        resume_command: Some(vec!["pi".into(), "--session".into(), "x".into()]),
        label: Some("pi".into()),
        last_seen: None,
        gui: false,
        message_flag: None,
        hidden: false,
        description: None,
        model: None,
        entries: None,
        context_percent: None,
        context_age: None,
    }
}

/// A submission as the control-socket boundary hands it over: parsed, then
/// stamped with the canonical `target_cwd` `mailbox::authorize` derived. The
/// router only ever sees stamped submissions, so every test builds them this
/// way.
fn stamped(mut sub: Submission, target_cwd: &str) -> Submission {
    sub.target_cwd = target_cwd.into();
    sub
}

fn stop_msg(id: &str, from: &str, sid: &str, target_cwd: &str) -> Submission {
    stamped(
        mailbox::parse(&format!(
            r#"{{"op":"stop","id":"{id}","fromCwd":"{from}","targetSession":"{sid}"}}"#
        ))
        .unwrap(),
        target_cwd,
    )
}

fn msg_sub(id: &str, from: &str, sid: &str, target_cwd: &str) -> Submission {
    stamped(
        mailbox::parse(&format!(
            r#"{{"op":"message","id":"{id}","fromCwd":"{from}","targetSession":"{sid}","message":"hi"}}"#
        ))
        .unwrap(),
        target_cwd,
    )
}

fn spawn_sub(id: &str, from: &str, target: &str) -> Submission {
    stamped(
        mailbox::parse(&format!(
            r#"{{"op":"spawn","id":"{id}","fromCwd":"{from}","cwd":"{target}","task":"hi"}}"#
        ))
        .unwrap(),
        target,
    )
}

fn spawn_sub_label(id: &str, from: &str, target: &str, label: &str) -> Submission {
    stamped(
        mailbox::parse(&format!(
            r#"{{"op":"spawn","id":"{id}","fromCwd":"{from}","cwd":"{target}","task":"hi","label":"{label}"}}"#
        ))
        .unwrap(),
        target,
    )
}

/// A record whose `label` and single-word spawn command are `label`, in
/// `cwd`. Lets a test assert which kind the router chose to spawn.
fn labeled_record(cwd: &str, label: &str) -> RegistryEntry {
    RegistryEntry {
        session_id: format!("rec-{label}"),
        cwd: Some(cwd.into()),
        title: None,
        socket: None,
        pid: None,
        pid_namespace: None,
        spawn_command: Some(vec![label.into()]),
        resume_command: None,
        label: Some(label.into()),
        last_seen: None,
        gui: false,
        message_flag: None,
        hidden: false,
        description: None,
        model: None,
        entries: None,
        context_percent: None,
        context_age: None,
    }
}

/// A record for `cwd` carrying a spawn command but no live socket: the
/// daemon learns a dir's agent kind from any record there.
fn dir_record(cwd: &str) -> RegistryEntry {
    RegistryEntry {
        session_id: format!("rec{cwd}"),
        cwd: Some(cwd.into()),
        title: None,
        socket: None,
        pid: None,
        pid_namespace: None,
        spawn_command: Some(vec!["pi".into()]),
        resume_command: None,
        label: Some("pi".into()),
        last_seen: None,
        gui: false,
        message_flag: None,
        hidden: false,
        description: None,
        model: None,
        entries: None,
        context_percent: None,
        context_age: None,
    }
}

fn dormant(session_id: &str, cwd: &str, resume: &str) -> RegistryEntry {
    RegistryEntry {
        session_id: session_id.into(),
        cwd: Some(cwd.into()),
        title: None,
        socket: None,
        pid: None,
        pid_namespace: None,
        spawn_command: Some(vec!["pi".into()]),
        resume_command: Some(vec!["pi".into(), "--session".into(), resume.into()]),
        label: Some("pi".into()),
        last_seen: None,
        gui: false,
        message_flag: None,
        hidden: false,
        description: None,
        model: None,
        entries: None,
        context_percent: None,
        context_age: None,
    }
}

#[test]
fn spawn_never_reuses_a_live_agent_in_that_dir() {
    // A spawn is unconditionally a fresh agent: talking to one that already
    // works there is corral_message_agent's job (by session id), so no live
    // record in the dir can absorb a spawn.
    let mut live = dir_record("/b");
    live.socket = Some("/b/.corral/pi-1.sock".to_string());
    let launcher = StubLauncher::default();
    deliver(&spawn_sub("1", "/a", "/b"), &vec![live], &launcher, &no_kill);
    assert_eq!(launcher.spawns.get(), 1, "spawn is always a new agent");
}

#[test]
fn resume_inherits_the_record_window_placement() {
    // A message to a dormant session resumes it as the operator last placed
    // it (the record's own hidden flag); the messager has no say.
    let mut rec = dormant("sid-7", "/b", "/s/sid-7.jsonl");
    rec.hidden = true;
    let sub = msg_sub("1", "/a", "sid-7", "/b");
    let launcher = StubLauncher::default();
    deliver(&sub, &vec![rec], &launcher, &no_kill);
    assert_eq!(launcher.resumes.get(), 1);
    assert!(launcher.last_hidden.get(), "a hidden session stays hidden");
}

#[test]
fn dir_spawn_is_hidden_by_default() {
    // A spawn defaults to no window, so an uninvited agent never pops one up.
    let entries = vec![dir_record("/b")];
    let launcher = StubLauncher::default();
    deliver(&spawn_sub("1", "/a", "/b"), &entries, &launcher, &no_kill);
    assert_eq!(launcher.spawns.get(), 1);
    assert!(
        launcher.last_hidden.get(),
        "agent-initiated spawn must be hidden"
    );
}

#[test]
fn visible_request_launches_unhidden() {
    // A spawn asking for a visible window (window:"visible" on the tool,
    // hidden:false on the wire) gets one; the whitelist alone authorized it.
    let msg = stamped(
        mailbox::parse(
            r#"{"op":"spawn","id":"1","fromCwd":"/a","cwd":"/b","task":"hi","hidden":false}"#,
        )
        .unwrap(),
        "/b",
    );
    let entries = vec![dir_record("/b")];
    let launcher = StubLauncher::default();
    deliver(&msg, &entries, &launcher, &no_kill);
    assert_eq!(launcher.spawns.get(), 1);
    assert!(
        !launcher.last_hidden.get(),
        "visible request must not be hidden"
    );
}

#[test]
fn router_unauthorized_message_becomes_pending_without_spawning() {
    let mut r = Desk::new(None);
    r.enqueue(spawn_sub("1", "/a", "/b"));
    let launcher = StubLauncher::default();

    assert!(r.poll(&vec![], &launcher).is_none());
    assert_eq!(r.pending().map(|p| p.sub.id.as_str()), Some("1"));
    assert_eq!(launcher.spawns.get(), 0, "no delivery before approval");
}

#[test]
fn caller_label_chooses_the_spawned_kind() {
    let mut r = Desk::new(granted());
    // /b has only pi; opencode was seen in another dir. The caller's label
    // must win over the dir's own kind.
    let entries = vec![dir_record("/b"), labeled_record("/c", "opencode")];
    r.enqueue(spawn_sub_label("1", "/a", "/b", "opencode"));
    let launcher = StubLauncher::default();
    r.poll(&entries, &launcher);
    assert_eq!(launcher.spawns.get(), 1);
    let cmd = launcher.last_command.borrow();
    assert_eq!(cmd.as_deref(), Some(["opencode".to_string()].as_slice()));
}

#[test]
fn unknown_label_fails_loud_without_spawning() {
    let mut r = Desk::new(granted());
    let entries = vec![dir_record("/b")];
    r.enqueue(spawn_sub_label("1", "/a", "/b", "ghost"));
    let launcher = StubLauncher::default();
    let status = r.poll(&entries, &launcher);
    assert_eq!(launcher.spawns.get(), 0);
    assert!(status.unwrap().contains("unknown label ghost"));
}

#[test]
fn router_whitelisted_message_with_no_agent_spawns_with_message() {
    let mut r = Desk::new(granted());
    r.enqueue(spawn_sub("1", "/a", "/b"));
    let launcher = StubLauncher::default();
    let entries = vec![dir_record("/b")];

    r.poll(&entries, &launcher);
    assert!(r.pending().is_none(), "whitelisted needs no decision");
    assert_eq!(launcher.spawns.get(), 1, "spawned an agent in the target");
    let first = launcher.last_msg.borrow();
    let first = first.as_deref().unwrap();
    assert!(
        first.ends_with("[from a]\nhi"),
        "the provenance-tagged message is the tail of the first prompt"
    );
    assert!(
        first.contains("task-confirmation handshake"),
        "a fresh spawn is prefixed with the swarm charter"
    );
}

#[test]
fn whitelist_edit_releases_an_already_pending_message() {
    // Headless approval: a message goes pending, then the pair is added to
    // the whitelist file out of band; the next poll releases and delivers
    // it with no operator decision.
    let mut r = Desk::new(None);
    r.enqueue(spawn_sub("1", "/a", "/b"));
    let launcher = StubLauncher::default();
    let entries = vec![dir_record("/b")];

    r.poll(&entries, &launcher); // -> pending (not yet whitelisted)
    assert_eq!(r.pending().map(|p| p.sub.id.as_str()), Some("1"));
    assert_eq!(launcher.spawns.get(), 0);

    r.grant("/a", "/b");
    r.poll(&entries, &launcher); // whitelist edit picked up -> delivered
    assert!(r.pending().is_none(), "released by the whitelist edit");
    assert_eq!(launcher.spawns.get(), 1);
    r.poll(&entries, &launcher); // nothing left to do
    assert_eq!(
        launcher.spawns.get(),
        1,
        "released message delivers only once"
    );
}

#[test]
fn router_allow_always_persists_authorizes_and_delivers() {
    let mut r = Desk::new(None);
    r.enqueue(spawn_sub("1", "/a", "/b"));
    let launcher = StubLauncher::default();
    let entries = vec![dir_record("/b")];

    r.poll(&entries, &launcher); // -> pending
    r.apply("1", ApprovalAction::AllowAlways).unwrap();
    assert!(mailbox::is_whitelisted(r.whitelist.as_deref(), "/a", "/b"));
    r.poll(&entries, &launcher); // re-queued -> delivered
    assert_eq!(launcher.spawns.get(), 1);
    r.poll(&entries, &launcher); // no residual re-delivery
    assert_eq!(launcher.spawns.get(), 1, "allow_always delivers only once");
}

#[test]
fn router_deny_drops_the_message() {
    let mut r = Desk::new(None);
    r.enqueue(spawn_sub("1", "/a", "/b"));
    let launcher = StubLauncher::default();

    r.poll(&vec![], &launcher); // -> pending
    r.apply("1", ApprovalAction::Deny).unwrap();
    assert!(r.pending().is_none());
    r.poll(&vec![], &launcher);
    assert_eq!(launcher.spawns.get(), 0, "denied -> never delivered");
}

#[test]
fn dormant_session_target_is_resumed_with_message() {
    let mut r = Desk::new(granted());
    r.enqueue(msg_sub("1", "/a", "sid-7", "/b"));
    let launcher = StubLauncher::default();
    let entries = vec![dormant("sid-7", "/b", "/s/sid-7.jsonl")];

    r.poll(&entries, &launcher);
    assert!(r.pending().is_none(), "whitelisted: no operator prompt");
    assert_eq!(launcher.resumes.get(), 1, "dormant session is resumed");
    assert_eq!(launcher.last_msg.borrow().as_deref(), Some("[from a]\nhi"));
}

#[test]
fn a_squatted_session_id_delivers_to_nobody() {
    // Two records claim one id (a peer squatting a victim's session id). The
    // authorized message must reach neither, and a stop must kill nothing.
    let mut r = Desk::new(granted());
    let entries = vec![
        live_record("sid-7", "/b", 4242),
        live_record("sid-7", "/evil", 5555),
    ];
    r.enqueue(msg_sub("1", "/a", "sid-7", "/b"));
    r.enqueue(stop_msg("2", "/a", "sid-7", "/b"));
    let launcher = StubLauncher::default();

    let status = r.poll(&entries, &launcher).unwrap();
    assert!(status.contains("ambiguous"), "status was: {status}");
    assert!(
        r.killed.borrow().is_empty(),
        "no kill on an ambiguous id"
    );
    assert_eq!(launcher.spawns.get(), 0);
    assert_eq!(launcher.resumes.get(), 0, "no resume on an ambiguous id");
}

#[test]
fn a_session_gone_by_routing_time_is_dropped() {
    // The boundary rejects an unknown session outright (recipient_not_found),
    // so the only way the router sees one is a session that disappeared
    // between accept and routing. Authorized, but nothing to deliver to.
    let mut r = Desk::new(granted());
    r.enqueue(msg_sub("1", "/a", "ghost", "/b"));
    let launcher = StubLauncher::default();

    let status = r.poll(&vec![], &launcher);
    assert!(status.unwrap().contains("session ghost not found"));
    assert!(r.pending().is_none());
    assert_eq!(launcher.spawns.get(), 0);
    assert_eq!(launcher.resumes.get(), 0);
}

#[test]
fn stop_kills_the_live_target_pid() {
    let mut r = Desk::new(granted());
    let entries = vec![live_record("sid-7", "/b", 4242)];
    r.enqueue(stop_msg("1", "/a", "sid-7", "/b"));
    let launcher = StubLauncher::default();

    r.poll(&entries, &launcher);
    assert!(r.pending().is_none(), "whitelisted: no operator prompt");
    assert_eq!(*r.killed.borrow(), vec![4242], "killed the socket pid");
    assert_eq!(launcher.spawns.get(), 0, "a stop never spawns");
    assert_eq!(launcher.resumes.get(), 0, "a stop never resumes");
}

#[test]
fn stop_dormant_target_is_a_noop() {
    let mut r = Desk::new(granted());
    // Dormant record (no socket): nothing to kill.
    let entries = vec![dormant("sid-7", "/b", "/s/sid-7.jsonl")];
    r.enqueue(stop_msg("1", "/a", "sid-7", "/b"));
    let launcher = StubLauncher::default();

    let status = r.poll(&entries, &launcher);
    assert!(r.killed.borrow().is_empty(), "nothing to kill");
    assert!(status.unwrap().contains("already dormant"));
}

#[test]
fn stop_honors_the_approval_gate() {
    // Not whitelisted: the stop must go pending, killing nothing until allowed.
    let mut r = Desk::new(None);
    let entries = vec![live_record("sid-7", "/b", 4242)];
    r.enqueue(stop_msg("1", "/a", "sid-7", "/b"));
    let launcher = StubLauncher::default();

    r.poll(&entries, &launcher);
    assert_eq!(r.pending().map(|p| p.sub.id.as_str()), Some("1"));
    assert!(r.killed.borrow().is_empty(), "no kill before approval");
    r.apply("1", ApprovalAction::AllowOnce).unwrap();
    r.poll(&entries, &launcher);
    assert_eq!(*r.killed.borrow(), vec![4242], "allowed -> killed");
}

#[test]
fn authorized_message_is_not_blocked_by_a_pending_one() {
    // The head-of-line-blocking regression: an unapproved message A must not
    // stall an authorized message B behind it. B delivers this same poll.
    let mut r = Desk::new(granted()); // B's pair only
    let entries = vec![dir_record("/unlisted"), dir_record("/b")];
    r.enqueue(spawn_sub("A", "/a", "/unlisted")); // needs approval
    r.enqueue(spawn_sub("B", "/a", "/b")); // whitelisted
    let launcher = StubLauncher::default();

    r.poll(&entries, &launcher);
    assert_eq!(launcher.spawns.get(), 1, "B delivered despite A pending");
    assert_eq!(
        r.pending().map(|p| p.sub.id.as_str()),
        Some("A"),
        "A still parked for approval"
    );
}

#[test]
fn multiple_unauthorized_messages_all_become_pending() {
    // Two unapproved messages must both be parked (each surfaced for its own
    // approval), not one hidden in the queue behind the other.
    let mut r = Desk::new(None);
    let entries = vec![dir_record("/b"), dir_record("/c")];
    r.enqueue(spawn_sub("A", "/a", "/b"));
    r.enqueue(spawn_sub("B", "/a", "/c"));
    let launcher = StubLauncher::default();

    r.poll(&entries, &launcher);
    let ids: Vec<&str> = r.router.pending_messages().iter().map(|p| p.sub.id.as_str()).collect();
    assert_eq!(ids, vec!["A", "B"], "both parked for approval");
    assert_eq!(launcher.spawns.get(), 0);
}

#[test]
fn apply_by_id_resolves_the_named_message_only() {
    // Approving the second pending message delivers it; the first stays
    // parked (out-of-order approval works, no head-of-line dependency).
    let mut r = Desk::new(None);
    let entries = vec![dir_record("/b"), dir_record("/c")];
    r.enqueue(spawn_sub("A", "/a", "/b"));
    r.enqueue(spawn_sub("B", "/a", "/c"));
    let launcher = StubLauncher::default();

    r.poll(&entries, &launcher); // A, B both pending
    r.apply("B", ApprovalAction::AllowOnce).unwrap();
    r.poll(&entries, &launcher); // B delivers
    assert_eq!(launcher.spawns.get(), 1);
    assert_eq!(
        r.pending().map(|p| p.sub.id.as_str()),
        Some("A"),
        "A remains parked"
    );
}

#[test]
fn apply_with_a_stale_id_is_a_noop() {
    // A late click on a superseded notification must not panic or disturb a
    // live pending message.
    let mut r = Desk::new(None);
    let entries = vec![dir_record("/b")];
    r.enqueue(spawn_sub("A", "/a", "/b"));
    let launcher = StubLauncher::default();
    r.poll(&entries, &launcher);
    r.apply("ghost", ApprovalAction::AllowOnce).unwrap();
    assert_eq!(
        r.pending().map(|p| p.sub.id.as_str()),
        Some("A"),
        "A untouched"
    );
}

#[test]
fn router_delivers_to_a_live_session_by_id() {
    let mut r = Desk::new(granted());
    let entries = vec![live_record("sid-7", "/b", 1)];
    r.enqueue(msg_sub("1", "/a", "sid-7", "/b"));
    let launcher = StubLauncher::default();
    r.poll(&entries, &launcher);
    assert_eq!(
        *r.sent.borrow(),
        [("/b/.corral/pi-1.sock".to_string(), "[from a]\nhi".to_string())]
    );
    assert_eq!(launcher.spawns.get(), 0, "live session needs no spawn");
    assert_eq!(launcher.resumes.get(), 0, "live socket needs no resume");
}

#[test]
fn a_dead_socket_is_resumed_instead() {
    let launcher = StubLauncher::default();
    deliver(
        &msg_sub("1", "/a", "sid-7", "/b"),
        &vec![live_record("sid-7", "/b", 1)],
        &launcher,
        &no_kill,
    );
    assert_eq!(launcher.resumes.get(), 1);
}

#[test]
fn an_approval_covers_one_submission() {
    let mut r = Desk::new(None);
    let launcher = StubLauncher::default();
    let entries = vec![dir_record("/b"), dir_record("/c")];
    r.enqueue(spawn_sub("1", "/a", "/b"));
    assert!(r.poll(&entries, &launcher).is_none());
    r.apply("1", ApprovalAction::AllowOnce).unwrap();
    assert!(r.poll(&entries, &launcher).is_some());
    assert_eq!(launcher.spawns.get(), 1);
    // Another pair under the same id is put to the operator.
    r.enqueue(spawn_sub("1", "/x", "/c"));
    assert!(r.poll(&entries, &launcher).is_none());
    assert_eq!(launcher.spawns.get(), 1);
    assert_eq!(r.pending().map(|p| p.sub.from_cwd.as_str()), Some("/x"));
    // So is the same pair, which was allowed once.
    r.enqueue(spawn_sub("2", "/a", "/b"));
    assert!(r.poll(&entries, &launcher).is_none());
    assert_eq!(r.router.pending_messages().len(), 2);
}

#[test]
fn a_pass_hands_out_only_what_is_authorized() {
    let mut r = Router::new();
    r.enqueue(spawn_sub("A", "/a", "/unlisted"));
    r.enqueue(spawn_sub("B", "/a", "/b"));
    r.enqueue(stop_msg("C", "/a", "sid-7", "/c"));
    let entries = vec![dir_record("/unlisted"), dir_record("/b"), live_record("sid-7", "/c", 42)];
    let whitelist = granted();
    let jobs = r.poll(whitelist.as_deref(), &entries);
    assert_eq!(jobs.len(), 1, "one launch and nothing else");
    assert!(matches!(jobs[0].step(), Delivery::Launch { cwd, .. } if cwd == "/b"));
    let ids: Vec<&str> = r.pending_messages().iter().map(|p| p.sub.id.as_str()).collect();
    assert_eq!(ids, ["A", "C"]);
    assert!(r.poll(whitelist.as_deref(), &entries).is_empty(), "each is handed out once");
    // Allowed, it is handed out once, though its pair cannot be listed.
    r.enqueue(spawn_sub("D", "/a -> /x", "/b"));
    assert!(r.poll(whitelist.as_deref(), &entries).is_empty());
    assert!(r.apply("D", ApprovalAction::AllowAlways).is_err());
    assert_eq!(r.poll(whitelist.as_deref(), &entries).len(), 1);
    assert!(r.poll(whitelist.as_deref(), &entries).is_empty());
    assert_eq!(r.pending_messages().len(), 2);
}

#[test]
fn a_job_goes_step_by_step() {
    // A process that a namespace numbers is found first.
    let mut rec = live_record("sid-7", "/b", 42);
    rec.pid = Some(5);
    rec.pid_namespace = Some(77);
    let stop = stop_msg("1", "/a", "sid-7", "/b");
    let mut j = job(stop.clone(), &vec![rec.clone()]);
    assert_eq!(*j.step(), Delivery::Find { pid: 5, pid_namespace: 77 });
    j.take(Answer::Sent(true));
    assert_eq!(*j.step(), Delivery::Find { pid: 5, pid_namespace: 77 }, "no answer to it");
    j.take(Answer::Found(Some(99)));
    assert_eq!(*j.step(), Delivery::Kill { pid: 99 });
    j.take(Answer::Done(Err("no".into())));
    assert_eq!(*j.step(), Delivery::Report("stop kill: no".into()));
    j.take(Answer::Done(Ok(())));
    assert_eq!(*j.step(), Delivery::Report("stop kill: no".into()), "a report is the end");
    let mut j = job(stop, &vec![rec.clone()]);
    j.take(Answer::Found(None));
    assert_eq!(
        *j.step(),
        Delivery::Report("stop: /b (session sid-7) has no correlatable host pid".into())
    );
    // A text that is not taken resumes the session.
    let msg = msg_sub("1", "/a", "sid-7", "/b");
    let mut j = job(msg.clone(), &vec![rec.clone()]);
    assert!(matches!(j.step(), Delivery::Prompt { text, .. } if text == "[from a]\nhi"));
    j.take(Answer::Sent(true));
    assert_eq!(*j.step(), Delivery::Report("routed to /b (session sid-7)".into()));
    let mut j = job(msg, &vec![rec]);
    j.take(Answer::Sent(false));
    assert!(matches!(j.step(), Delivery::Launch { cwd, .. } if cwd == "/b"));
    j.take(Answer::Done(Ok(())));
    assert_eq!(*j.step(), Delivery::Report("routed to /b (session sid-7) (resumed)".into()));
    assert_eq!(status(&vec![]), None);
    assert_eq!(status(&vec!["a".into(), "b".into()]), Some("a; b".into()));
}
