//! Hiding and revealing agents.
use corral::focus::WindowFocuser;
use corral::launch::{LaunchMode, Launcher};
use corral::model::{Agent, Origin, State};
use corral::placement::{
    apply_placement, kill_report, placement_for, relaunch, Placement, Turn,
};
use std::cell::RefCell;

fn live_agent(hidden: bool) -> Agent {
    Agent {
        socket_path: "/tmp/p/.corral/pi-7.sock".into(),
        pid: 7,
        label: "pi".into(),
        session_id: Some("s1".into()),
        title: None,
        cwd: Some("/tmp/p".into()),
        state: State::Idle,
        origin: Origin::Live,
        spawn_command: Some(vec!["pi".into()]),
        resume_command: Some(vec!["pi".into(), "--session".into(), "{sessionId}".into()]),
        activity: None,
        gui: false,
        message_flag: None,
        hidden,
        model: None,
        state_since: 0,
        last_activity: 0,
    }
}

#[derive(Default)]
struct Stub {
    closed: RefCell<Vec<u32>>,
    launched: RefCell<Vec<(Vec<String>, LaunchMode)>>,
    killed: RefCell<Vec<u32>>,
}

impl WindowFocuser for Stub {
    fn focus(&self, _a: &Agent) -> Result<(), String> {
        Ok(())
    }
    fn close(&self, a: &Agent) -> Result<(), String> {
        self.closed.borrow_mut().push(a.pid);
        Ok(())
    }
}

impl Launcher for Stub {
    fn launch(
        &self,
        _cwd: &str,
        command: &Vec<String>,
        _m: Option<&str>,
        mode: &LaunchMode,
    ) -> Result<(), String> {
        self.launched
            .borrow_mut()
            .push((command.to_vec(), mode.clone()));
        Ok(())
    }
}

/// Toggles an agent's placement, turn by turn.
fn toggle<K: Fn(u32) -> Result<(), String>>(
    agent: &Agent,
    focuser: &Stub,
    launcher: &Stub,
    kill: &K,
) -> Result<(), String> {
    let mut t = apply_placement(agent);
    loop {
        let result = match t.turn() {
            Turn::Kill { pid } => kill(*pid),
            Turn::Close => focuser.close(agent),
            Turn::Launch { cwd, command, mode } => launcher.launch(cwd, command, None, mode),
            Turn::Ended(r) => return r.clone(),
        };
        t.take(result);
    }
}

#[test]
fn placement_dispatch_is_pure() {
    assert_eq!(placement_for(Origin::Live, true), Placement::Reveal);
    assert_eq!(placement_for(Origin::Live, false), Placement::Hide);
    assert_eq!(
        placement_for(Origin::Dormant, false),
        Placement::StartHidden
    );
    assert_eq!(placement_for(Origin::Dormant, true), Placement::StartHidden);
}

#[test]
fn reveal_kills_pid_then_resumes_visible() {
    let s = Stub::default();
    let a = live_agent(true);
    toggle(&a, &s, &s, &|p| {
        s.killed.borrow_mut().push(p);
        Ok(())
    })
    .unwrap();
    assert_eq!(*s.killed.borrow(), vec![7], "reveal kills the agent pid");
    assert!(
        s.closed.borrow().is_empty(),
        "reveal does not use focuser.close"
    );
    let launched = s.launched.borrow();
    assert_eq!(launched.len(), 1);
    assert_eq!(launched[0].0, vec!["pi", "--session", "s1"]);
    assert!(!launched[0].1.hidden, "reveal resumes visible");
}

#[test]
fn hide_closes_window_then_resumes_hidden() {
    let s = Stub::default();
    let a = live_agent(false);
    toggle(&a, &s, &s, &|_p| panic!("hide must not kill by pid")).unwrap();
    assert_eq!(*s.closed.borrow(), vec![7], "hide closes the host window");
    let launched = s.launched.borrow();
    assert_eq!(launched.len(), 1);
    assert!(launched[0].1.hidden, "hide resumes hidden");
}

#[test]
fn start_hidden_resumes_dormant_without_kill() {
    let s = Stub::default();
    let mut a = live_agent(false);
    a.origin = Origin::Dormant;
    a.pid = 0;
    toggle(&a, &s, &s, &|_p| panic!("dormant has no process to kill")).unwrap();
    assert!(s.closed.borrow().is_empty());
    let launched = s.launched.borrow();
    assert_eq!(launched.len(), 1);
    assert!(launched[0].1.hidden, "start-hidden resumes hidden");
}

#[test]
fn missing_resume_command_is_an_error() {
    let s = Stub::default();
    let mut a = live_agent(true);
    a.resume_command = None;
    assert!(toggle(&a, &s, &s, &|_| Ok(())).is_err());
}

#[test]
fn what_a_relaunch_takes() {
    let r = relaunch(&live_agent(true)).unwrap();
    assert_eq!(r.placement, Placement::Reveal);
    assert_eq!(r.cwd, "/tmp/p");
    assert_eq!(r.command, ["pi", "--session", "s1"]);
    assert!(!r.mode.hidden);
    let mut a = live_agent(false);
    a.cwd = None;
    assert!(relaunch(&a).is_err());
}

#[test]
fn a_failed_stop_ends_the_placement() {
    let s = Stub::default();
    let a = live_agent(true);
    assert_eq!(toggle(&a, &s, &s, &|_| Err("no".to_string())), Err("no".to_string()));
    assert!(s.launched.borrow().is_empty());
    assert_eq!(kill_report(&Ok(true)), Ok(()));
    assert!(kill_report(&Ok(false)).is_err());
    assert!(kill_report(&Err("gone".to_string())).is_err());
}

#[test]
fn an_agent_that_cannot_be_relaunched_is_left_alone() {
    let mut a = live_agent(true);
    a.cwd = None;
    let mut t = apply_placement(&a);
    assert_eq!(*t.turn(), Turn::Ended(Err("placement: agent has no cwd to relaunch in".into())));
    t.take(Ok(()));
    assert!(matches!(t.turn(), Turn::Ended(Err(_))), "nothing follows an end");
    let mut t = apply_placement(&live_agent(false));
    assert_eq!(*t.turn(), Turn::Close);
    t.take(Err("no".into()));
    assert_eq!(*t.turn(), Turn::Ended(Err("hide close: no".into())));
    let mut a = live_agent(false);
    a.origin = Origin::Dormant;
    let mut t = apply_placement(&a);
    assert!(matches!(t.turn(), Turn::Launch { .. }));
    t.take(Err("no".into()));
    assert_eq!(*t.turn(), Turn::Ended(Err("placement resume: no".into())));
}
