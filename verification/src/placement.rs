//! Which side an agent's window lives on: visible, or hidden in a headless
//! compositor. A running window cannot change sides, so a change of placement
//! stops the instance and resumes its session on the other side.
use vstd::prelude::*;

use crate::approved_commands::{filled_in, law_template_is_filled_in};
use crate::launch::{outcome, ran_view, run_outcome, run_report, LaunchMode, LaunchModeView};
use crate::model::{or_empty, Agent, AgentView, Origin};
use crate::text::{cat, texts};

verus! {

/// What toggling an agent's placement does.
#[derive(Debug, Clone, Copy, PartialEq, Eq, Structural)]
pub enum Placement {
    /// Live and hidden: end it, resume it visible.
    Reveal,
    /// Live and visible: close its window, resume it hidden.
    Hide,
    /// Dormant: resume it hidden.
    StartHidden,
}

/// What toggling the placement of such an agent does.
pub open spec fn toggle(origin: Origin, hidden: bool) -> Placement {
    match origin {
        Origin::Live => if hidden {
            Placement::Reveal
        } else {
            Placement::Hide
        },
        Origin::Dormant => Placement::StartHidden,
    }
}

/// What toggling the placement of such an agent does.
pub fn placement_for(origin: Origin, hidden: bool) -> (r: Placement)
    ensures
        r == toggle(origin, hidden),
{
    match (origin, hidden) {
        (Origin::Live, true) => Placement::Reveal,
        (Origin::Live, false) => Placement::Hide,
        (Origin::Dormant, _) => Placement::StartHidden,
    }
}

/// How a session is relaunched on the other side.
pub struct Relaunch {
    pub placement: Placement,
    pub cwd: String,
    pub command: Vec<String>,
    pub mode: LaunchMode,
}

/// What a relaunch holds.
#[verifier::ext_equal]
pub struct RelaunchView {
    pub placement: Placement,
    pub cwd: Seq<char>,
    pub command: Seq<Seq<char>>,
    pub mode: LaunchModeView,
}

impl View for Relaunch {
    type V = RelaunchView;

    open spec fn view(&self) -> RelaunchView {
        RelaunchView {
            placement: self.placement,
            cwd: self.cwd@,
            command: texts(self.command@),
            mode: self.mode@,
        }
    }
}

/// How an agent is relaunched on the other side, or why it cannot be.
pub open spec fn relaunch_of(a: AgentView) -> Result<RelaunchView, Seq<char>> {
    match (a.cwd, a.resume_argv()) {
        (None, _) => Err("placement: agent has no cwd to relaunch in"@),
        (Some(_), None) => Err("placement: agent has no resume command"@),
        (Some(cwd), Some(command)) => {
            let placement = toggle(a.origin, a.hidden);
            Ok(
                RelaunchView {
                    placement,
                    cwd,
                    command,
                    mode: LaunchModeView { hidden: placement != Placement::Reveal, ..a.launch_mode() },
                },
            )
        },
    }
}

/// How an agent is relaunched on the other side: in its directory, with its
/// resume command, visible if it was hidden and hidden otherwise. An agent
/// without one of these is refused.
pub fn relaunch(agent: &Agent) -> (r: Result<Relaunch, String>)
    ensures
        match r {
            Ok(p) => relaunch_of(agent@) == Ok::<RelaunchView, Seq<char>>(p@),
            Err(e) => relaunch_of(agent@) == Err::<RelaunchView, Seq<char>>(e@),
        },
{
    match &agent.cwd {
        None => Err("placement: agent has no cwd to relaunch in".to_owned()),
        Some(cwd) => match agent.resume_argv() {
            None => Err("placement: agent has no resume command".to_owned()),
            Some(command) => {
                let placement = placement_for(agent.origin, agent.hidden);
                let mut mode = agent.launch_mode();
                mode.hidden = placement != Placement::Reveal;
                Ok(Relaunch { placement, cwd: cwd.clone(), command, mode })
            },
        },
    }
}

/// What toggling a placement takes next.
#[derive(Debug, PartialEq, Eq)]
pub enum Turn {
    /// To kill the hidden instance by its pid.
    Kill { pid: u32 },
    /// To close the agent's window.
    Close,
    /// To resume the session on the other side.
    Launch { cwd: String, command: Vec<String>, mode: LaunchMode },
    /// Nothing: it ended so.
    Ended(Result<(), String>),
}

pub enum TurnView {
    Kill { pid: u32 },
    Close,
    Launch { cwd: Seq<char>, command: Seq<Seq<char>>, mode: LaunchModeView },
    Ended(Result<(), Seq<char>>),
}

impl View for Turn {
    type V = TurnView;

    open spec fn view(&self) -> TurnView {
        match self {
            Turn::Kill { pid } => TurnView::Kill { pid: *pid },
            Turn::Close => TurnView::Close,
            Turn::Launch { cwd, command, mode } => TurnView::Launch {
                cwd: cwd@,
                command: texts(command@),
                mode: mode@,
            },
            Turn::Ended(r) => TurnView::Ended(outcome(*r)),
        }
    }
}

/// A placement being toggled: what it takes now, and the launch that is left once
/// the running instance was stopped.
#[derive(Debug)]
pub struct Toggling {
    turn: Turn,
    left: Option<Turn>,
}

#[verifier::ext_equal]
pub struct TogglingView {
    pub turn: TurnView,
    pub left: Option<TurnView>,
}

impl View for Toggling {
    type V = TogglingView;

    closed spec fn view(&self) -> TogglingView {
        TogglingView {
            turn: self.turn@,
            left: match self.left {
                Some(t) => Some(t@),
                None => None,
            },
        }
    }
}

/// The launch of a relaunch.
pub open spec fn launch_turn(p: RelaunchView) -> TurnView {
    TurnView::Launch { cwd: p.cwd, command: p.command, mode: p.mode }
}

/// How an agent's placement is toggled: a hidden instance is ended by its pid and a
/// visible one by its window, and where that succeeds the session is resumed on the
/// other side. A dormant session is resumed at once. An agent without a directory or
/// a resume command is refused, and nothing of it is touched.
pub open spec fn toggling(a: AgentView) -> TogglingView {
    match relaunch_of(a) {
        Err(e) => TogglingView { turn: TurnView::Ended(Err(e)), left: None },
        Ok(p) => match p.placement {
            Placement::Reveal => TogglingView {
                turn: TurnView::Kill { pid: a.pid },
                left: Some(launch_turn(p)),
            },
            Placement::Hide => TogglingView { turn: TurnView::Close, left: Some(launch_turn(p)) },
            Placement::StartHidden => TogglingView { turn: launch_turn(p), left: None },
        },
    }
}

/// A toggling once its turn came to a result. Nothing follows an error or the
/// launch.
pub open spec fn turned(t: TogglingView, result: Result<(), Seq<char>>) -> TogglingView {
    let ended = |r: Result<(), Seq<char>>| TogglingView { turn: TurnView::Ended(r), left: None };
    match t.turn {
        TurnView::Ended(_) => t,
        TurnView::Launch { .. } => match result {
            Ok(_) => ended(Ok(())),
            Err(e) => ended(Err("placement resume: "@ + e)),
        },
        TurnView::Kill { .. } => match (result, t.left) {
            (Err(e), _) => ended(Err(e)),
            (Ok(_), Some(l)) => TogglingView { turn: l, left: None },
            (Ok(_), None) => ended(Ok(())),
        },
        TurnView::Close => match (result, t.left) {
            (Err(e), _) => ended(Err("hide close: "@ + e)),
            (Ok(_), Some(l)) => TogglingView { turn: l, left: None },
            (Ok(_), None) => ended(Ok(())),
        },
    }
}

/// Toggles an agent's placement: gives what that takes, turn by turn.
pub fn apply_placement(agent: &Agent) -> (r: Toggling)
    ensures
        r@ == toggling(agent@),
{
    match relaunch(agent) {
        Err(e) => Toggling { turn: Turn::Ended(Err(e)), left: None },
        Ok(p) => {
            let launch = Turn::Launch { cwd: p.cwd, command: p.command, mode: p.mode };
            match p.placement {
                Placement::Reveal => Toggling {
                    turn: Turn::Kill { pid: agent.pid },
                    left: Some(launch),
                },
                Placement::Hide => Toggling { turn: Turn::Close, left: Some(launch) },
                Placement::StartHidden => Toggling { turn: launch, left: None },
            }
        },
    }
}

impl Toggling {
    /// What the toggling takes now.
    pub fn turn(&self) -> (r: &Turn)
        ensures
            r@ == self@.turn,
    {
        &self.turn
    }

    /// Takes in what came of the turn.
    pub fn take(&mut self, result: Result<(), String>)
        ensures
            final(self)@ == turned(old(self)@, outcome(result)),
    {
        let mut left: Option<Turn> = None;
        let next = match &self.turn {
            Turn::Ended(_) => {
                return;
            },
            Turn::Launch { .. } => match result {
                Ok(_) => Turn::Ended(Ok(())),
                Err(e) => Turn::Ended(Err(cat("placement resume: ", e.as_str()))),
            },
            Turn::Kill { .. } => match result {
                Err(e) => Turn::Ended(Err(e)),
                Ok(_) => {
                    std::mem::swap(&mut left, &mut self.left);
                    match left {
                        Some(l) => l,
                        None => Turn::Ended(Ok(())),
                    }
                },
            },
            Turn::Close => match result {
                Err(e) => Turn::Ended(Err(cat("hide close: ", e.as_str()))),
                Ok(_) => {
                    std::mem::swap(&mut left, &mut self.left);
                    match left {
                        Some(l) => l,
                        None => Turn::Ended(Ok(())),
                    }
                },
            },
        };
        self.turn = next;
        self.left = None;
    }
}

/// An agent that cannot be relaunched is refused with nothing killed, closed or
/// launched. Any other is launched at most once: at once where it is dormant, and
/// otherwise only after its instance was stopped, by its pid where it was hidden and
/// by its window where it was visible; where that fails nothing is launched. What
/// the launch ended in ends the toggling.
pub proof fn law_toggling_stops_then_launches_once(
    a: AgentView,
    stopped: Result<(), Seq<char>>,
    launched: Result<(), Seq<char>>,
)
    ensures
        ({
            let t = toggling(a);
            let u = turned(t, stopped);
            match relaunch_of(a) {
                Err(e) => t.turn == TurnView::Ended(Err::<(), Seq<char>>(e)) && u == t,
                Ok(p) => {
                    &&& a.origin == Origin::Live ==> {
                        &&& t.turn == (if a.hidden {
                            TurnView::Kill { pid: a.pid }
                        } else {
                            TurnView::Close
                        })
                        &&& stopped is Err ==> u.turn is Ended && u.turn->Ended_0 is Err
                        &&& stopped is Ok ==> u.turn == launch_turn(p)
                        &&& turned(u, launched).turn is Ended
                        &&& turned(u, launched).turn->Ended_0 is Ok <==> stopped is Ok
                            && launched is Ok
                    }
                    &&& a.origin == Origin::Dormant ==> {
                        &&& t.turn == launch_turn(p)
                        &&& turned(t, launched).turn is Ended
                        &&& turned(t, launched).turn->Ended_0 is Ok <==> launched is Ok
                    }
                },
            }
        }),
{
}

/// Toggling the placement always changes sides: what was hidden comes back
/// visible, and everything else hidden. Nothing of the launch is changed beside
/// that.
pub proof fn law_toggle_changes_sides(a: AgentView)
    ensures
        relaunch_of(a) matches Ok(p) ==> {
            &&& p.mode.hidden == !(a.origin == Origin::Live && a.hidden)
            &&& p.mode.gui == a.gui
            &&& p.mode.message_flag == a.message_flag
            &&& Some(p.cwd) == a.cwd
            &&& Some(p.command) == a.resume_argv()
        },
{
}

/// Stopping is decided by where the instance runs: only a hidden one is ended
/// by its pid, only a visible one by its window, and a dormant one not at all.
pub proof fn law_stop_by_side(origin: Origin, hidden: bool)
    ensures
        toggle(origin, hidden) == Placement::Reveal <==> origin == Origin::Live && hidden,
        toggle(origin, hidden) == Placement::Hide <==> origin == Origin::Live && !hidden,
        toggle(origin, hidden) == Placement::StartHidden <==> origin == Origin::Dormant,
{
}

/// The report of a `kill` command that ran, and whether it succeeded, or that
/// could not be run.
pub fn kill_report(ran: &Result<bool, String>) -> (r: Result<(), String>)
    ensures
        outcome(r) == run_outcome(ran_view(*ran), "kill failed: "@, "kill returned non-zero"@),
{
    run_report(ran, "kill failed: ", "kill returned non-zero")
}

/// An agent can change sides exactly where it has a directory and a resume
/// command, and what it is started with again is its own resume command, with its
/// id and directory filled in.
pub proof fn law_toggle_resumes_the_same_session(a: AgentView, other: Option<Seq<Seq<char>>>)
    ensures
        relaunch_of(a) is Ok <==> a.cwd is Some && a.resume_command is Some,
        relaunch_of(a) matches Ok(p) ==> {
            &&& p.cwd == a.cwd->0
            &&& filled_in(p.command, a.resume_command->0, or_empty(a.session_id), a.cwd->0)
        },
        relaunch_of(AgentView { spawn_command: other, ..a }) == relaunch_of(a),
{
    if a.resume_command is Some {
        law_template_is_filled_in(a.resume_command->0, a.own_id(), a.cwd);
    }
}

} // verus!
