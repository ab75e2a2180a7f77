//! What the operator's actions ask for: things to be done outside, and what is
//! said of how they went.
use vstd::prelude::*;

use crate::approved_commands::{filled_in, law_template_is_filled_in};
use crate::board::card::{called, focus_label};
use crate::launch::{default_cwd, opt_str, LaunchMode, LaunchModeView};
use crate::model::{or_empty, Agent, AgentView, Column, Origin};
use crate::text::{cat, cat3, opt_text, texts};
use crate::transition::{action_for, move_action, MoveAction};

verus! {

/// Something to be done outside.
pub enum Deed {
    /// Raise the agent's window.
    Focus(Agent),
    /// Close the agent's window.
    Close(Agent),
    /// Put the agent's window on the other side.
    Place(Agent),
    /// End a process.
    Kill(u32),
    /// Hand a text to the agent at a socket.
    Prompt { socket: String, text: String },
    /// Stop the turn of the agent at a socket.
    Cancel { socket: String },
    /// Start a command in a directory, perhaps with a first message.
    Launch { cwd: String, command: Vec<String>, message: Option<String>, mode: LaunchMode },
    /// Remove the record of a session.
    Forget { cwd: String, session_id: String },
}

pub enum DeedView {
    Focus(AgentView),
    Close(AgentView),
    Place(AgentView),
    Kill(u32),
    Prompt { socket: Seq<char>, text: Seq<char> },
    Cancel { socket: Seq<char> },
    Launch {
        cwd: Seq<char>,
        command: Seq<Seq<char>>,
        message: Option<Seq<char>>,
        mode: LaunchModeView,
    },
    Forget { cwd: Seq<char>, session_id: Seq<char> },
}

impl View for Deed {
    type V = DeedView;

    open spec fn view(&self) -> DeedView {
        match self {
            Deed::Focus(a) => DeedView::Focus(a@),
            Deed::Close(a) => DeedView::Close(a@),
            Deed::Place(a) => DeedView::Place(a@),
            Deed::Kill(p) => DeedView::Kill(*p),
            Deed::Prompt { socket, text } => DeedView::Prompt { socket: socket@, text: text@ },
            Deed::Cancel { socket } => DeedView::Cancel { socket: socket@ },
            Deed::Launch { cwd, command, message, mode } => DeedView::Launch {
                cwd: cwd@,
                command: texts(command@),
                message: opt_text(*message),
                mode: mode@,
            },
            Deed::Forget { cwd, session_id } => DeedView::Forget {
                cwd: cwd@,
                session_id: session_id@,
            },
        }
    }
}

/// What follows a deed that went well.
pub enum After {
    Nothing,
    /// A popup has done its work.
    LeaveLauncher,
    /// The card of an agent is on its way to a column.
    Pending(String, Column),
}

pub enum AfterView {
    Nothing,
    LeaveLauncher,
    Pending(Seq<char>, Column),
}

impl View for After {
    type V = AfterView;

    open spec fn view(&self) -> AfterView {
        match self {
            After::Nothing => AfterView::Nothing,
            After::LeaveLauncher => AfterView::LeaveLauncher,
            After::Pending(k, c) => AfterView::Pending(k@, *c),
        }
    }
}

/// What is said of a deed: what it is called where it went well, if anything,
/// what goes before the words of a failure, and what follows.
pub struct Report {
    pub done: Option<String>,
    pub failed: String,
    pub after: After,
}

pub struct ReportView {
    pub done: Option<Seq<char>>,
    pub failed: Seq<char>,
    pub after: AfterView,
}

impl View for Report {
    type V = ReportView;

    open spec fn view(&self) -> ReportView {
        ReportView { done: opt_text(self.done), failed: self.failed@, after: self.after@ }
    }
}

/// A deed and what is said of it.
pub struct Task {
    pub deed: Deed,
    pub report: Report,
}

pub struct TaskView {
    pub deed: DeedView,
    pub report: ReportView,
}

impl View for Task {
    type V = TaskView;

    open spec fn view(&self) -> TaskView {
        TaskView { deed: self.deed@, report: self.report@ }
    }
}

/// What an action asks for: a deed, or words in which it is refused.
pub open spec fn plan_view(p: Result<Task, String>) -> Result<TaskView, Seq<char>> {
    match p {
        Ok(t) => Ok(t@),
        Err(e) => Err(e@),
    }
}

/// What going to an agent asks for: a hidden one is put on the visible side, a
/// visible one is raised, and a dormant one is resumed where it was.
pub open spec fn go_plan(a: AgentView) -> Result<TaskView, Seq<char>> {
    let report = |failed: Seq<char>| ReportView { done: None, failed, after: AfterView::LeaveLauncher };
    match a.origin {
        Origin::Live => if a.hidden {
            Ok(TaskView { deed: DeedView::Place(a), report: report("reveal: "@) })
        } else {
            Ok(TaskView { deed: DeedView::Focus(a), report: report("focus: "@) })
        },
        Origin::Dormant => match (a.cwd, a.resume_argv()) {
            (Some(cwd), Some(command)) => Ok(
                TaskView {
                    deed: DeedView::Launch { cwd, command, message: None, mode: a.launch_mode() },
                    report: report("resume: "@),
                },
            ),
            _ => Err("resume: dormant record missing cwd/resume command"@),
        },
    }
}

fn leaving(failed: &str) -> (r: Report)
    ensures
        r@ == (ReportView { done: None, failed: failed@, after: AfterView::LeaveLauncher }),
{
    Report { done: None, failed: failed.to_owned(), after: After::LeaveLauncher }
}

fn saying(done: String, failed: &str) -> (r: Report)
    ensures
        r@ == (ReportView { done: Some(done@), failed: failed@, after: AfterView::Nothing }),
{
    Report { done: Some(done), failed: failed.to_owned(), after: After::Nothing }
}

/// What going to an agent asks for.
pub fn activate(agent: &Agent) -> (r: Result<Task, String>)
    ensures
        plan_view(r) == go_plan(agent@),
{
    match agent.origin {
        Origin::Live => if agent.hidden {
            Ok(Task { deed: Deed::Place(agent.clone()), report: leaving("reveal: ") })
        } else {
            Ok(Task { deed: Deed::Focus(agent.clone()), report: leaving("focus: ") })
        },
        Origin::Dormant => match &agent.cwd {
            Some(cwd) => match agent.resume_argv() {
                Some(command) => Ok(
                    Task {
                        deed: Deed::Launch {
                            cwd: cwd.clone(),
                            command,
                            message: None,
                            mode: agent.launch_mode(),
                        },
                        report: leaving("resume: "),
                    },
                ),
                None => Err("resume: dormant record missing cwd/resume command".to_owned()),
            },
            None => Err("resume: dormant record missing cwd/resume command".to_owned()),
        },
    }
}

/// What putting an agent on the other side asks for.
pub open spec fn toggle_plan(a: AgentView) -> TaskView {
    TaskView {
        deed: DeedView::Place(a),
        report: ReportView {
            done: Some("toggling "@ + called(a)),
            failed: ""@,
            after: AfterView::Nothing,
        },
    }
}

/// What putting an agent on the other side asks for.
pub fn toggle_placement(agent: &Agent) -> (r: Task)
    ensures
        r@ == toggle_plan(agent@),
{
    let label = focus_label(agent);
    Task {
        deed: Deed::Place(agent.clone()),
        report: saying(cat("toggling ", label.as_str()), ""),
    }
}

/// Where a new agent beside another is started.
pub open spec fn spawn_cwd(a: AgentView, home: Option<Seq<char>>) -> Seq<char> {
    match (a.cwd, home) {
        (Some(c), _) => c,
        (None, Some(h)) => h,
        (None, None) => "."@,
    }
}

/// What starting a new agent beside another asks for: the same kind, in the same
/// directory, on the same side.
pub open spec fn spawn_plan(a: AgentView, home: Option<Seq<char>>) -> Result<TaskView, Seq<char>> {
    match a.spawn_argv() {
        None => Err("spawn: "@ + a.label + " announced no spawn command"@),
        Some(command) => Ok(
            TaskView {
                deed: DeedView::Launch {
                    cwd: spawn_cwd(a, home),
                    command,
                    message: None,
                    mode: a.launch_mode(),
                },
                report: ReportView {
                    done: None,
                    failed: "spawn: "@,
                    after: AfterView::LeaveLauncher,
                },
            },
        ),
    }
}

/// What starting a new agent beside another asks for.
pub fn spawn_beside(agent: &Agent, home: Option<&str>) -> (r: Result<Task, String>)
    ensures
        plan_view(r) == spawn_plan(agent@, opt_str(home)),
{
    match agent.spawn_argv() {
        None => Err(cat3("spawn: ", agent.label.as_str(), " announced no spawn command")),
        Some(command) => {
            let at = match &agent.cwd {
                Some(c) => Some(c.as_str()),
                None => None,
            };
            let cwd = default_cwd(at, home);
            Ok(
                Task {
                    deed: Deed::Launch { cwd, command, message: None, mode: agent.launch_mode() },
                    report: leaving("spawn: "),
                },
            )
        },
    }
}

/// What dismissing an agent asks for: a live one is closed, by its process where
/// it is hidden and by its window otherwise, and a dormant one is forgotten.
pub open spec fn dismiss_plan(a: AgentView) -> Option<TaskView> {
    let closing = ReportView {
        done: Some("closing "@ + called(a)),
        failed: "close: "@,
        after: AfterView::Nothing,
    };
    match a.origin {
        Origin::Live => if a.hidden {
            Some(TaskView { deed: DeedView::Kill(a.pid), report: closing })
        } else {
            Some(TaskView { deed: DeedView::Close(a), report: closing })
        },
        Origin::Dormant => match (a.cwd, a.session_id) {
            (Some(cwd), Some(session_id)) => Some(
                TaskView {
                    deed: DeedView::Forget { cwd, session_id },
                    report: ReportView { done: None, failed: "dismiss: "@, after: AfterView::Nothing },
                },
            ),
            _ => None,
        },
    }
}

/// What dismissing an agent asks for.
pub fn dismiss(agent: &Agent) -> (r: Option<Task>)
    ensures
        match r {
            Some(t) => dismiss_plan(agent@) == Some(t@),
            None => dismiss_plan(agent@) is None,
        },
{
    match agent.origin {
        Origin::Live => {
            let label = focus_label(agent);
            let report = saying(cat("closing ", label.as_str()), "close: ");
            if agent.hidden {
                Some(Task { deed: Deed::Kill(agent.pid), report })
            } else {
                Some(Task { deed: Deed::Close(agent.clone()), report })
            }
        },
        Origin::Dormant => match &agent.cwd {
            Some(cwd) => match &agent.session_id {
                Some(id) => Some(
                    Task {
                        deed: Deed::Forget { cwd: cwd.clone(), session_id: id.clone() },
                        report: Report {
                            done: None,
                            failed: "dismiss: ".to_owned(),
                            after: After::Nothing,
                        },
                    },
                ),
                None => None,
            },
            None => None,
        },
    }
}

/// Dismissing twice removes a session: what is live is closed, which leaves a
/// dormant record, and what is dormant is forgotten. Nothing live is ever
/// forgotten, and nothing dormant is closed.
pub proof fn law_dismiss_closes_then_forgets(a: AgentView)
    ensures
        a.origin == Origin::Live ==> (dismiss_plan(a) matches Some(t) && !(t.deed is Forget)),
        a.origin == Origin::Dormant ==> (dismiss_plan(a) matches Some(t) ==> t.deed is Forget),
{
}

/// Where a message that the operator writes goes.
pub enum ComposeTarget {
    /// To the socket of a live agent.
    Live(String),
    /// Into a dormant session, which is resumed with it.
    Dormant { cwd: String, resume_command: Vec<String>, mode: LaunchMode },
}

pub enum ComposeTargetView {
    Live(Seq<char>),
    Dormant { cwd: Seq<char>, resume_command: Seq<Seq<char>>, mode: LaunchModeView },
}

impl View for ComposeTarget {
    type V = ComposeTargetView;

    open spec fn view(&self) -> ComposeTargetView {
        match self {
            ComposeTarget::Live(s) => ComposeTargetView::Live(s@),
            ComposeTarget::Dormant { cwd, resume_command, mode } => ComposeTargetView::Dormant {
                cwd: cwd@,
                resume_command: texts(resume_command@),
                mode: mode@,
            },
        }
    }
}

/// A message that the operator writes.
pub struct Compose {
    pub target: ComposeTarget,
    pub label: String,
    pub buf: String,
}

#[verifier::ext_equal]
pub struct ComposeView {
    pub target: ComposeTargetView,
    pub label: Seq<char>,
    pub buf: Seq<char>,
}

impl View for Compose {
    type V = ComposeView;

    open spec fn view(&self) -> ComposeView {
        ComposeView { target: self.target@, label: self.label@, buf: self.buf@ }
    }
}

/// A message to an agent, with nothing written; none to a dormant one that
/// cannot be resumed.
pub open spec fn compose_to(a: AgentView) -> Option<ComposeView> {
    let target = match a.origin {
        Origin::Live => Some(ComposeTargetView::Live(a.socket_path)),
        Origin::Dormant => match (a.cwd, a.resume_argv()) {
            (Some(cwd), Some(resume_command)) => Some(
                ComposeTargetView::Dormant { cwd, resume_command, mode: a.launch_mode() },
            ),
            _ => None,
        },
    };
    match target {
        Some(t) => Some(ComposeView { target: t, label: called(a), buf: Seq::empty() }),
        None => None,
    }
}

/// A message to an agent, with nothing written.
pub fn open_compose(agent: &Agent) -> (r: Option<Compose>)
    ensures
        match r {
            Some(c) => compose_to(agent@) == Some(c@),
            None => compose_to(agent@) is None,
        },
{
    let target = match agent.origin {
        Origin::Live => ComposeTarget::Live(agent.socket_path.clone()),
        Origin::Dormant => match &agent.cwd {
            Some(cwd) => match agent.resume_argv() {
                Some(command) => ComposeTarget::Dormant {
                    cwd: cwd.clone(),
                    resume_command: command,
                    mode: agent.launch_mode(),
                },
                None => {
                    return None;
                },
            },
            None => {
                return None;
            },
        },
    };
    Some(Compose { target, label: focus_label(agent), buf: String::new() })
}

/// What sending a message asks for.
pub open spec fn send_plan(c: ComposeView, text: Seq<char>) -> TaskView {
    match c.target {
        ComposeTargetView::Live(socket) => TaskView {
            deed: DeedView::Prompt { socket, text },
            report: ReportView {
                done: Some("sent to "@ + c.label),
                failed: "send: "@,
                after: AfterView::Nothing,
            },
        },
        ComposeTargetView::Dormant { cwd, resume_command, mode } => TaskView {
            deed: DeedView::Launch { cwd, command: resume_command, message: Some(text), mode },
            report: ReportView {
                done: Some("resuming "@ + c.label + " to deliver"@),
                failed: "resume: "@,
                after: AfterView::Nothing,
            },
        },
    }
}

/// What sending a message asks for: a live agent gets it over its socket, a
/// dormant session is resumed with it as its first prompt.
pub fn send(c: Compose, text: String) -> (r: Task)
    ensures
        r@ == send_plan(c@, text@),
{
    let label = c.label;
    match c.target {
        ComposeTarget::Live(socket) => Task {
            deed: Deed::Prompt { socket, text },
            report: saying(cat("sent to ", label.as_str()), "send: "),
        },
        ComposeTarget::Dormant { cwd, resume_command, mode } => Task {
            deed: Deed::Launch { cwd, command: resume_command, message: Some(text), mode },
            report: saying(cat3("resuming ", label.as_str(), " to deliver"), "resume: "),
        },
    }
}

/// What moving a card asks for; nothing where the move does nothing.
pub open spec fn move_plan(a: AgentView, source: Column, target: Column) -> Option<Result<TaskView, Seq<char>>> {
    let report = |failed: Seq<char>|
        ReportView {
            done: Some("moving "@ + called(a) + " → "@ + target.heading()),
            failed,
            after: AfterView::Pending(a.move_key(), target),
        };
    let resume = |message: Option<Seq<char>>|
        match (a.cwd, a.resume_argv()) {
            (Some(cwd), Some(command)) => Ok(
                TaskView {
                    deed: DeedView::Launch { cwd, command, message, mode: a.launch_mode() },
                    report: report("resume: "@),
                },
            ),
            _ => Err("resume: dormant record missing cwd/command"@),
        };
    match move_action(source, target) {
        MoveAction::Cancel => Some(
            Ok(
                TaskView {
                    deed: DeedView::Cancel { socket: a.socket_path },
                    report: report("cancel: "@),
                },
            ),
        ),
        MoveAction::Nudge => Some(
            Ok(
                TaskView {
                    deed: DeedView::Prompt { socket: a.socket_path, text: "continue"@ },
                    report: report("nudge: "@),
                },
            ),
        ),
        MoveAction::Kill => Some(
            Ok(
                TaskView {
                    deed: if a.hidden {
                        DeedView::Kill(a.pid)
                    } else {
                        DeedView::Close(a)
                    },
                    report: report("close: "@),
                },
            ),
        ),
        MoveAction::Resume => Some(resume(None)),
        MoveAction::ResumeAndNudge => Some(resume(Some("continue"@))),
        MoveAction::NoOp => None,
    }
}

fn moving(agent: &Agent, target: Column, failed: &str) -> (r: Report)
    ensures
        r@ == (ReportView {
            done: Some("moving "@ + called(agent@) + " → "@ + target.heading()),
            failed: failed@,
            after: AfterView::Pending(agent@.move_key(), target),
        }),
{
    let label = focus_label(agent);
    let mut s = cat3("moving ", label.as_str(), " → ");
    s.append(target.title());
    Report {
        done: Some(s),
        failed: failed.to_owned(),
        after: After::Pending(agent.move_key(), target),
    }
}

fn resuming(agent: &Agent, target: Column, message: Option<String>) -> (r: Result<Task, String>)
    ensures
        plan_view(r) == (match (agent@.cwd, agent@.resume_argv()) {
            (Some(cwd), Some(command)) => Ok::<TaskView, Seq<char>>(
                TaskView {
                    deed: DeedView::Launch {
                        cwd,
                        command,
                        message: opt_text(message),
                        mode: agent@.launch_mode(),
                    },
                    report: ReportView {
                        done: Some("moving "@ + called(agent@) + " → "@ + target.heading()),
                        failed: "resume: "@,
                        after: AfterView::Pending(agent@.move_key(), target),
                    },
                },
            ),
            _ => Err("resume: dormant record missing cwd/command"@),
        }),
{
    match &agent.cwd {
        Some(cwd) => match agent.resume_argv() {
            Some(command) => Ok(
                Task {
                    deed: Deed::Launch {
                        cwd: cwd.clone(),
                        command,
                        message,
                        mode: agent.launch_mode(),
                    },
                    report: moving(agent, target, "resume: "),
                },
            ),
            None => Err("resume: dormant record missing cwd/command".to_owned()),
        },
        None => Err("resume: dormant record missing cwd/command".to_owned()),
    }
}

/// What moving a card asks for: to stop or start a turn, to end the agent, or to
/// resume it. Nothing where the move does nothing.
pub fn commit_move(source: Column, target: Column, agent: &Agent) -> (r: Option<Result<Task, String>>)
    ensures
        match r {
            Some(p) => move_plan(agent@, source, target) == Some(plan_view(p)),
            None => move_plan(agent@, source, target) is None,
        },
{
    match action_for(source, target) {
        MoveAction::Cancel => Some(
            Ok(
                Task {
                    deed: Deed::Cancel { socket: agent.socket_path.clone() },
                    report: moving(agent, target, "cancel: "),
                },
            ),
        ),
        MoveAction::Nudge => Some(
            Ok(
                Task {
                    deed: Deed::Prompt {
                        socket: agent.socket_path.clone(),
                        text: "continue".to_owned(),
                    },
                    report: moving(agent, target, "nudge: "),
                },
            ),
        ),
        MoveAction::Kill => {
            let deed = if agent.hidden {
                Deed::Kill(agent.pid)
            } else {
                Deed::Close(agent.clone())
            };
            Some(Ok(Task { deed, report: moving(agent, target, "close: ") }))
        },
        MoveAction::Resume => Some(resuming(agent, target, None)),
        MoveAction::ResumeAndNudge => Some(resuming(agent, target, Some("continue".to_owned()))),
        MoveAction::NoOp => None,
    }
}

/// A move that is carried out waits for the agent: the card is marked with the
/// column it goes to, never put there.
pub proof fn law_committed_move_is_pending(a: AgentView, source: Column, target: Column)
    ensures
        move_plan(a, source, target) matches Some(Ok(t)) ==> t.report.after == AfterView::Pending(
            a.move_key(),
            target,
        ),
        move_plan(a, source, target) is None <==> move_action(source, target) == MoveAction::NoOp,
{
}

/// A launch of a session's own command: in its directory, with its id and
/// directory filled in, as it was started, with a first message or without.
pub open spec fn launches(
    d: DeedView,
    a: AgentView,
    template: Seq<Seq<char>>,
    dir: Seq<char>,
    first: Option<Seq<char>>,
) -> bool {
    d matches DeedView::Launch { cwd, command, message, mode } && {
        &&& cwd == dir
        &&& filled_in(command, template, or_empty(a.session_id), or_empty(a.cwd))
        &&& message == first
        &&& mode.gui == a.gui
        &&& mode.message_flag == a.message_flag
        &&& mode.hidden == a.hidden
    }
}

/// Going to a dormant agent that has a directory and a resume command launches
/// that resume command there, with the agent's own id and directory filled in
/// and no message, whatever its spawn command is. Without a directory or without
/// a resume command it is refused.
pub proof fn law_dormant_agent_is_resumed(a: AgentView, other: Option<Seq<Seq<char>>>)
    requires
        a.origin == Origin::Dormant,
    ensures
        go_plan(a) is Ok <==> a.cwd is Some && a.resume_command is Some,
        go_plan(a) matches Ok(t) ==> {
            &&& launches(t.deed, a, a.resume_command->0, a.cwd->0, None)
            &&& t.report.after == AfterView::LeaveLauncher
            &&& t.report.done is None
        },
        go_plan(AgentView { spawn_command: other, ..a }) == go_plan(a),
{
    if a.resume_command is Some {
        law_template_is_filled_in(a.resume_command->0, a.own_id(), a.cwd);
    }
}

/// Going to a live agent launches nothing: a visible one is raised and a hidden
/// one brought to the visible side, the agent itself and no other.
pub proof fn law_live_agent_is_gone_to(a: AgentView)
    requires
        a.origin == Origin::Live,
    ensures
        go_plan(a) is Ok,
        a.hidden ==> go_plan(a)->Ok_0.deed == DeedView::Place(a),
        !a.hidden ==> go_plan(a)->Ok_0.deed == DeedView::Focus(a),
        go_plan(a)->Ok_0.report.after == AfterView::LeaveLauncher,
        go_plan(a)->Ok_0.report.done is None,
        toggle_plan(a).deed == DeedView::Place(a),
        toggle_plan(a).report.after == AfterView::Nothing,
{
}

/// A new agent beside another is of its kind, whatever would resume the other: it
/// is started with the other's spawn command, in the other's directory, else at
/// home, else where the board runs. Only a kind without a spawn command is
/// refused, live or dormant.
pub proof fn law_spawned_agent_is_of_the_same_kind(
    a: AgentView,
    home: Option<Seq<char>>,
    other: Option<Seq<Seq<char>>>,
    origin: Origin,
)
    ensures
        spawn_plan(a, home) is Ok <==> a.spawn_command is Some,
        spawn_plan(a, home) matches Ok(t) ==> {
            &&& launches(
                t.deed,
                a,
                a.spawn_command->0,
                if a.cwd is Some {
                    a.cwd->0
                } else if home is Some {
                    home->0
                } else {
                    "."@
                },
                None,
            )
            &&& t.report.after == AfterView::LeaveLauncher
            &&& t.report.done is None
        },
        spawn_plan(AgentView { resume_command: other, origin, ..a }, home) == spawn_plan(a, home),
{
    if a.spawn_command is Some {
        law_template_is_filled_in(a.spawn_command->0, a.own_id(), a.cwd);
    }
}

/// Dismissing ends the agent itself and nothing else: a hidden one by its own
/// process, a visible one by its own window, and of a dormant one the record of
/// its own session in its own directory goes. A dormant one without either is
/// left alone.
pub proof fn law_dismissal_ends_the_agent_itself(a: AgentView)
    ensures
        a.origin == Origin::Live && a.hidden ==> dismiss_plan(a) is Some && dismiss_plan(a)->0.deed
            == DeedView::Kill(a.pid),
        a.origin == Origin::Live && !a.hidden ==> dismiss_plan(a) is Some && dismiss_plan(a)->0.deed
            == DeedView::Close(a),
        a.origin == Origin::Dormant ==> (dismiss_plan(a) is Some <==> a.cwd is Some
            && a.session_id is Some),
        a.origin == Origin::Dormant && dismiss_plan(a) is Some ==> dismiss_plan(a)->0.deed == (
        DeedView::Forget { cwd: a.cwd->0, session_id: a.session_id->0 }),
        dismiss_plan(a) matches Some(t) ==> t.report.after == AfterView::Nothing,
{
}

/// A message that the operator writes reaches the agent it was opened for: a live
/// one over its own socket, and a dormant one as the first prompt of its own
/// session, resumed where it was. The text that is sent is the text that was
/// written, and nothing is written before the operator writes it.
pub proof fn law_written_message_reaches_its_agent(a: AgentView, text: Seq<char>)
    ensures
        a.origin == Origin::Live ==> compose_to(a) is Some,
        a.origin == Origin::Dormant ==> (compose_to(a) is Some <==> a.cwd is Some
            && a.resume_command is Some),
        compose_to(a) matches Some(c) ==> {
            &&& c.buf.len() == 0
            &&& send_plan(c, text).report.after == AfterView::Nothing
            &&& a.origin == Origin::Live ==> send_plan(c, text).deed == (DeedView::Prompt {
                socket: a.socket_path,
                text,
            })
            &&& a.origin == Origin::Dormant ==> launches(
                send_plan(c, text).deed,
                a,
                a.resume_command->0,
                a.cwd->0,
                Some(text),
            )
        },
{
    if a.resume_command is Some {
        law_template_is_filled_in(a.resume_command->0, a.own_id(), a.cwd);
    }
}

/// Moving a card makes the agent do what puts it in that column. To Dormant, a
/// running agent is ended; to Idle, its turn is stopped; from Idle to Running, it
/// is told to go on. From Dormant its session is resumed, to Running with the
/// word to go on. Nothing can be moved to Requires Action, nor where it stands.
pub proof fn law_move_makes_the_agent_do_it(a: AgentView, source: Column, target: Column)
    ensures
        source != Column::Dormant && target == Column::Dormant ==> (move_plan(a, source, target)
            matches Some(Ok(t)) && t.deed == (if a.hidden {
            DeedView::Kill(a.pid)
        } else {
            DeedView::Close(a)
        })),
        (source == Column::RequiresAction || source == Column::Running) && target == Column::Idle
            ==> (move_plan(a, source, target) matches Some(Ok(t)) && t.deed == (DeedView::Cancel {
            socket: a.socket_path,
        })),
        source == Column::Idle && target == Column::Running ==> (move_plan(a, source, target)
            matches Some(Ok(t)) && t.deed == (DeedView::Prompt {
            socket: a.socket_path,
            text: "continue"@,
        })),
        source == Column::Dormant && (target == Column::Idle || target == Column::Running) ==> {
            &&& move_plan(a, source, target) is Some
            &&& move_plan(a, source, target)->0 is Ok <==> a.cwd is Some && a.resume_command is Some
            &&& move_plan(a, source, target)->0 matches Ok(t) ==> launches(
                t.deed,
                a,
                a.resume_command->0,
                a.cwd->0,
                if target == Column::Running {
                    Some("continue"@)
                } else {
                    None
                },
            )
        },
        target == Column::RequiresAction || target == source ==> move_plan(a, source, target) is None,
        source == Column::RequiresAction && target == Column::Running ==> move_plan(
            a,
            source,
            target,
        ) is None,
{
    if a.resume_command is Some {
        law_template_is_filled_in(a.resume_command->0, a.own_id(), a.cwd);
    }
}

} // verus!
