//! The lister: which agent sockets there are, what each answers, and the table
//! that shows it.
use vstd::prelude::*;

use crate::curation::{lemma_filter_map_from, lemma_filter_map_has};
use crate::discovery::{law_socket_name_round_trip, parse_socket_filename, socket_name};
use crate::json::{
    json_parse, lemma_storable_members, parse, storable, Json, JsonView, ObjectBuilder,
};
use crate::order::{sort, sorted_by, views, Less};
use crate::path::{join_path, joined_path};
use crate::rpc::{
    empty_params, is_line, lemma_storable_deeper, line_of, no_params, request, request_line, session_list_line,
};
use crate::text::{
    before, cat3, decimal, has_prefix, has_suffix, indented, is_before, lemma_before_irreflexive, opt_text, pad_left, pad_right, padded, same, signed, texts, to_decimal,
    to_signed,
};
use crate::watch::{parse_session_list, session_text};

verus! {

/// An agent socket that was found.
#[derive(Debug, PartialEq, Eq)]
pub struct Found {
    pub path: String,
    pub label: String,
    pub pid: u32,
}

#[verifier::ext_equal]
pub struct FoundView {
    pub path: Seq<char>,
    pub label: Seq<char>,
    pub pid: u32,
}

impl View for Found {
    type V = FoundView;

    open spec fn view(&self) -> FoundView {
        FoundView { path: self.path@, label: self.label@, pid: self.pid }
    }
}

/// The socket behind a file name of a directory, if it is one.
pub open spec fn found(dir: Seq<char>, name: Seq<char>) -> Option<FoundView> {
    match socket_name(name) {
        Some(x) => Some(FoundView { path: joined_path(dir, name), label: x.0, pid: x.1 as u32 }),
        None => None,
    }
}

/// The sockets, by their views.
pub open spec fn found_views(v: Seq<Found>) -> Seq<FoundView> {
    Seq::new(v.len(), |i: int| v[i]@)
}

/// The agent sockets among the files of a directory.
pub fn scan(dir: &str, names: &Vec<String>) -> (r: Vec<Found>)
    ensures
        found_views(r@) == texts(names@).filter_map(|n: Seq<char>| found(dir@, n)),
        found_views(r@) == found_among(dir@, texts(names@)),
{
    let ghost f = |n: Seq<char>| found(dir@, n);
    let ghost all = texts(names@);
    let mut out: Vec<Found> = Vec::new();
    let mut i: usize = 0;
    proof {
        reveal(Seq::filter_map);
        assert(found_views(out@) =~= all.take(0).filter_map(f));
    }
    while i < names.len()
        invariant
            i <= names@.len(),
            all == texts(names@),
            f == (|n: Seq<char>| found(dir@, n)),
            found_views(out@) == all.take(i as int).filter_map(f),
        decreases names@.len() - i,
    {
        let n = names[i].as_str();
        assert(all[i as int] == n@);
        proof {
            all.lemma_filter_map_take_succ(f, i as int);
        }
        let ghost was = out@;
        match parse_socket_filename(n) {
            Some(x) => {
                let (label, pid) = x;
                out.push(Found { path: join_path(dir, n), label, pid });
                assert(found_views(out@) =~= found_views(was) + seq![f(n@)->0]);
            },
            None => {
                assert(found_views(out@) =~= found_views(was) + Seq::empty());
            },
        }
        i = i + 1;
    }
    assert(all.take(all.len() as int) =~= all);
    out
}

/// The order of the table: by label, then by pid.
pub open spec fn listed_before(a: FoundView, b: FoundView) -> bool {
    before(a.label, b.label) || (a.label == b.label && a.pid < b.pid)
}

struct Listed;

impl<'a> Less<&'a Found> for Listed {
    open spec fn lt(&self, a: FoundView, b: FoundView) -> bool {
        listed_before(a, b)
    }

    fn less(&self, a: &&'a Found, b: &&'a Found) -> (r: bool) {
        is_before(a.label.as_str(), b.label.as_str()) || (same(a.label.as_str(), b.label.as_str()) && a.pid
            < b.pid)
    }
}

/// The sockets, by their views.
pub open spec fn found_refs<'a>(v: Seq<&'a Found>) -> Seq<FoundView> {
    Seq::new(v.len(), |i: int| v[i]@)
}

/// The sockets in the order of the table.
pub fn in_table_order(v: &Vec<Found>) -> (r: Vec<&Found>)
    ensures
        found_refs(r@) == sorted_by(found_views(v@), |a: FoundView, b: FoundView| listed_before(a, b)),
{
    let mut refs: Vec<&Found> = Vec::new();
    let mut i: usize = 0;
    while i < v.len()
        invariant
            i <= v@.len(),
            refs@.len() == i,
            forall|j: int| 0 <= j < i ==> *(#[trigger] refs@[j]) == v@[j],
        decreases v@.len() - i,
    {
        refs.push(&v[i]);
        i = i + 1;
    }
    let l = Listed;
    let r = sort(&refs, &l);
    proof {
        assert(views(refs@) =~= found_views(v@));
        assert((|a: FoundView, b: FoundView| l.lt(a, b)) =~= (|a: FoundView, b: FoundView| listed_before(a, b)));
        assert(found_refs(r@) =~= views(r@));
    }
    r
}

/// What a socket answers.
#[derive(Debug, PartialEq, Eq)]
pub enum Status {
    /// The agent answered; the title and the directory are those of its session,
    /// where it tells them.
    Live { agent: String, title: Option<String>, cwd: Option<String> },
    /// The connection was closed: another client drives the agent.
    Busy,
    /// Nobody listens.
    Stale,
}

pub enum StatusView {
    Live { agent: Seq<char>, title: Option<Seq<char>>, cwd: Option<Seq<char>> },
    Busy,
    Stale,
}

impl View for Status {
    type V = StatusView;

    open spec fn view(&self) -> StatusView {
        match self {
            Status::Live { agent, title, cwd } => StatusView::Live {
                agent: agent@,
                title: opt_text(*title),
                cwd: opt_text(*cwd),
            },
            Status::Busy => StatusView::Busy,
            Status::Stale => StatusView::Stale,
        }
    }
}

/// The member of a member.
pub open spec fn inner(v: JsonView, a: Seq<char>, b: Seq<char>) -> Option<JsonView> {
    match v.get(a) {
        Some(x) => x.get(b),
        None => None,
    }
}

/// How an agent is called, from its reply: by its name and version, by its name,
/// or by the version of the protocol.
pub open spec fn agent_called(reply: JsonView) -> Seq<char> {
    let info = inner(reply, "result"@, "agentInfo"@);
    let name = match info {
        Some(i) => i.str_at("name"@),
        None => None,
    };
    let version = match info {
        Some(i) => i.str_at("version"@),
        None => None,
    };
    match (name, version) {
        (Some(n), Some(v)) => n + " "@ + v,
        (Some(n), None) => n,
        _ => match inner(reply, "result"@, "protocolVersion"@) {
            Some(p) => match p.i64() {
                Some(v) => "(acp v"@ + signed(v) + ")"@,
                None => "(unknown)"@,
            },
            None => "(unknown)"@,
        },
    }
}

/// How an agent is called, from its reply to the first request.
pub fn describe_agent(reply: &Json) -> (r: String)
    ensures
        r@ == agent_called(reply@),
{
    let result = reply.get("result");
    let info = match result {
        Some(x) => x.get("agentInfo"),
        None => None,
    };
    let name = match info {
        Some(i) => i.str_at("name"),
        None => None,
    };
    let version = match info {
        Some(i) => i.str_at("version"),
        None => None,
    };
    match name {
        Some(n) => match version {
            Some(v) => cat3(n.as_str(), " ", v.as_str()),
            None => n,
        },
        None => {
            let protocol = match result {
                Some(x) => x.i64_at("protocolVersion"),
                None => None,
            };
            match protocol {
                Some(v) => {
                    let n = to_signed(v);
                    cat3("(acp v", n.as_str(), ")")
                },
                None => "(unknown)".to_owned(),
            }
        },
    }
}

/// The parameters of the first request.
pub open spec fn hello_params(version: Seq<char>) -> JsonView {
    JsonView::Object(
        map![
            "protocolVersion"@ => JsonView::Int(1),
            "clientCapabilities"@ => no_params(),
            "clientInfo"@ => JsonView::Object(
                map!["name"@ => JsonView::Str("corral"@), "version"@ => JsonView::Str(version)],
            ),
        ],
    )
}

/// The line that a probe opens with.
pub fn hello_line(version: &str) -> (r: String)
    ensures
        is_line(r@, request(0, "initialize"@, hello_params(version@))),
{
    let mut c = ObjectBuilder::new();
    c.put("name", Json::of_str("corral"));
    c.put("version", Json::of_str(version));
    let client = c.build();
    let ghost cv = client@;
    let caps = empty_params();
    let ghost ev = caps@;
    let mut b = ObjectBuilder::new();
    b.put("protocolVersion", Json::Int(1));
    b.put("clientCapabilities", caps);
    b.put("clientInfo", client);
    let params = b.build();
    proof {
        let cm = cv->Object_0;
        lemma_storable_members(cm, 125);
        assert forall|k: Seq<char>| #[trigger] cm.dom().contains(k) implies storable(cm[k], 124) by {}
        lemma_storable_deeper(ev, 1, 125);
        let m = params@->Object_0;
        lemma_storable_members(m, 126);
        assert forall|k: Seq<char>| #[trigger] m.dom().contains(k) implies storable(m[k], 125) by {}
    }
    request_line(0, "initialize", params)
}

/// What a probe was told.
#[derive(Debug, PartialEq, Eq)]
pub enum Heard {
    /// The connection was refused.
    Refused,
    /// The line asked for could not be written.
    WriteFailed,
    Line(String),
    /// The connection ended, or nothing came in time.
    Ended,
}

/// What a probe does next.
#[derive(Debug, PartialEq, Eq)]
pub enum Step {
    /// Wait for the next line.
    Wait,
    /// Write a line, then wait.
    Ask(String),
    /// The probe is over.
    Done(Status),
}

pub enum StepView {
    Wait,
    Ask(Seq<char>),
    Done(StatusView),
}

impl View for Step {
    type V = StepView;

    open spec fn view(&self) -> StepView {
        match self {
            Step::Wait => StepView::Wait,
            Step::Ask(l) => StepView::Ask(l@),
            Step::Done(s) => StepView::Done(s@),
        }
    }
}

/// A probe: what the agent was called, once it answered.
pub struct Probe {
    agent: Option<String>,
}

impl View for Probe {
    type V = Option<Seq<char>>;

    closed spec fn view(&self) -> Option<Seq<char>> {
        opt_text(self.agent)
    }
}

/// The message replies to the request with an id.
pub open spec fn replies_to(msg: JsonView, id: int) -> bool {
    msg.get("id"@) == Some(JsonView::Int(id))
}

/// What a probe knows after it heard something, and what it does next. The
/// agent's title and directory are asked for once it answered, and are done
/// without where no answer comes.
pub open spec fn probed(agent: Option<Seq<char>>, h: Heard) -> (Option<Seq<char>>, StepView) {
    let untitled = match agent {
        Some(a) => StatusView::Live { agent: a, title: None, cwd: None },
        None => StatusView::Busy,
    };
    match h {
        Heard::Refused => (agent, StepView::Done(StatusView::Stale)),
        Heard::WriteFailed => (agent, StepView::Done(untitled)),
        Heard::Ended => (agent, StepView::Done(untitled)),
        Heard::Line(l) => match json_parse(l@) {
            None => (agent, StepView::Wait),
            Some(m) => match agent {
                None => if replies_to(m, 0) {
                    (Some(agent_called(m)), StepView::Ask(
                        line_of(request(1, "session/list"@, no_params())),
                    ))
                } else {
                    (agent, StepView::Wait)
                },
                Some(a) => if replies_to(m, 1) {
                    (agent, StepView::Done(
                        StatusView::Live {
                            agent: a,
                            title: session_text(m, "title"@),
                            cwd: session_text(m, "cwd"@),
                        },
                    ))
                } else {
                    (agent, StepView::Wait)
                },
            },
        },
    }
}

impl Probe {
    /// A probe that has written its first line.
    pub fn new() -> (r: Self)
        ensures
            r@ is None,
    {
        Probe { agent: None }
    }

    fn untitled(&self) -> (r: Status)
        ensures
            r@ == (match self@ {
                Some(a) => StatusView::Live { agent: a, title: None, cwd: None },
                None => StatusView::Busy,
            }),
    {
        match &self.agent {
            Some(a) => Status::Live { agent: a.clone(), title: None, cwd: None },
            None => Status::Busy,
        }
    }

    fn replied(msg: &Json, id: i128) -> (r: bool)
        ensures
            r == replies_to(msg@, id as int),
    {
        match msg.get("id") {
            Some(Json::Int(n)) => *n == id,
            _ => false,
        }
    }

    /// Takes in what the probe was told.
    pub fn hear(&mut self, h: Heard) -> (r: Step)
        ensures
            (final(self)@, r@) == probed(old(self)@, h),
    {
        match h {
            Heard::Refused => Step::Done(Status::Stale),
            Heard::WriteFailed => Step::Done(self.untitled()),
            Heard::Ended => Step::Done(self.untitled()),
            Heard::Line(l) => match parse(l.as_str()) {
                None => Step::Wait,
                Some(m) => match &self.agent {
                    None => {
                        if Self::replied(&m, 0) {
                            self.agent = Some(describe_agent(&m));
                            Step::Ask(session_list_line())
                        } else {
                            Step::Wait
                        }
                    },
                    Some(a) => {
                        if Self::replied(&m, 1) {
                            let (_, title, cwd) = parse_session_list(&m);
                            Step::Done(Status::Live { agent: a.clone(), title, cwd })
                        } else {
                            Step::Wait
                        }
                    },
                },
            },
        }
    }
}

/// An agent that answered is listed as live, whatever comes after its answer.
pub proof fn law_answered_is_live(agent: Seq<char>, h: Heard)
    requires
        h != Heard::Refused,
    ensures
        probed(Some(agent), h).0 == Some(agent),
        probed(Some(agent), h).1 matches StepView::Done(s) ==> (s matches StatusView::Live { agent: a, .. } && a
            == agent),
{
}

/// A text, or a dash where there is none.
pub open spec fn or_dash(o: Option<Seq<char>>) -> Seq<char> {
    match o {
        Some(t) => t,
        None => "-"@,
    }
}

/// The columns of a status: its word, the agent, the title and the directory.
pub open spec fn status_columns(s: StatusView) -> (Seq<char>, Seq<char>, Seq<char>, Seq<char>) {
    match s {
        StatusView::Live { agent, title, cwd } => ("live"@, agent, or_dash(title), or_dash(cwd)),
        StatusView::Busy => ("busy"@, "-"@, "-"@, "-"@),
        StatusView::Stale => ("stale"@, "-"@, "-"@, "-"@),
    }
}

/// A line of the table.
pub open spec fn table_line(
    session: Seq<char>,
    pid: Seq<char>,
    status: Seq<char>,
    agent: Seq<char>,
    title: Seq<char>,
    cwd: Seq<char>,
) -> Seq<char> {
    padded(session, 16) + " "@ + indented(pid, 8) + " "@ + padded(status, 8) + " "@ + padded(agent, 18)
        + " "@ + padded(title, 28) + " "@ + cwd
}

/// The heading of the table.
pub open spec fn heading() -> Seq<char> {
    table_line("SESSION"@, "PID"@, "STATUS"@, "AGENT"@, "TITLE"@, "CWD"@)
}

/// The line of a socket.
pub open spec fn socket_line(f: FoundView, s: StatusView) -> Seq<char> {
    let c = status_columns(s);
    table_line(f.label, decimal(f.pid as nat), c.0, c.1, c.2, c.3)
}

fn format_line(session: &str, pid: &str, status: &str, agent: &str, title: &str, cwd: &str) -> (r: String)
    ensures
        r@ == table_line(session@, pid@, status@, agent@, title@, cwd@),
{
    let mut s = pad_right(session, 16);
    s.append(" ");
    s.append(pad_left(pid, 8).as_str());
    s.append(" ");
    s.append(pad_right(status, 8).as_str());
    s.append(" ");
    s.append(pad_right(agent, 18).as_str());
    s.append(" ");
    s.append(pad_right(title, 28).as_str());
    s.append(" ");
    s.append(cwd);
    s
}

fn str_or_dash(o: &Option<String>) -> (r: &str)
    ensures
        r@ == or_dash(opt_text(*o)),
{
    match o {
        Some(t) => t.as_str(),
        None => "-",
    }
}

fn format_row(f: &Found, s: &Status) -> (r: String)
    ensures
        r@ == socket_line(f@, s@),
{
    let pid = to_decimal(f.pid as u64);
    match s {
        Status::Live { agent, title, cwd } => format_line(
            f.label.as_str(),
            pid.as_str(),
            "live",
            agent.as_str(),
            str_or_dash(title),
            str_or_dash(cwd),
        ),
        Status::Busy => format_line(f.label.as_str(), pid.as_str(), "busy", "-", "-", "-"),
        Status::Stale => format_line(f.label.as_str(), pid.as_str(), "stale", "-", "-", "-"),
    }
}

/// The lines of the table: the heading, and one line for each socket, or a note
/// where there is none.
pub open spec fn table(rows: Seq<(Found, Status)>) -> Seq<Seq<char>> {
    if rows.len() == 0 {
        seq![heading(), "(no agent sockets found)"@]
    } else {
        seq![heading()] + rows.map_values(|r: (Found, Status)| socket_line(r.0@, r.1@))
    }
}

/// The lines of the table.
pub fn render(rows: &Vec<(Found, Status)>) -> (r: Vec<String>)
    ensures
        texts(r@) == table(rows@),
{
    let mut out: Vec<String> = Vec::new();
    out.push(format_line("SESSION", "PID", "STATUS", "AGENT", "TITLE", "CWD"));
    if rows.len() == 0 {
        out.push("(no agent sockets found)".to_owned());
        assert(texts(out@) =~= table(rows@));
        return out;
    }
    let mut i: usize = 0;
    while i < rows.len()
        invariant
            i <= rows@.len(),
            out@.len() == i + 1,
            out@[0]@ == heading(),
            forall|j: int| 0 <= j < i ==> (#[trigger] out@[j + 1])@ == socket_line(rows@[j].0@, rows@[j].1@),
        decreases rows@.len() - i,
    {
        out.push(format_row(&rows[i].0, &rows[i].1));
        i = i + 1;
    }
    assert(texts(out@) =~= table(rows@)) by {
        assert forall|k: int| 0 <= k < out@.len() implies texts(out@)[k] == table(rows@)[k] by {
            if k > 0 {
                assert(out@[(k - 1) + 1]@ == socket_line(rows@[k - 1].0@, rows@[k - 1].1@));
            }
        }
    }
    out
}

/// A socket that is listed is one whose name says so: its path is in the
/// directory that was listed, under its own name, with the label and process that
/// the name tells.
pub proof fn law_found_socket_is_told_by_its_name(
    dir: Seq<char>,
    name: Seq<char>,
    label: Seq<char>,
    pid: u32,
)
    ensures
        socket_name(name) is None <==> found(dir, name) is None,
        label.len() > 0 ==> found(dir, label + "-"@ + decimal(pid as nat) + ".sock"@) == Some(
            FoundView {
                path: joined_path(dir, label + "-"@ + decimal(pid as nat) + ".sock"@),
                label,
                pid,
            },
        ),
{
    if label.len() > 0 {
        law_socket_name_round_trip(label, pid);
    }
}

/// Sockets are listed by label, and those of one label by process.
pub proof fn law_sockets_are_listed_by_label(a: FoundView, b: FoundView)
    ensures
        before(a.label, b.label) ==> listed_before(a, b),
        a.label == b.label ==> (listed_before(a, b) <==> a.pid < b.pid),
        listed_before(a, b) ==> before(a.label, b.label) || a.label == b.label,
{
    if a.label == b.label {
        lemma_before_irreflexive(a.label);
    }
}

/// An agent is called by the name that it gives itself, with its version where it
/// gives one; one that gives none is told by its protocol, or not at all.
pub proof fn law_agent_is_called_by_its_own_name(
    reply: JsonView,
    result: JsonView,
    info: JsonView,
    name: Seq<char>,
    version: Seq<char>,
    n: int,
)
    requires
        reply.get("result"@) == Some(result),
        result.get("agentInfo"@) == Some(info),
        i64::MIN <= n <= i64::MAX,
    ensures
        info.get("name"@) == Some(JsonView::Str(name)) && info.get("version"@) == Some(
            JsonView::Str(version),
        ) ==> agent_called(reply) == name + " "@ + version,
        info.get("name"@) == Some(JsonView::Str(name)) && info.get("version"@) is None
            ==> agent_called(reply) == name,
        info.get("name"@) is None && result.get("protocolVersion"@) == Some(JsonView::Int(n))
            ==> agent_called(reply) == "(acp v"@ + signed(n) + ")"@,
        info.get("name"@) is None && result.get("protocolVersion"@) is None ==> agent_called(reply)
            == "(unknown)"@,
{
}

/// A probe finds a socket stale where the connection is refused, and busy where
/// it ends before the agent answers. An agent that answers is asked for its
/// session, and is live with the title and directory of the first one that it
/// lists. Anything else is waited through.
pub proof fn law_probe_tells_how_an_agent_answers(
    agent: Option<Seq<char>>,
    line: String,
    m: JsonView,
    a: Seq<char>,
)
    ensures
        probed(agent, Heard::Refused).1 == StepView::Done(StatusView::Stale),
        probed(None, Heard::Ended).1 == StepView::Done(StatusView::Busy),
        probed(None, Heard::WriteFailed).1 == StepView::Done(StatusView::Busy),
        probed(Some(a), Heard::Ended).1 == StepView::Done(
            StatusView::Live { agent: a, title: None, cwd: None },
        ),
        json_parse(line@) is None ==> probed(agent, Heard::Line(line)) == (agent, StepView::Wait),
        json_parse(line@) == Some(m) ==> {
            &&& m.get("id"@) == Some(JsonView::Int(0)) ==> probed(None, Heard::Line(line)) == (
                Some(agent_called(m)),
                StepView::Ask(line_of(request(1, "session/list"@, no_params()))),
            )
            &&& m.get("id"@) != Some(JsonView::Int(0)) ==> probed(None, Heard::Line(line)) == (
                None::<Seq<char>>,
                StepView::Wait,
            )
            &&& m.get("id"@) == Some(JsonView::Int(1)) ==> probed(Some(a), Heard::Line(line)) == (
                Some(a),
                StepView::Done(
                    StatusView::Live {
                        agent: a,
                        title: session_text(m, "title"@),
                        cwd: session_text(m, "cwd"@),
                    },
                ),
            )
            &&& m.get("id"@) != Some(JsonView::Int(1)) ==> probed(Some(a), Heard::Line(line)) == (
                Some(a),
                StepView::Wait,
            )
        },
{
}

/// The table has a heading and a line for each socket, in order, and says so
/// where there is none. A line starts with the socket's label and ends with
/// the directory of a live agent that told it.
pub proof fn law_table_has_a_line_for_each_socket(rows: Seq<(Found, Status)>, i: int)
    ensures
        table(rows)[0] == heading(),
        rows.len() == 0 ==> table(rows).len() == 2,
        rows.len() > 0 ==> table(rows).len() == rows.len() + 1,
        0 <= i < rows.len() ==> {
            let l = table(rows)[i + 1];
            &&& has_prefix(l, rows[i].0@.label)
            &&& rows[i].1@ matches StatusView::Live { cwd, .. } ==> (cwd matches Some(c) ==> has_suffix(
                l,
                c,
            ))
        },
{
    if 0 <= i < rows.len() {
        let l = table(rows)[i + 1];
        let f = rows[i].0@;
        let c = status_columns(rows[i].1@);
        assert(l == socket_line(f, rows[i].1@));
        assert(l.subrange(0, f.label.len() as int) =~= f.label);
        assert(l.subrange(l.len() - c.3.len(), l.len() as int) =~= c.3);
    }
}

/// What is said of a socket's state is that state, and only a live agent has
/// more to it.
pub proof fn law_states_are_told_apart(agent: Seq<char>, title: Option<Seq<char>>, cwd: Option<Seq<char>>)
    ensures
        status_columns(StatusView::Live { agent, title, cwd }).0 == "live"@,
        status_columns(StatusView::Live { agent, title, cwd }).1 == agent,
        title matches Some(t) ==> status_columns(StatusView::Live { agent, title, cwd }).2 == t,
        cwd matches Some(c) ==> status_columns(StatusView::Live { agent, title, cwd }).3 == c,
        status_columns(StatusView::Busy).0 == "busy"@,
        status_columns(StatusView::Stale).0 == "stale"@,
{
}

/// The sockets among the names in a directory.
pub open spec fn found_among(dir: Seq<char>, names: Seq<Seq<char>>) -> Seq<FoundView> {
    names.filter_map(|n: Seq<char>| found(dir, n))
}

/// Every name that is a socket's is listed, and nothing else is.
pub proof fn law_every_socket_is_listed(dir: Seq<char>, names: Seq<Seq<char>>, f: FoundView)
    ensures
        found_among(dir, names).contains(f) <==> exists|i: int|
            0 <= i < names.len() && found(dir, #[trigger] names[i]) == Some(f),
{
    let g = |n: Seq<char>| found(dir, n);
    if found_among(dir, names).contains(f) {
        let i = lemma_filter_map_from(names, g, f);
        assert(found(dir, names[i]) == Some(f));
    }
    if exists|i: int| 0 <= i < names.len() && found(dir, #[trigger] names[i]) == Some(f) {
        let i = choose|i: int| 0 <= i < names.len() && found(dir, #[trigger] names[i]) == Some(f);
        lemma_filter_map_has(names, g, i);
    }
}

/// An agent is greeted by this client's name and version, in the one version of
/// the protocol that is spoken.
pub proof fn law_greeting_names_the_client(version: Seq<char>)
    ensures
        hello_params(version).get("protocolVersion"@) == Some(JsonView::Int(1)),
        hello_params(version).get("clientInfo"@) matches Some(i) && i.get("name"@) == Some(
            JsonView::Str("corral"@),
        ) && i.get("version"@) == Some(JsonView::Str(version)),
{
    reveal_strlit("protocolVersion");
    reveal_strlit("clientCapabilities");
    reveal_strlit("clientInfo");
    reveal_strlit("name");
    reveal_strlit("version");
    assert("protocolVersion"@.len() == 15);
    assert("clientCapabilities"@.len() == 18);
    assert("clientInfo"@.len() == 10);
    assert("name"@.len() == 4);
    assert("version"@.len() == 7);
}

} // verus!
