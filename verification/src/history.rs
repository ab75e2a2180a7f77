//! Fetching an agent's conversation: the agent replays it as notifications and
//! then replies to the request itself.
use vstd::prelude::*;

use crate::json::{
    json_parse, json_pretty, json_views, lemma_array_view, lemma_shallow_get, lemma_shallow_members,
    lemma_storable_members, parse, print_pretty, shallow, storable, Json, JsonView, ObjectBuilder,
};
use crate::model::{Agent, AgentView};
use crate::path::{join_path, joined_path};
use crate::rpc::{initialize_line, is_line, line_of, no_params, request, request_line};
use crate::text::{cat3, decimal, lemma_decimal_digits, opt_text, same, to_decimal};

verus! {

/// How long the whole fetch may take, in nanoseconds.
pub const TIMEOUT: u128 = 5000000000;

/// Why there is no history.
#[derive(Debug, PartialEq, Eq)]
pub enum HistoryError {
    /// The agent refused the request.
    Unsupported,
    /// No reply came in time.
    Timeout,
    /// The connection failed or ended before the reply, in these words.
    Io(String),
}

pub enum HistoryErrorView {
    Unsupported,
    Timeout,
    Io(Seq<char>),
}

impl View for HistoryError {
    type V = HistoryErrorView;

    open spec fn view(&self) -> HistoryErrorView {
        match self {
            HistoryError::Unsupported => HistoryErrorView::Unsupported,
            HistoryError::Timeout => HistoryErrorView::Timeout,
            HistoryError::Io(e) => HistoryErrorView::Io(e@),
        }
    }
}

impl HistoryError {
    /// What the operator is told.
    pub fn message(&self) -> (r: String)
        ensures
            r@ == (match self@ {
                HistoryErrorView::Unsupported => "history not supported"@,
                HistoryErrorView::Timeout => "no reply"@,
                HistoryErrorView::Io(e) => e,
            }),
    {
        match self {
            HistoryError::Unsupported => "history not supported".to_owned(),
            HistoryError::Timeout => "no reply".to_owned(),
            HistoryError::Io(e) => e.clone(),
        }
    }
}

/// What a read brought.
#[derive(Debug, PartialEq, Eq)]
pub enum Received {
    Line(String),
    /// The connection ended.
    Closed,
    /// Nothing came within the time.
    TimedOut,
    /// The read failed, in these words.
    Fault(String),
}

/// The parameters that ask a running session to replay itself.
pub open spec fn load_params(session_id: Seq<char>, cwd: Seq<char>) -> JsonView {
    JsonView::Object(
        map![
            "sessionId"@ => JsonView::Str(session_id),
            "cwd"@ => JsonView::Str(cwd),
            "mcpServers"@ => JsonView::Array(Seq::empty()),
        ],
    )
}

/// The line that asks for a session's conversation.
pub fn load_line(session_id: &str, cwd: &str) -> (r: String)
    ensures
        is_line(r@, request(1, "session/load"@, load_params(session_id@, cwd@))),
{
    let servers = Json::Array(Vec::new());
    proof {
        lemma_array_view(&servers);
        assert(servers@->Array_0 =~= Seq::empty());
    }
    let mut b = ObjectBuilder::new();
    b.put("sessionId", Json::of_str(session_id));
    b.put("cwd", Json::of_str(cwd));
    b.put("mcpServers", servers);
    let params = b.build();
    proof {
        let m = params@->Object_0;
        lemma_storable_members(m, 126);
        assert(storable(JsonView::Array(Seq::empty()), 125));
        assert forall|k: Seq<char>| #[trigger] m.dom().contains(k) implies storable(m[k], 125) by {}
    }
    request_line(1, "session/load", params)
}

/// What is sent to fetch a conversation: the two requests, one line each.
pub fn fetch_request(session_id: &str, cwd: &str) -> (r: String)
    ensures
        r@ == line_of(request(0, "initialize"@, no_params())) + line_of(
            request(1, "session/load"@, load_params(session_id@, cwd@)),
        ),
{
    let mut s = initialize_line();
    let l = load_line(session_id, cwd);
    s.append(l.as_str());
    s
}

/// The message is a `session/update`.
pub open spec fn is_update(msg: JsonView) -> bool {
    msg.str_at("method"@) == Some("session/update"@)
}

/// The update that a message carries.
pub open spec fn carried(msg: JsonView) -> Option<JsonView> {
    match msg.get("params"@) {
        None => None,
        Some(p) => p.get("update"@),
    }
}

/// The message replies to the request for the conversation.
pub open spec fn is_reply(msg: JsonView) -> bool {
    !is_update(msg) && msg.i64_at("id"@) == Some(1int)
}

/// What a fetch has collected after a message, and how it ends, if it does.
pub open spec fn taken(got: Seq<JsonView>, msg: JsonView) -> (Seq<JsonView>, Option<
    Result<Seq<JsonView>, HistoryErrorView>,
>) {
    if is_update(msg) {
        match carried(msg) {
            Some(u) => (got.push(u), None),
            None => (got, None),
        }
    } else if is_reply(msg) {
        if msg.get("error"@) is Some {
            (got, Some(Err(HistoryErrorView::Unsupported)))
        } else {
            (got, Some(Ok(got)))
        }
    } else {
        (got, None)
    }
}

/// How a fetch ends on a line, if it does, and what it has collected.
pub open spec fn taken_line(got: Seq<JsonView>, line: Seq<char>) -> (Seq<JsonView>, Option<
    Result<Seq<JsonView>, HistoryErrorView>,
>) {
    match json_parse(line) {
        None => (got, None),
        Some(msg) => taken(got, msg),
    }
}

/// How a fetch ends on what a read brought, if it does, and what it has
/// collected.
pub open spec fn received(got: Seq<JsonView>, r: Received) -> (Seq<JsonView>, Option<
    Result<Seq<JsonView>, HistoryErrorView>,
>) {
    match r {
        Received::Line(l) => taken_line(got, l@),
        Received::Closed => (got, Some(Err(HistoryErrorView::Io("unexpected end of file"@)))),
        Received::TimedOut => (got, Some(Err(HistoryErrorView::Timeout))),
        Received::Fault(e) => (got, Some(Err(HistoryErrorView::Io(e@)))),
    }
}

/// The result of a fetch, by its view.
pub open spec fn result_view(r: Option<Result<Vec<Json>, HistoryError>>) -> Option<
    Result<Seq<JsonView>, HistoryErrorView>,
> {
    match r {
        None => None,
        Some(Ok(v)) => Some(Ok(json_views(v@))),
        Some(Err(e)) => Some(Err(e@)),
    }
}

/// A fetch that is under way.
pub struct Fetch {
    deadline: u128,
    got: Vec<Json>,
}

/// Every value in a list is nested no deeper than a replayed update can be.
pub open spec fn all_shallow(v: Seq<JsonView>) -> bool {
    forall|i: int| 0 <= i < v.len() ==> shallow(#[trigger] v[i], 125)
}

impl Fetch {
    #[verifier::type_invariant]
    spec fn inv(self) -> bool {
        all_shallow(json_views(self.got@))
    }

    /// What was collected.
    pub closed spec fn collected(self) -> Seq<JsonView> {
        json_views(self.got@)
    }

    /// When the fetch is given up.
    pub closed spec fn end(self) -> u128 {
        self.deadline
    }

    /// A fetch that begins now.
    pub fn start(now: u128) -> (r: Self)
        ensures
            r.collected() == Seq::<JsonView>::empty(),
            r.end() == (if now + TIMEOUT <= u128::MAX {
                now + TIMEOUT
            } else {
                u128::MAX as int
            }),
    {
        let deadline: u128 = if now <= u128::MAX - TIMEOUT {
            now + TIMEOUT
        } else {
            u128::MAX
        };
        let got: Vec<Json> = Vec::new();
        assert(json_views(got@) =~= Seq::<JsonView>::empty());
        Fetch { deadline, got }
    }

    /// How long the next read may take; the fetch has timed out where there is
    /// no time left.
    pub fn wait(&self, now: u128) -> (r: Result<u128, HistoryError>)
        ensures
            match r {
                Ok(d) => now < self.end() && d == self.end() - now,
                Err(e) => now >= self.end() && e == HistoryError::Timeout,
            },
    {
        if now < self.deadline {
            Ok(self.deadline - now)
        } else {
            Err(HistoryError::Timeout)
        }
    }

    fn collect(&mut self, update: Json)
        requires
            shallow(update@, 125),
        ensures
            final(self).collected() == old(self).collected().push(update@),
            final(self).end() == old(self).end(),
    {
        proof {
            use_type_invariant(&*self);
        }
        let mut got: Vec<Json> = Vec::new();
        assert(json_views(got@) =~= Seq::<JsonView>::empty());
        std::mem::swap(&mut got, &mut self.got);
        let ghost was = got@;
        got.push(update);
        assert(json_views(got@) =~= json_views(was).push(update@));
        self.got = got;
    }

    /// Takes in one message. The fetch ends with what was collected when the
    /// reply comes, and in an error where the reply is one; any other message is
    /// passed over.
    pub fn take_message(&mut self, msg: &Json) -> (r: Option<Result<Vec<Json>, HistoryError>>)
        requires
            shallow(msg@, 127),
        ensures
            result_view(r) == taken(old(self).collected(), msg@).1,
            r is None ==> final(self).collected() == taken(old(self).collected(), msg@).0,
            final(self).end() == old(self).end(),
            r matches Some(Ok(v)) ==> all_shallow(json_views(v@)),
    {
        proof {
            use_type_invariant(&*self);
        }
        let update = match msg.str_at("method") {
            Some(m) => same(m.as_str(), "session/update"),
            None => false,
        };
        if update {
            match msg.get("params") {
                None => {},
                Some(p) => match p.get("update") {
                    None => {},
                    Some(u) => {
                        proof {
                            lemma_shallow_get(msg@, "params"@, 127);
                            lemma_shallow_get(p@, "update"@, 126);
                        }
                        self.collect(u.copy());
                    },
                },
            }
            return None;
        }
        let reply = match msg.i64_at("id") {
            Some(n) => n == 1,
            None => false,
        };
        if !reply {
            return None;
        }
        match msg.get("error") {
            Some(_) => Some(Err(HistoryError::Unsupported)),
            None => {
                let mut got: Vec<Json> = Vec::new();
                assert(json_views(got@) =~= Seq::<JsonView>::empty());
                std::mem::swap(&mut got, &mut self.got);
                Some(Ok(got))
            },
        }
    }

    /// Takes in what a read brought; a line that is no JSON is passed over.
    pub fn take(&mut self, r: Received) -> (out: Option<Result<Vec<Json>, HistoryError>>)
        ensures
            result_view(out) == received(old(self).collected(), r).1,
            out is None ==> final(self).collected() == received(old(self).collected(), r).0,
            final(self).end() == old(self).end(),
            out matches Some(Ok(v)) ==> all_shallow(json_views(v@)),
    {
        match r {
            Received::Line(l) => match parse(l.as_str()) {
                None => None,
                Some(msg) => self.take_message(&msg),
            },
            Received::Closed => Some(Err(HistoryError::Io("unexpected end of file".to_owned()))),
            Received::TimedOut => Some(Err(HistoryError::Timeout)),
            Received::Fault(e) => Some(Err(HistoryError::Io(e))),
        }
    }
}

/// What a fetch has collected after messages, and how it ended, if one of them
/// ended it.
pub open spec fn fetched(msgs: Seq<JsonView>) -> (Seq<JsonView>, Option<
    Result<Seq<JsonView>, HistoryErrorView>,
>)
    decreases msgs.len(),
{
    if msgs.len() == 0 {
        (Seq::empty(), None)
    } else {
        let (got, end) = fetched(msgs.drop_last());
        if end is Some {
            (got, end)
        } else {
            taken(got, msgs.last())
        }
    }
}

/// The updates that messages carry, in order.
pub open spec fn all_carried(msgs: Seq<JsonView>) -> Seq<JsonView>
    decreases msgs.len(),
{
    if msgs.len() == 0 {
        Seq::empty()
    } else {
        let before = all_carried(msgs.drop_last());
        match carried(msgs.last()) {
            Some(u) if is_update(msgs.last()) => before.push(u),
            _ => before,
        }
    }
}

/// A history is every update that came before the reply, in the order in which
/// they came; an error in the reply's place leaves none.
pub proof fn law_history_is_all_that_came_before_the_reply(msgs: Seq<JsonView>, reply: JsonView)
    requires
        forall|i: int| 0 <= i < msgs.len() ==> !is_reply(#[trigger] msgs[i]),
        is_reply(reply),
    ensures
        fetched(msgs) == (all_carried(msgs), None::<Result<Seq<JsonView>, HistoryErrorView>>),
        fetched(msgs.push(reply)).1 == Some(
            if reply.get("error"@) is Some {
                Err(HistoryErrorView::Unsupported)
            } else {
                Ok(all_carried(msgs))
            },
        ),
    decreases msgs.len(),
{
    if msgs.len() > 0 {
        let before = msgs.drop_last();
        assert forall|i: int| 0 <= i < before.len() implies !is_reply(#[trigger] before[i]) by {
            assert(before[i] == msgs[i]);
        }
        law_history_is_all_that_came_before_the_reply(before, reply);
        assert(!is_reply(msgs[msgs.len() - 1]));
    }
    assert(msgs.push(reply).drop_last() =~= msgs);
}

/// A text, or the null value.
pub open spec fn or_null(s: Option<Seq<char>>) -> JsonView {
    match s {
        Some(t) => JsonView::Str(t),
        None => JsonView::Null,
    }
}

fn text_or_null(s: &Option<String>) -> (r: Json)
    ensures
        r@ == or_null(opt_text(*s)),
{
    match s {
        Some(t) => Json::of_str(t.as_str()),
        None => Json::Null,
    }
}

/// The session's id, as a history names it.
pub open spec fn named_session(a: AgentView) -> Seq<char> {
    match a.session_id {
        Some(s) => s,
        None => "unknown"@,
    }
}

/// The document of a history.
pub open spec fn history_document(a: AgentView, updates: Seq<JsonView>, captured_at: u64) -> JsonView {
    JsonView::Object(
        map![
            "sessionId"@ => JsonView::Str(named_session(a)),
            "cwd"@ => or_null(a.cwd),
            "title"@ => or_null(a.title),
            "capturedAt"@ => JsonView::Int(captured_at as int),
            "updates"@ => JsonView::Array(updates),
        ],
    )
}

/// The session's id, as a history names it.
pub fn session_name(agent: &Agent) -> (r: String)
    ensures
        r@ == named_session(agent@),
{
    match &agent.session_id {
        Some(s) => s.clone(),
        None => "unknown".to_owned(),
    }
}

/// The text of a history: the updates of a session, with what tells it apart
/// and when it was captured, in seconds.
pub fn history_text(agent: &Agent, updates: Vec<Json>, captured_at: u64) -> (r: String)
    requires
        all_shallow(json_views(updates@)),
    ensures
        r@ == json_pretty(history_document(agent@, json_views(updates@), captured_at)),
        storable(history_document(agent@, json_views(updates@), captured_at), 127) ==> json_parse(r@)
            == Some(history_document(agent@, json_views(updates@), captured_at)),
{
    let ghost uv = json_views(updates@);
    let list = Json::Array(updates);
    proof {
        lemma_array_view(&list);
        assert(shallow(list@, 126));
    }
    let name = session_name(agent);
    let mut b = ObjectBuilder::new();
    b.put("sessionId", Json::of_str(name.as_str()));
    b.put("cwd", text_or_null(&agent.cwd));
    b.put("title", text_or_null(&agent.title));
    b.put("capturedAt", Json::Int(captured_at as i128));
    b.put("updates", list);
    let doc = b.build();
    proof {
        let m = doc@->Object_0;
        assert(m =~= history_document(agent@, uv, captured_at)->Object_0);
        lemma_shallow_members(m, 127);
        assert forall|k: Seq<char>| #[trigger] m.dom().contains(k) implies shallow(m[k], 126) by {}
    }
    print_pretty(&doc)
}

/// The file that a history is written to.
pub fn history_path(dir: &str, agent: &Agent, captured_at: u64) -> (r: String)
    ensures
        r@ == joined_path(
            dir@,
            "corral-history-"@ + named_session(agent@) + "-"@ + decimal(captured_at as nat) + ".json"@,
        ),
        r@ == joined_path(dir@, history_file(named_session(agent@), captured_at)),
{
    let name = session_name(agent);
    let n = to_decimal(captured_at);
    let a = cat3("corral-history-", name.as_str(), "-");
    let f = cat3(a.as_str(), n.as_str(), ".json");
    join_path(dir, f.as_str())
}

/// The history of a session is asked for by the session and its directory.
pub proof fn law_history_is_asked_for_by_session(session_id: Seq<char>, cwd: Seq<char>)
    ensures
        load_params(session_id, cwd).get("sessionId"@) == Some(JsonView::Str(session_id)),
        load_params(session_id, cwd).get("cwd"@) == Some(JsonView::Str(cwd)),
        load_params(session_id, cwd).get("mcpServers"@) == Some(JsonView::Array(Seq::empty())),
{
    reveal_strlit("sessionId");
    reveal_strlit("cwd");
    reveal_strlit("mcpServers");
    assert("sessionId"@.len() == 9);
    assert("cwd"@.len() == 3);
    assert("mcpServers"@.len() == 10);
}

/// A document of a history says whose it is, from when, and holds every update,
/// in order; what is not known of the agent is said to be nothing.
pub proof fn law_history_document_holds_every_update(
    a: AgentView,
    updates: Seq<JsonView>,
    captured_at: u64,
)
    ensures
        ({
            let d = history_document(a, updates, captured_at);
            &&& d.get("updates"@) == Some(JsonView::Array(updates))
            &&& d.get("capturedAt"@) == Some(JsonView::Int(captured_at as int))
            &&& a.session_id matches Some(s) ==> d.get("sessionId"@) == Some(JsonView::Str(s))
            &&& a.session_id is None ==> d.get("sessionId"@) == Some(JsonView::Str("unknown"@))
            &&& a.cwd matches Some(c) ==> d.get("cwd"@) == Some(JsonView::Str(c))
            &&& a.cwd is None ==> d.get("cwd"@) == Some(JsonView::Null)
            &&& a.title matches Some(t) ==> d.get("title"@) == Some(JsonView::Str(t))
            &&& a.title is None ==> d.get("title"@) == Some(JsonView::Null)
        }),
{
    reveal_strlit("sessionId");
    reveal_strlit("cwd");
    reveal_strlit("title");
    reveal_strlit("capturedAt");
    reveal_strlit("updates");
    assert("sessionId"@.len() == 9);
    assert("cwd"@.len() == 3);
    assert("title"@.len() == 5);
    assert("capturedAt"@.len() == 10);
    assert("updates"@.len() == 7);
}

/// An update that is received is kept behind those before it, and ends nothing;
/// only the reply to the request ends the fetch, a refusal as such, and so do the
/// end of the connection, a fault in its own words, and the time running out.
/// What came before is never lost by it.
pub proof fn law_fetch_ends_with_the_reply(got: Seq<JsonView>, msg: JsonView, u: JsonView, p: JsonView)
    ensures
        msg.get("method"@) == Some(JsonView::Str("session/update"@)) && msg.get("params"@) == Some(p)
            && p.get("update"@) == Some(u) ==> taken(got, msg).0 == got.push(u) && taken(
            got,
            msg,
        ).1 is None,
        msg.get("method"@) is None && msg.get("id"@) == Some(JsonView::Int(1)) && msg.get(
            "error"@,
        ) is None ==> (taken(got, msg).1 matches Some(r) && r == Ok::<
            Seq<JsonView>,
            HistoryErrorView,
        >(got)),
        msg.get("method"@) is None && msg.get("id"@) == Some(JsonView::Int(1)) && msg.get(
            "error"@,
        ) is Some ==> (taken(got, msg).1 matches Some(r) && r == Err::<
            Seq<JsonView>,
            HistoryErrorView,
        >(HistoryErrorView::Unsupported)),
        msg.get("method"@) is None && msg.get("id"@) != Some(JsonView::Int(1)) ==> taken(got, msg).0
            == got && taken(got, msg).1 is None,
        received(got, Received::TimedOut).1 matches Some(r) && r == Err::<
            Seq<JsonView>,
            HistoryErrorView,
        >(HistoryErrorView::Timeout),
        received(got, Received::Closed).1 matches Some(Err(HistoryErrorView::Io(_))),
        forall|e: String|
            #![trigger received(got, Received::Fault(e))]
            received(got, Received::Fault(e)).1 matches Some(r) && r == Err::<
                Seq<JsonView>,
                HistoryErrorView,
            >(HistoryErrorView::Io(e@)),
{
}

/// The file name of a history.
pub open spec fn history_file(session: Seq<char>, captured_at: u64) -> Seq<char> {
    "corral-history-"@ + session + "-"@ + decimal(captured_at as nat) + ".json"@
}

/// Histories of one session from different times have different names, and so
/// have those of different sessions from one time.
pub proof fn law_histories_are_kept_apart(a: Seq<char>, b: Seq<char>, s: u64, t: u64)
    ensures
        history_file(a, s) == history_file(a, t) ==> s == t,
        history_file(a, s) == history_file(b, s) ==> a == b,
{
    let p = "corral-history-"@;
    let (x, y) = (decimal(s as nat), decimal(t as nat));
    if history_file(a, s) == history_file(a, t) {
        let f = history_file(a, s);
        let k: int = p.len() + a.len() + 1int;
        reveal_strlit("-");
        assert(f.len() == k + x.len() + ".json"@.len());
        assert(f.len() == k + y.len() + ".json"@.len());
        assert(f.subrange(k, k + x.len()) =~= x);
        assert(history_file(a, t).subrange(k, k + y.len()) =~= y);
        assert(x == y);
        lemma_decimal_digits(s as nat);
        lemma_decimal_digits(t as nat);
    }
    if history_file(a, s) == history_file(b, s) {
        let f = history_file(a, s);
        let g = history_file(b, s);
        assert(f.len() == p.len() + a.len() + "-"@.len() + x.len() + ".json"@.len());
        assert(g.len() == p.len() + b.len() + "-"@.len() + x.len() + ".json"@.len());
        assert(f.subrange(p.len() as int, p.len() + a.len() as int) =~= a);
        assert(g.subrange(p.len() as int, p.len() + b.len() as int) =~= b);
    }
}

} // verus!
