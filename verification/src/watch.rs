//! What an agent's broadcasts say, and the watcher that turns an agent's lines
//! into updates of the board.
use vstd::prelude::*;

use crate::discovery::{SocketEntry, SocketView};
use crate::json::{json_parse, json_views, parse, Json, JsonView};
use crate::model::{
    law_protocol_words_name_states, state_of_wire, Agent, AgentView, Origin, State, Update, UpdateView,
};
use crate::text::{
    cat3, copy_opt_string, has_prefix, has_suffix, lemma_split_first, lemma_split_nonempty, lines,
    opt_text, same, split, split_lines, split_on, texts, trim, trimmed, without_cr,
};

verus! {

/// The update that a `session/update` notification of a kind carries.
pub open spec fn update_of(msg: JsonView, kind: Seq<char>) -> Option<JsonView> {
    if msg.str_at("method"@) != Some("session/update"@) {
        None
    } else {
        match msg.get("params"@) {
            None => None,
            Some(p) => match p.get("update"@) {
                None => None,
                Some(u) => if u.str_at("sessionUpdate"@) == Some(kind) {
                    Some(u)
                } else {
                    None
                },
            },
        }
    }
}

fn says(v: &Json, key: &str, word: &str) -> (r: bool)
    ensures
        r == (v@.str_at(key@) == Some(word@)),
{
    match v.str_at(key) {
        Some(s) => same(s.as_str(), word),
        None => false,
    }
}

fn find_update<'a>(msg: &'a Json, kind: &str) -> (r: Option<&'a Json>)
    ensures
        r is Some == update_of(msg@, kind@) is Some,
        r matches Some(u) ==> update_of(msg@, kind@) == Some(u@),
{
    if !says(msg, "method", "session/update") {
        return None;
    }
    match msg.get("params") {
        None => None,
        Some(p) => match p.get("update") {
            None => None,
            Some(u) => if says(u, "sessionUpdate", kind) {
                Some(u)
            } else {
                None
            },
        },
    }
}

/// The state that a message announces.
pub open spec fn state_in(msg: JsonView) -> Option<State> {
    match update_of(msg, "state_update"@) {
        None => None,
        Some(u) => match u.str_at("state"@) {
            None => None,
            Some(w) => state_of_wire(w),
        },
    }
}

fn state_from(msg: &Json) -> (r: Option<State>)
    ensures
        r == state_in(msg@),
{
    match find_update(msg, "state_update") {
        None => None,
        Some(u) => match u.str_at("state") {
            None => None,
            Some(w) => State::from_wire(w.as_str()),
        },
    }
}

/// The state that a line announces: the one of a `state_update`.
pub fn parse_state_notification(line: &str) -> (r: Option<State>)
    ensures
        r == (match json_parse(line@) {
            Some(m) => state_in(m),
            None => None,
        }),
{
    match parse(line) {
        Some(m) => state_from(&m),
        None => None,
    }
}

/// The current value of the first option of the model category.
pub open spec fn model_option(options: Seq<JsonView>) -> Option<Seq<char>>
    decreases options.len(),
{
    if options.len() == 0 {
        None
    } else if options[0].str_at("category"@) == Some("model"@) {
        options[0].str_at("currentValue"@)
    } else {
        model_option(options.drop_first())
    }
}

/// The model that a message announces.
pub open spec fn model_in(msg: JsonView) -> Option<Seq<char>> {
    match update_of(msg, "config_options_update"@) {
        None => None,
        Some(u) => match u.get("configOptions"@) {
            None => None,
            Some(o) => match o.array() {
                None => None,
                Some(a) => model_option(a),
            },
        },
    }
}

fn first_model(options: &Vec<Json>) -> (r: Option<String>)
    ensures
        opt_text(r) == model_option(json_views(options@)),
{
    let ghost all = json_views(options@);
    let mut i: usize = 0;
    assert(all.skip(0) =~= all);
    while i < options.len()
        invariant
            i <= options@.len(),
            all == json_views(options@),
            model_option(all) == model_option(all.skip(i as int)),
        decreases options@.len() - i,
    {
        assert(all.skip(i as int).drop_first() =~= all.skip(i + 1));
        assert(all.skip(i as int)[0] == options@[i as int]@);
        if says(&options[i], "category", "model") {
            return options[i].str_at("currentValue");
        }
        i = i + 1;
    }
    None
}

fn model_from(msg: &Json) -> (r: Option<String>)
    ensures
        opt_text(r) == model_in(msg@),
{
    match find_update(msg, "config_options_update") {
        None => None,
        Some(u) => match u.get("configOptions") {
            None => None,
            Some(o) => match o.as_array() {
                None => None,
                Some(a) => first_model(a),
            },
        },
    }
}

/// The model that a line announces: the current value of the model option of a
/// `config_options_update`.
pub fn parse_config_model(line: &str) -> (r: Option<String>)
    ensures
        opt_text(r) == (match json_parse(line@) {
            Some(m) => model_in(m),
            None => None,
        }),
{
    match parse(line) {
        Some(m) => model_from(&m),
        None => None,
    }
}

/// The title that a message announces; a title that is no text clears it.
pub open spec fn title_in(msg: JsonView) -> Option<Option<Seq<char>>> {
    match update_of(msg, "session_info_update"@) {
        None => None,
        Some(u) => Some(u.str_at("title"@)),
    }
}

/// A title change, by its text.
pub open spec fn title_view(t: Option<Option<String>>) -> Option<Option<Seq<char>>> {
    match t {
        Some(o) => Some(opt_text(o)),
        None => None,
    }
}

fn title_from(msg: &Json) -> (r: Option<Option<String>>)
    ensures
        title_view(r) == title_in(msg@),
{
    match find_update(msg, "session_info_update") {
        None => None,
        Some(u) => Some(u.str_at("title")),
    }
}

/// The title that a line announces: that of a `session_info_update`, with
/// nothing where it was cleared.
pub fn parse_title_notification(line: &str) -> (r: Option<Option<String>>)
    ensures
        title_view(r) == (match json_parse(line@) {
            Some(m) => title_in(m),
            None => None,
        }),
{
    match parse(line) {
        Some(m) => title_from(&m),
        None => None,
    }
}

/// The arguments whose value best sums up a tool call, the first that is there
/// being taken. A question comes first: it says what an agent waits for.
pub open spec fn arg_keys() -> Seq<Seq<char>> {
    seq![
        "question"@,
        "path"@,
        "file"@,
        "file_path"@,
        "filename"@,
        "command"@,
        "cmd"@,
        "pattern"@,
        "query"@,
        "message"@,
    ]
}

/// The arguments that name a file.
pub open spec fn names_file(key: Seq<char>) -> bool {
    key == "path"@ || key == "file"@ || key == "file_path"@ || key == "filename"@
}

/// What is shown of an argument: the last component of a path, the first line
/// of anything else.
pub open spec fn shortened(key: Seq<char>, value: Seq<char>) -> Seq<char> {
    if names_file(key) {
        split(value, '/').last()
    } else {
        let l = lines(value);
        if l.len() > 0 {
            l[0]
        } else {
            value
        }
    }
}

/// The summary of the first argument, of those listed, that has one.
pub open spec fn arg_among(raw: JsonView, keys: Seq<Seq<char>>) -> Option<Seq<char>>
    decreases keys.len(),
{
    if keys.len() == 0 {
        None
    } else {
        match raw.str_at(keys[0]) {
            Some(v) if trimmed(v).len() > 0 => Some(shortened(keys[0], trimmed(v))),
            _ => arg_among(raw, keys.drop_first()),
        }
    }
}

fn shorten(key: &str, value: &str) -> (r: String)
    ensures
        r@ == shortened(key@, value@),
{
    if same(key, "path") || same(key, "file") || same(key, "file_path") || same(key, "filename") {
        let parts = split_on(value, '/');
        proof {
            lemma_split_nonempty(value@, '/');
            assert(texts(parts@).last() == parts@.last()@);
        }
        parts[parts.len() - 1].clone()
    } else {
        let l = split_lines(value);
        assert(texts(l@).len() == l@.len());
        if l.len() > 0 {
            assert(texts(l@)[0] == l@[0]@);
            l[0].clone()
        } else {
            value.to_owned()
        }
    }
}

fn arg_under(raw: &Json, key: &str) -> (r: Option<String>)
    ensures
        opt_text(r) == (match raw@.str_at(key@) {
            Some(v) if trimmed(v).len() > 0 => Some(shortened(key@, trimmed(v))),
            _ => None,
        }),
{
    match raw.str_at(key) {
        Some(v) => {
            let t = trim(v.as_str());
            if t.as_str().is_empty() {
                None
            } else {
                Some(shorten(key, t.as_str()))
            }
        },
        None => None,
    }
}

/// A short summary of a tool call's arguments, where one of the known names is
/// among them and not blank.
pub fn tool_arg(raw: &Json) -> (r: Option<String>)
    ensures
        opt_text(r) == arg_among(raw@, arg_keys()),
{
    let keys: [&'static str; 10] = [
        "question",
        "path",
        "file",
        "file_path",
        "filename",
        "command",
        "cmd",
        "pattern",
        "query",
        "message",
    ];
    let ghost all = arg_keys();
    let mut i: usize = 0;
    assert(all.skip(0) =~= all);
    while i < 10
        invariant
            i <= 10,
            all == arg_keys(),
            all.len() == 10,
            forall|j: int| 0 <= j < 10 ==> (#[trigger] keys@[j])@ == all[j],
            arg_among(raw@, all) == arg_among(raw@, all.skip(i as int)),
        decreases 10 - i,
    {
        assert(all.skip(i as int).drop_first() =~= all.skip(i + 1));
        assert(all.skip(i as int)[0] == keys@[i as int]@);
        match arg_under(raw, keys[i]) {
            Some(s) => {
                return Some(s);
            },
            None => {},
        }
        i = i + 1;
    }
    None
}

/// The activity that a message announces.
pub open spec fn activity_in(msg: JsonView) -> Option<Seq<char>> {
    match update_of(msg, "tool_call"@) {
        None => None,
        Some(u) => {
            let tool = match u.str_at("title"@) {
                Some(t) => t,
                None => "tool"@,
            };
            let arg = match u.get("rawInput"@) {
                Some(raw) => arg_among(raw, arg_keys()),
                None => None,
            };
            match arg {
                Some(a) => Some(tool + " "@ + a),
                None => Some(tool),
            }
        },
    }
}

fn activity_from(msg: &Json) -> (r: Option<String>)
    ensures
        opt_text(r) == activity_in(msg@),
{
    match find_update(msg, "tool_call") {
        None => None,
        Some(u) => {
            let tool = match u.str_at("title") {
                Some(t) => t,
                None => "tool".to_owned(),
            };
            let arg = match u.get("rawInput") {
                Some(raw) => tool_arg(raw),
                None => None,
            };
            match arg {
                Some(a) => Some(cat3(tool.as_str(), " ", a.as_str())),
                None => Some(tool),
            }
        },
    }
}

/// The activity that a line announces: the tool of a `tool_call`, with its most
/// telling argument.
pub fn parse_tool_call(line: &str) -> (r: Option<String>)
    ensures
        opt_text(r) == (match json_parse(line@) {
            Some(m) => activity_in(m),
            None => None,
        }),
{
    match parse(line) {
        Some(m) => activity_from(&m),
        None => None,
    }
}

/// The first session in a `session/list` reply.
pub open spec fn first_session(msg: JsonView) -> Option<JsonView> {
    match msg.get("result"@) {
        None => None,
        Some(r) => match r.get("sessions"@) {
            None => None,
            Some(s) => match s.array() {
                None => None,
                Some(a) => if a.len() > 0 {
                    Some(a[0])
                } else {
                    None
                },
            },
        },
    }
}

/// A text of the first session in a `session/list` reply.
pub open spec fn session_text(msg: JsonView, key: Seq<char>) -> Option<Seq<char>> {
    match first_session(msg) {
        Some(s) => s.str_at(key),
        None => None,
    }
}

/// The id, the title and the directory of the first session in a `session/list`
/// reply, as far as it has them.
pub fn parse_session_list(msg: &Json) -> (r: (Option<String>, Option<String>, Option<String>))
    ensures
        opt_text(r.0) == session_text(msg@, "sessionId"@),
        opt_text(r.1) == session_text(msg@, "title"@),
        opt_text(r.2) == session_text(msg@, "cwd"@),
{
    match msg.get("result") {
        None => (None, None, None),
        Some(res) => match res.get("sessions") {
            None => (None, None, None),
            Some(s) => match s.as_array() {
                None => (None, None, None),
                Some(a) => if a.len() > 0 {
                    assert(json_views(a@)[0] == a@[0]@);
                    (a[0].str_at("sessionId"), a[0].str_at("title"), a[0].str_at("cwd"))
                } else {
                    assert(json_views(a@).len() == 0);
                    (None, None, None)
                },
            },
        },
    }
}

/// What a watcher knows of the agent it is connected to: whether the board has
/// it, and what it announced before that.
pub struct Watcher {
    entry: SocketEntry,
    seeded: bool,
    state: State,
    model: Option<String>,
}

/// What a watcher holds.
#[verifier::ext_equal]
pub struct WatcherView {
    pub entry: SocketView,
    pub seeded: bool,
    pub state: State,
    pub model: Option<Seq<char>>,
}

impl View for Watcher {
    type V = WatcherView;

    closed spec fn view(&self) -> WatcherView {
        WatcherView {
            entry: self.entry@,
            seeded: self.seeded,
            state: self.state,
            model: opt_text(self.model),
        }
    }
}

/// The message is the reply to the request for the sessions.
pub open spec fn is_list_reply(msg: JsonView) -> bool {
    msg.get("id"@) == Some(JsonView::Int(1))
}

/// The agent that a `session/list` reply announces, with the state and the
/// model that were announced before it.
pub open spec fn seed(w: WatcherView, msg: JsonView, now: u128) -> AgentView {
    AgentView {
        socket_path: w.entry.path,
        pid: match w.entry.pid {
            Some(p) => p,
            None => 0,
        },
        label: w.entry.label,
        session_id: session_text(msg, "sessionId"@),
        title: session_text(msg, "title"@),
        cwd: session_text(msg, "cwd"@),
        state: w.state,
        origin: Origin::Live,
        spawn_command: None,
        resume_command: None,
        activity: None,
        gui: false,
        message_flag: None,
        hidden: false,
        model: w.model,
        state_since: now,
        last_activity: now,
    }
}

/// What a watcher knows after a line, and the updates that it sends.
pub open spec fn heard(w: WatcherView, msg: JsonView, now: u128) -> (WatcherView, Seq<UpdateView>) {
    let path = w.entry.path;
    if !w.seeded && is_list_reply(msg) {
        (WatcherView { seeded: true, ..w }, seq![UpdateView::Upsert(seed(w, msg, now))])
    } else if let Some(s) = state_in(msg) {
        if w.seeded {
            (w, seq![UpdateView::SetState(path, s)])
        } else {
            (WatcherView { state: s, ..w }, Seq::empty())
        }
    } else if let Some(m) = model_in(msg) {
        if w.seeded {
            (w, seq![UpdateView::SetModel(path, m)])
        } else {
            (WatcherView { model: Some(m), ..w }, Seq::empty())
        }
    } else {
        let title = match title_in(msg) {
            Some(t) => seq![UpdateView::SetTitle(path, t)],
            None => Seq::empty(),
        };
        let activity = match activity_in(msg) {
            Some(a) => seq![UpdateView::SetActivity(path, a)],
            None => Seq::empty(),
        };
        (w, title + activity)
    }
}

/// The updates, by their views.
pub open spec fn updates(v: Seq<Update>) -> Seq<UpdateView> {
    Seq::new(v.len(), |i: int| v[i]@)
}

impl Watcher {
    /// A watcher of a fresh connection: an agent that says nothing is idle.
    pub fn new(entry: SocketEntry) -> (r: Self)
        ensures
            r@ == (WatcherView { entry: entry@, seeded: false, state: State::Idle, model: None }),
    {
        Watcher { entry, seeded: false, state: State::Idle, model: None }
    }

    fn seed(&self, msg: &Json, now: u128) -> (r: Agent)
        ensures
            r@ == seed(self@, msg@, now),
    {
        let (session_id, title, cwd) = parse_session_list(msg);
        Agent {
            socket_path: self.entry.path.clone(),
            pid: match self.entry.pid {
                Some(p) => p,
                None => 0,
            },
            label: self.entry.label.clone(),
            session_id,
            title,
            cwd,
            state: self.state,
            origin: Origin::Live,
            spawn_command: None,
            resume_command: None,
            activity: None,
            gui: false,
            message_flag: None,
            hidden: false,
            model: copy_opt_string(&self.model),
            state_since: now,
            last_activity: now,
        }
    }

    /// Takes in one message: the updates that it calls for. Before the board has
    /// the agent, its state and model are kept for the first of them.
    pub fn hear_message(&mut self, msg: &Json, now: u128) -> (r: Vec<Update>)
        ensures
            final(self)@ == heard(old(self)@, msg@, now).0,
            updates(r@) == heard(old(self)@, msg@, now).1,
    {
        let mut out: Vec<Update> = Vec::new();
        let listed = match msg.get("id") {
            Some(Json::Int(n)) => *n == 1,
            _ => false,
        };
        assert(listed == is_list_reply(msg@));
        if !self.seeded && listed {
            out.push(Update::Upsert(self.seed(msg, now)));
            self.seeded = true;
            assert(updates(out@) =~= heard(old(self)@, msg@, now).1);
            return out;
        }
        match state_from(msg) {
            Some(s) => {
                if self.seeded {
                    out.push(Update::SetState(self.entry.path.clone(), s));
                } else {
                    self.state = s;
                }
                assert(updates(out@) =~= heard(old(self)@, msg@, now).1);
                return out;
            },
            None => {},
        }
        match model_from(msg) {
            Some(m) => {
                if self.seeded {
                    out.push(Update::SetModel(self.entry.path.clone(), m));
                } else {
                    self.model = Some(m);
                }
                assert(updates(out@) =~= heard(old(self)@, msg@, now).1);
                return out;
            },
            None => {},
        }
        match title_from(msg) {
            Some(t) => {
                out.push(Update::SetTitle(self.entry.path.clone(), t));
            },
            None => {},
        }
        match activity_from(msg) {
            Some(a) => {
                out.push(Update::SetActivity(self.entry.path.clone(), a));
            },
            None => {},
        }
        assert(updates(out@) =~= heard(old(self)@, msg@, now).1);
        out
    }

    /// Takes in one line; a line that is no JSON is passed over.
    pub fn hear(&mut self, line: &str, now: u128) -> (r: Vec<Update>)
        ensures
            match json_parse(line@) {
                Some(m) => {
                    &&& final(self)@ == heard(old(self)@, m, now).0
                    &&& updates(r@) == heard(old(self)@, m, now).1
                },
                None => final(self)@ == old(self)@ && r@.len() == 0,
            },
    {
        match parse(line) {
            Some(m) => self.hear_message(&m, now),
            None => Vec::new(),
        }
    }

    /// The update that ends a connection.
    pub fn gone(&self) -> (r: Update)
        ensures
            r@ == UpdateView::Gone(self@.entry.path),
    {
        Update::Gone(self.entry.path.clone())
    }
}

/// What a watcher has heard, line by line.
pub open spec fn heard_all(w: WatcherView, msgs: Seq<JsonView>, now: u128) -> (WatcherView, Seq<UpdateView>)
    decreases msgs.len(),
{
    if msgs.len() == 0 {
        (w, Seq::empty())
    } else {
        let (v, sent) = heard_all(w, msgs.drop_last(), now);
        let (u, more) = heard(v, msgs.last(), now);
        (u, sent + more)
    }
}

/// The last state among the messages, if one announces any.
pub open spec fn last_state(msgs: Seq<JsonView>, first: State) -> State
    decreases msgs.len(),
{
    if msgs.len() == 0 {
        first
    } else {
        match state_in(msgs.last()) {
            Some(s) => s,
            None => last_state(msgs.drop_last(), first),
        }
    }
}

/// The last model among the messages, if one announces any. A message that
/// announces a state announces no model.
pub open spec fn last_model(msgs: Seq<JsonView>, first: Option<Seq<char>>) -> Option<Seq<char>>
    decreases msgs.len(),
{
    if msgs.len() == 0 {
        first
    } else {
        match model_in(msgs.last()) {
            Some(m) => Some(m),
            None => last_model(msgs.drop_last(), first),
        }
    }
}

proof fn lemma_state_or_model(msg: JsonView)
    ensures
        state_in(msg) is Some ==> model_in(msg) is None,
{
    reveal_strlit("state_update");
    reveal_strlit("config_options_update");
    assert("state_update"@.len() != "config_options_update"@.len());
}

proof fn lemma_before_seed(w: WatcherView, msgs: Seq<JsonView>, now: u128)
    requires
        !w.seeded,
        forall|i: int| 0 <= i < msgs.len() ==> !is_list_reply(#[trigger] msgs[i]),
    ensures
        !heard_all(w, msgs, now).0.seeded,
        heard_all(w, msgs, now).0.entry == w.entry,
        heard_all(w, msgs, now).0.state == last_state(msgs, w.state),
        heard_all(w, msgs, now).0.model == last_model(msgs, w.model),
    decreases msgs.len(),
{
    if msgs.len() > 0 {
        assert forall|i: int| 0 <= i < msgs.drop_last().len() implies !is_list_reply(
            #[trigger] msgs.drop_last()[i],
        ) by {
            assert(msgs.drop_last()[i] == msgs[i]);
        }
        lemma_before_seed(w, msgs.drop_last(), now);
        lemma_state_or_model(msgs.last());
    }
}

/// An agent comes to the board with the state and the model that it announced
/// last before its session was listed, in whatever order the lines came.
pub proof fn law_seed_carries_what_came_before(entry: SocketView, msgs: Seq<JsonView>, reply: JsonView, now: u128)
    requires
        forall|i: int| 0 <= i < msgs.len() ==> !is_list_reply(#[trigger] msgs[i]),
        is_list_reply(reply),
    ensures
        ({
            let w = WatcherView { entry, seeded: false, state: State::Idle, model: None };
            let (v, _) = heard_all(w, msgs, now);
            let (u, sent) = heard(v, reply, now);
            &&& u.seeded
            &&& sent.len() == 1
            &&& sent[0] matches UpdateView::Upsert(a) && {
                &&& a.socket_path == entry.path
                &&& a.state == last_state(msgs, State::Idle)
                &&& a.model == last_model(msgs, None)
            }
        }),
{
    let w = WatcherView { entry, seeded: false, state: State::Idle, model: None };
    lemma_before_seed(w, msgs, now);
}

/// An agent is brought to the board once only.
pub proof fn law_seeded_once(w: WatcherView, msg: JsonView, now: u128)
    requires
        w.seeded,
    ensures
        heard(w, msg, now).0 == w,
        forall|i: int|
            0 <= i < heard(w, msg, now).1.len() ==> !(#[trigger] heard(w, msg, now).1[i] is Upsert),
{
}

/// A message is a notification of a session that carries an update of a kind.
pub open spec fn notifies(msg: JsonView, kind: Seq<char>, u: JsonView) -> bool {
    &&& msg.get("method"@) == Some(JsonView::Str("session/update"@))
    &&& msg.get("params"@) matches Some(p) && p.get("update"@) == Some(u)
    &&& u.get("sessionUpdate"@) == Some(JsonView::Str(kind))
}

proof fn lemma_kinds_differ()
    ensures
        "state_update"@ != "config_options_update"@,
        "state_update"@ != "session_info_update"@,
        "state_update"@ != "tool_call"@,
        "config_options_update"@ != "session_info_update"@,
        "config_options_update"@ != "tool_call"@,
        "session_info_update"@ != "tool_call"@,
{
    reveal_strlit("state_update");
    reveal_strlit("config_options_update");
    reveal_strlit("session_info_update");
    reveal_strlit("tool_call");
    assert("state_update"@.len() == 12);
    assert("config_options_update"@.len() == 21);
    assert("session_info_update"@.len() == 19);
    assert("tool_call"@.len() == 9);
}

/// Once the board has the agent, a message that announces a state sends exactly
/// that state to the watcher's path; before, it is kept for when the agent
/// comes. A word that names no state sends and keeps nothing.
pub proof fn law_announced_state_is_passed_on(
    w: WatcherView,
    msg: JsonView,
    u: JsonView,
    word: Seq<char>,
    s: State,
    now: u128,
)
    requires
        notifies(msg, "state_update"@, u),
        u.get("state"@) == Some(JsonView::Str(word)),
        w.seeded || !is_list_reply(msg),
    ensures
        (word == "running"@ && s == State::Running) || (word == "idle"@ && s == State::Idle) || (
        word == "requires_action"@ && s == State::RequiresAction) ==> {
            &&& w.seeded ==> heard(w, msg, now) == (w, seq![UpdateView::SetState(w.entry.path, s)])
            &&& !w.seeded ==> heard(w, msg, now) == (
                WatcherView { state: s, ..w },
                Seq::<UpdateView>::empty(),
            )
        },
        word != "running"@ && word != "idle"@ && word != "requires_action"@ ==> heard(w, msg, now)
            == (w, Seq::<UpdateView>::empty()),
{
    law_protocol_words_name_states(word);
    lemma_kinds_differ();
    assert(state_in(msg) == state_of_wire(word));
    if word != "running"@ && word != "idle"@ && word != "requires_action"@ {
        assert(heard(w, msg, now).1 =~= Seq::<UpdateView>::empty());
    }
}

/// Once the board has the agent, a message that announces its options sends the
/// value of the first one that is the model; before, it is kept for when the
/// agent comes.
pub proof fn law_announced_model_is_passed_on(
    w: WatcherView,
    msg: JsonView,
    u: JsonView,
    options: Seq<JsonView>,
    i: int,
    m: Seq<char>,
    now: u128,
)
    requires
        notifies(msg, "config_options_update"@, u),
        u.get("configOptions"@) == Some(JsonView::Array(options)),
        0 <= i < options.len(),
        options[i].get("category"@) == Some(JsonView::Str("model"@)),
        options[i].get("currentValue"@) == Some(JsonView::Str(m)),
        forall|j: int|
            0 <= j < i ==> (#[trigger] options[j]).get("category"@) != Some(
                JsonView::Str("model"@),
            ),
        w.seeded || !is_list_reply(msg),
    ensures
        w.seeded ==> heard(w, msg, now) == (w, seq![UpdateView::SetModel(w.entry.path, m)]),
        !w.seeded ==> heard(w, msg, now) == (
            WatcherView { model: Some(m), ..w },
            Seq::<UpdateView>::empty(),
        ),
{
    lemma_kinds_differ();
    lemma_first_model(options, i);
}

proof fn lemma_first_model(options: Seq<JsonView>, i: int)
    requires
        0 <= i < options.len(),
        options[i].get("category"@) == Some(JsonView::Str("model"@)),
        forall|j: int|
            0 <= j < i ==> (#[trigger] options[j]).get("category"@) != Some(
                JsonView::Str("model"@),
            ),
    ensures
        model_option(options) == options[i].str_at("currentValue"@),
    decreases options.len(),
{
    if i > 0 {
        let t = options.drop_first();
        assert(options[0].get("category"@) != Some(JsonView::Str("model"@)));
        assert forall|j: int| 0 <= j < i - 1 implies (#[trigger] t[j]).get("category"@) != Some(
            JsonView::Str("model"@),
        ) by {
            assert(t[j] == options[j + 1]);
        }
        lemma_first_model(t, i - 1);
    }
}

/// A message that announces a title sends it to the watcher's path, and one that
/// announces none takes the title away.
pub proof fn law_announced_title_is_passed_on(w: WatcherView, msg: JsonView, u: JsonView, now: u128)
    requires
        notifies(msg, "session_info_update"@, u),
        w.seeded || !is_list_reply(msg),
    ensures
        u.get("title"@) matches Some(JsonView::Str(t)) ==> heard(w, msg, now) == (
            w,
            seq![UpdateView::SetTitle(w.entry.path, Some(t))],
        ),
        !(u.get("title"@) matches Some(JsonView::Str(t))) ==> heard(w, msg, now) == (
            w,
            seq![UpdateView::SetTitle(w.entry.path, None)],
        ),
{
    lemma_kinds_differ();
    assert(heard(w, msg, now).1 =~= seq![UpdateView::SetTitle(w.entry.path, u.str_at("title"@))]);
}

/// A message that announces a tool sends one activity to the watcher's path: the
/// tool's title, or the bare word for one without, followed by what it works on
/// where that is said.
pub proof fn law_announced_tool_is_passed_on(
    w: WatcherView,
    msg: JsonView,
    u: JsonView,
    tool: Seq<char>,
    now: u128,
)
    requires
        notifies(msg, "tool_call"@, u),
        w.seeded || !is_list_reply(msg),
        match u.get("title"@) {
            Some(JsonView::Str(t)) => tool == t,
            _ => tool == "tool"@,
        },
    ensures
        u.get("rawInput"@) is None ==> heard(w, msg, now) == (
            w,
            seq![UpdateView::SetActivity(w.entry.path, tool)],
        ),
        u.get("rawInput"@) matches Some(raw) ==> (arg_among(raw, arg_keys()) is None ==> heard(
            w,
            msg,
            now,
        ) == (w, seq![UpdateView::SetActivity(w.entry.path, tool)])),
        u.get("rawInput"@) matches Some(raw) ==> (arg_among(raw, arg_keys()) matches Some(arg)
            ==> heard(w, msg, now) == (
            w,
            seq![UpdateView::SetActivity(w.entry.path, tool + " "@ + arg)],
        )),
{
    lemma_kinds_differ();
    assert(activity_in(msg) is Some);
    assert(heard(w, msg, now).1 =~= seq![
        UpdateView::SetActivity(w.entry.path, activity_in(msg)->0),
    ]);
}

/// What says something about a tool's work, under a name.
pub open spec fn says_something(raw: JsonView, key: Seq<char>) -> bool {
    raw.get(key) matches Some(JsonView::Str(v)) && trimmed(v).len() > 0
}

/// What a tool works on is the first thing said under the names that are known,
/// in their order: of a file its last component, of anything else its first
/// line, without the blanks around it. Where nothing is said under any of them,
/// nothing is shown.
pub proof fn law_tool_argument_is_the_first_thing_said(raw: JsonView, k: int, v: Seq<char>)
    ensures
        0 <= k < arg_keys().len() && raw.get(arg_keys()[k]) == Some(JsonView::Str(v)) && trimmed(
            v,
        ).len() > 0 && (forall|j: int|
            0 <= j < k ==> !says_something(raw, #[trigger] arg_keys()[j])) ==> arg_among(
            raw,
            arg_keys(),
        ) == Some(shortened(arg_keys()[k], trimmed(v))),
        (forall|j: int| 0 <= j < arg_keys().len() ==> !says_something(raw, #[trigger] arg_keys()[j]))
            ==> arg_among(raw, arg_keys()) is None,
{
    lemma_first_said(raw, arg_keys(), k, v);
}

proof fn lemma_first_said(raw: JsonView, keys: Seq<Seq<char>>, k: int, v: Seq<char>)
    ensures
        0 <= k < keys.len() && raw.get(keys[k]) == Some(JsonView::Str(v)) && trimmed(v).len() > 0 && (
        forall|j: int| 0 <= j < k ==> !says_something(raw, #[trigger] keys[j])) ==> arg_among(
            raw,
            keys,
        ) == Some(shortened(keys[k], trimmed(v))),
        (forall|j: int| 0 <= j < keys.len() ==> !says_something(raw, #[trigger] keys[j]))
            ==> arg_among(raw, keys) is None,
    decreases keys.len(),
{
    if keys.len() > 0 {
        let t = keys.drop_first();
        lemma_first_said(raw, t, k - 1, v);
        assert forall|j: int| 0 <= j < t.len() implies t[j] == keys[j + 1] by {}
        if !says_something(raw, keys[0]) {
            assert(arg_among(raw, keys) == arg_among(raw, t));
        }
        if 0 < k < keys.len() {
            assert(t[k - 1] == keys[k]);
        }
    }
}

/// A question is asked before all else, files come before commands, commands
/// before patterns and queries, and a message last.
pub proof fn law_tool_arguments_are_sought_in_this_order()
    ensures
        arg_keys()[0] == "question"@,
        names_file(arg_keys()[1]) && names_file(arg_keys()[2]) && names_file(arg_keys()[3])
            && names_file(arg_keys()[4]),
        arg_keys()[5] == "command"@ && arg_keys()[6] == "cmd"@,
        arg_keys()[7] == "pattern"@ && arg_keys()[8] == "query"@,
        arg_keys()[9] == "message"@,
        arg_keys().len() == 10,
{
}

/// What is shown of a file is no path, and what is shown of anything else is one
/// line of it, from its start.
pub proof fn law_shown_argument_is_short(key: Seq<char>, v: Seq<char>)
    ensures
        names_file(key) ==> !shortened(key, v).contains('/') && has_suffix(v, shortened(key, v)),
        !names_file(key) ==> has_prefix(v, shortened(key, v)),
        !names_file(key) && v.len() > 0 ==> !shortened(key, v).contains('\n'),
        !v.contains('/') && names_file(key) ==> shortened(key, v) == v,
        !v.contains('\n') && !names_file(key) ==> shortened(key, v) == v,
{
    lemma_last_part(v, '/');
    if !names_file(key) {
        lemma_first_line(v);
    }
}

proof fn lemma_last_part(v: Seq<char>, sep: char)
    ensures
        split(v, sep).len() > 0,
        !split(v, sep).last().contains(sep),
        has_suffix(v, split(v, sep).last()),
        !v.contains(sep) ==> split(v, sep) == seq![v],
    decreases v.len(),
{
    if v.len() > 0 {
        let t = v.drop_last();
        lemma_last_part(t, sep);
        let p = split(t, sep);
        let q = split(v, sep);
        if v.last() != sep {
            assert(q.last() == p.last().push(v.last()));
            let n = q.last().len() as int;
            assert(t.subrange(t.len() - p.last().len(), t.len() as int) == p.last());
            assert(v.subrange(v.len() - n, v.len() as int) =~= q.last()) by {
                assert forall|i: int| 0 <= i < n implies v.subrange(v.len() - n, v.len() as int)[i]
                    == q.last()[i] by {
                    if i < n - 1 {
                        assert(t.subrange(t.len() - p.last().len(), t.len() as int)[i] == p.last()[i]);
                    }
                }
            }
            assert forall|i: int| 0 <= i < n implies q.last()[i] != sep by {
                if i < n - 1 {
                    assert(p.last()[i] == q.last()[i]);
                    assert(p.last().contains(p.last()[i]));
                }
            }
        } else {
            assert(v[v.len() - 1] == sep);
            assert(v.subrange(v.len() as int, v.len() as int) =~= Seq::<char>::empty());
        }
        if !v.contains(sep) {
            assert(!t.contains(sep)) by {
                if t.contains(sep) {
                    let k = choose|k: int| 0 <= k < t.len() && t[k] == sep;
                    assert(v[k] == sep);
                }
            }
            assert(v.last() != sep) by {
                assert(v[v.len() - 1] == v.last());
            }
            assert(t.push(v.last()) =~= v);
            assert(q =~= seq![v]);
        }
    } else {
        assert(v =~= Seq::<char>::empty());
        assert(v.subrange(0, 0) =~= v);
    }
}

proof fn lemma_first_line(v: Seq<char>)
    ensures
        v.len() > 0 ==> lines(v).len() > 0,
        lines(v).len() > 0 ==> has_prefix(v, lines(v)[0]) && !lines(v)[0].contains('\n'),
        !v.contains('\n') && v.len() > 0 ==> lines(v)[0] == v,
        v.len() == 0 ==> lines(v).len() == 0,
{
    v.index_of_first_ensures('\n');
    lemma_last_part(v, '\n');
    match v.index_of_first('\n') {
        Some(i) => {
            let a = v.subrange(0, i);
            let b = v.subrange(i + 1, v.len() as int);
            assert(!a.contains('\n'));
            assert(v =~= a.push('\n') + b);
            lemma_split_first(a, b, '\n');
            let l = lines(v)[0];
            assert(split(v, '\n').drop_last()[0] == a);
            assert(l == without_cr(a));
            assert(v.subrange(0, l.len() as int) =~= l);
            assert forall|j: int| 0 <= j < l.len() implies l[j] != '\n' by {
                assert(a[j] == l[j]);
            }
        },
        None => {
            assert(split(v, '\n') == seq![v]);
            if v.len() > 0 {
                assert(lines(v)[0] == v);
                assert(v.subrange(0, v.len() as int) =~= v);
            } else {
                assert(split(v, '\n').last().len() == 0);
                assert(lines(v).len() == 0);
            }
        },
    }
}

/// A message that is no notification of a session, and no list of sessions that
/// is waited for, changes nothing and sends nothing.
pub proof fn law_other_messages_are_passed_over(w: WatcherView, msg: JsonView, now: u128)
    requires
        msg.get("method"@) != Some(JsonView::Str("session/update"@)),
        w.seeded || msg.get("id"@) != Some(JsonView::Int(1)),
    ensures
        heard(w, msg, now) == (w, Seq::<UpdateView>::empty()),
{
    assert(heard(w, msg, now).1 =~= Seq::<UpdateView>::empty());
}

/// The first list of sessions brings the agent to the board, live: with the
/// session, title and directory of the first one listed, the process and label of
/// its socket, and the state and model that were announced before. How it is
/// launched is left to the registry.
pub proof fn law_listed_session_comes_to_the_board(
    w: WatcherView,
    msg: JsonView,
    result: JsonView,
    sessions: Seq<JsonView>,
    now: u128,
)
    requires
        !w.seeded,
        msg.get("id"@) == Some(JsonView::Int(1)),
        msg.get("result"@) == Some(result),
        result.get("sessions"@) == Some(JsonView::Array(sessions)),
        sessions.len() > 0,
    ensures
        heard(w, msg, now).0 == (WatcherView { seeded: true, ..w }),
        heard(w, msg, now).1.len() == 1,
        heard(w, msg, now).1[0] matches UpdateView::Upsert(a) && {
            &&& a.socket_path == w.entry.path
            &&& a.label == w.entry.label
            &&& w.entry.pid matches Some(p) ==> a.pid == p
            &&& w.entry.pid is None ==> a.pid == 0
            &&& a.session_id == sessions[0].str_at("sessionId"@)
            &&& a.title == sessions[0].str_at("title"@)
            &&& a.cwd == sessions[0].str_at("cwd"@)
            &&& a.state == w.state
            &&& a.model == w.model
            &&& a.origin == Origin::Live
            &&& a.activity is None
            &&& a.spawn_command is None && a.resume_command is None
            &&& a.message_flag is None && !a.gui && !a.hidden
            &&& a.state_since == now && a.last_activity == now
        },
{
}

/// A message announces at most one thing.
pub proof fn lemma_one_announcement(msg: JsonView)
    ensures
        state_in(msg) is Some ==> model_in(msg) is None && title_in(msg) is None && activity_in(
            msg,
        ) is None,
        model_in(msg) is Some ==> title_in(msg) is None && activity_in(msg) is None,
        title_in(msg) is Some ==> activity_in(msg) is None,
{
    lemma_kinds_differ();
}

} // verus!
