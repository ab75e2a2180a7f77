//! The board's in-memory model. Live agents are keyed and ordered by socket
//! path; dormant agents are derived from the registry: resumable sessions that
//! are not live.
use vstd::prelude::*;

use crate::approved_commands::{denormalize, denormalized};
use crate::discovery::{opt_as_str, records, RecordView, RegistryEntry};
use crate::launch::{LaunchMode, LaunchModeView};
use crate::order::{
    in_order, law_sort_and_filter_commute, law_sort_is_permutation, law_sort_is_stable,
    lemma_placed_elements, lemma_placed_keeps, lemma_sorted_contains, placed, sort, sorted_by, tied, views,
    weak_order, Less,
};
use crate::path::{
    is_path_before, is_same_path, lemma_path_order, lemma_path_transitive, path_before, same_path,
};
use crate::text::{
    ascii, ascii_lowered, before, copy_opt_string, copy_opt_strings, in_lower_case, is_before,
    is_subsequence, lemma_before_asymmetric, lemma_before_irreflexive, lemma_before_total,
    lemma_before_transitive, lemma_words_joined, lemma_words_lowered, lemma_words_trimmed, lower,
    embeds, has_infix, infix_at, law_subsequence_is_an_embedding, law_unbroken_text_is_one_word,
    opt_text, opt_texts, same, same_opt, split_whitespace, subsequence, texts, trim, trimmed, whitespace, words,
};

verus! {

// ---------------------------------------------------------------------------
// States and columns
// ---------------------------------------------------------------------------
/// What a live agent is doing.
#[derive(Debug, Clone, Copy, PartialEq, Eq, Structural)]
pub enum State {
    Running,
    Idle,
    RequiresAction,
}

/// The state that a word of the protocol stands for.
pub open spec fn state_of_wire(s: Seq<char>) -> Option<State> {
    if s == "running"@ {
        Some(State::Running)
    } else if s == "idle"@ {
        Some(State::Idle)
    } else if s == "requires_action"@ {
        Some(State::RequiresAction)
    } else {
        None
    }
}

impl State {
    /// Maps a word of the protocol to a state.
    pub fn from_wire(s: &str) -> (r: Option<State>)
        ensures
            r == state_of_wire(s@),
    {
        if same(s, "running") {
            Some(State::Running)
        } else if same(s, "idle") {
            Some(State::Idle)
        } else if same(s, "requires_action") {
            Some(State::RequiresAction)
        } else {
            None
        }
    }
}

/// Whether an agent is a live process or a dormant session.
#[derive(Debug, Clone, Copy, PartialEq, Eq, Structural)]
pub enum Origin {
    Live,
    Dormant,
}

/// The board's columns, left to right.
#[derive(Debug, Clone, Copy, PartialEq, Eq, Structural)]
pub enum Column {
    RequiresAction,
    Idle,
    Running,
    Dormant,
}

impl Column {
    /// Every column, in display and selection order.
    pub const ALL: [Column; 4] = [
        Column::RequiresAction,
        Column::Idle,
        Column::Running,
        Column::Dormant,
    ];

    /// The column's place in display order.
    pub open spec fn place(self) -> int {
        match self {
            Column::RequiresAction => 0,
            Column::Idle => 1,
            Column::Running => 2,
            Column::Dormant => 3,
        }
    }

    pub open spec fn heading(self) -> Seq<char> {
        match self {
            Column::RequiresAction => "Requires Action"@,
            Column::Idle => "Idle"@,
            Column::Running => "Running"@,
            Column::Dormant => "Dormant"@,
        }
    }

    /// The column heading.
    pub fn title(&self) -> (r: &'static str)
        ensures
            r@ == self.heading(),
    {
        match self {
            Column::RequiresAction => "Requires Action",
            Column::Idle => "Idle",
            Column::Running => "Running",
            Column::Dormant => "Dormant",
        }
    }

    /// The column's place in display order.
    pub fn index(&self) -> (r: usize)
        ensures
            r == self.place(),
            r < 4,
            Column::ALL[r as int] == *self,
    {
        match self {
            Column::RequiresAction => 0,
            Column::Idle => 1,
            Column::Running => 2,
            Column::Dormant => 3,
        }
    }
}

/// The column of a live agent in a state.
pub open spec fn state_column(s: State) -> Column {
    match s {
        State::RequiresAction => Column::RequiresAction,
        State::Idle => Column::Idle,
        State::Running => Column::Running,
    }
}

// ---------------------------------------------------------------------------
// Agents
// ---------------------------------------------------------------------------
/// One agent on the board.
#[derive(Debug, PartialEq, Eq)]
pub struct Agent {
    pub socket_path: String,
    pub pid: u32,
    pub label: String,
    pub session_id: Option<String>,
    pub title: Option<String>,
    pub cwd: Option<String>,
    pub state: State,
    pub origin: Origin,
    /// The argv of a fresh session of this kind.
    pub spawn_command: Option<Vec<String>>,
    /// The argv that resumes exactly this session.
    pub resume_command: Option<Vec<String>>,
    /// The current or most recent tool activity.
    pub activity: Option<String>,
    /// Whether the kind draws its own window.
    pub gui: bool,
    /// The flag that carries an initial message.
    pub message_flag: Option<String>,
    /// Whether the session runs in a headless compositor.
    pub hidden: bool,
    pub model: Option<String>,
    /// When the agent entered its state, in nanoseconds of a monotonic clock.
    pub state_since: u128,
    /// When the agent was last active, on the same clock.
    pub last_activity: u128,
}

/// What an agent holds.
#[verifier::ext_equal]
pub struct AgentView {
    pub socket_path: Seq<char>,
    pub pid: u32,
    pub label: Seq<char>,
    pub session_id: Option<Seq<char>>,
    pub title: Option<Seq<char>>,
    pub cwd: Option<Seq<char>>,
    pub state: State,
    pub origin: Origin,
    pub spawn_command: Option<Seq<Seq<char>>>,
    pub resume_command: Option<Seq<Seq<char>>>,
    pub activity: Option<Seq<char>>,
    pub gui: bool,
    pub message_flag: Option<Seq<char>>,
    pub hidden: bool,
    pub model: Option<Seq<char>>,
    pub state_since: u128,
    pub last_activity: u128,
}

impl View for Agent {
    type V = AgentView;

    open spec fn view(&self) -> AgentView {
        AgentView {
            socket_path: self.socket_path@,
            pid: self.pid,
            label: self.label@,
            session_id: opt_text(self.session_id),
            title: opt_text(self.title),
            cwd: opt_text(self.cwd),
            state: self.state,
            origin: self.origin,
            spawn_command: opt_texts(self.spawn_command),
            resume_command: opt_texts(self.resume_command),
            activity: opt_text(self.activity),
            gui: self.gui,
            message_flag: opt_text(self.message_flag),
            hidden: self.hidden,
            model: opt_text(self.model),
            state_since: self.state_since,
            last_activity: self.last_activity,
        }
    }
}

impl Clone for Agent {
    fn clone(&self) -> (r: Self)
        ensures
            r@ == self@,
    {
        Agent {
            socket_path: self.socket_path.clone(),
            pid: self.pid,
            label: self.label.clone(),
            session_id: copy_opt_string(&self.session_id),
            title: copy_opt_string(&self.title),
            cwd: copy_opt_string(&self.cwd),
            state: self.state,
            origin: self.origin,
            spawn_command: copy_opt_strings(&self.spawn_command),
            resume_command: copy_opt_strings(&self.resume_command),
            activity: copy_opt_string(&self.activity),
            gui: self.gui,
            message_flag: copy_opt_string(&self.message_flag),
            hidden: self.hidden,
            model: copy_opt_string(&self.model),
            state_since: self.state_since,
            last_activity: self.last_activity,
        }
    }
}

/// An absent text counts as empty.
pub open spec fn or_empty(o: Option<Seq<char>>) -> Seq<char> {
    match o {
        Some(s) => s,
        None => Seq::empty(),
    }
}

pub fn str_or_empty(o: &Option<String>) -> (r: &str)
    ensures
        r@ == or_empty(opt_text(*o)),
{
    match o {
        Some(s) => s.as_str(),
        None => {
            proof {
                reveal_strlit("");
                assert(""@ =~= Seq::<char>::empty());
            }
            ""
        },
    }
}

/// The words of a query, each in lower case.
pub open spec fn terms(query: Seq<char>) -> Seq<Seq<char>> {
    words(query).map_values(|w: Seq<char>| in_lower_case(w))
}

/// Each of the words stands in a text, letters in order.
pub open spec fn all_embedded(ws: Seq<Seq<char>>, hay: Seq<char>) -> bool {
    forall|i: int| 0 <= i < ws.len() ==> subsequence(#[trigger] ws[i], hay)
}

impl AgentView {
    /// The launch options of the agent's kind.
    pub open spec fn launch_mode(self) -> LaunchModeView {
        LaunchModeView { gui: self.gui, message_flag: self.message_flag, hidden: self.hidden }
    }

    /// The session id as it is filled into a command.
    pub open spec fn own_id(self) -> Seq<char> {
        or_empty(self.session_id)
    }

    pub open spec fn resume_argv(self) -> Option<Seq<Seq<char>>> {
        match self.resume_command {
            Some(c) => Some(denormalized(c, self.own_id(), self.cwd)),
            None => None,
        }
    }

    pub open spec fn spawn_argv(self) -> Option<Seq<Seq<char>>> {
        match self.spawn_command {
            Some(c) => Some(denormalized(c, self.own_id(), self.cwd)),
            None => None,
        }
    }

    /// The column that the agent stands in.
    pub open spec fn column(self) -> Column {
        match self.origin {
            Origin::Dormant => Column::Dormant,
            Origin::Live => state_column(self.state),
        }
    }

    /// What a move of the agent's card is kept under.
    pub open spec fn move_key(self) -> Seq<char> {
        match self.session_id {
            Some(id) => id,
            None => self.socket_path,
        }
    }

    /// The word for the agent's state.
    pub open spec fn state_word(self) -> Seq<char> {
        match self.origin {
            Origin::Dormant => "dormant"@,
            Origin::Live => match self.state {
                State::RequiresAction => "requires action"@,
                State::Running => "running"@,
                State::Idle => "idle"@,
            },
        }
    }

    /// The card's content: title, directory, activity, state and kind.
    pub open spec fn content(self) -> Seq<char> {
        or_empty(self.title) + " "@ + or_empty(self.cwd) + " "@ + or_empty(self.activity) + " "@
            + self.state_word() + " "@ + self.label
    }

    /// Every word of the query stands in the content, letters in order,
    /// whatever their case.
    pub open spec fn matches(self, query: Seq<char>) -> bool {
        all_embedded(terms(query), in_lower_case(self.content()))
    }
}

impl Agent {
    /// The launch options of the agent's kind.
    pub fn launch_mode(&self) -> (r: LaunchMode)
        ensures
            r@ == self@.launch_mode(),
    {
        LaunchMode {
            gui: self.gui,
            message_flag: copy_opt_string(&self.message_flag),
            hidden: self.hidden,
        }
    }

    /// The resume command with the agent's own id and directory filled in.
    pub fn resume_argv(&self) -> (r: Option<Vec<String>>)
        ensures
            opt_texts(r) == self@.resume_argv(),
    {
        match &self.resume_command {
            Some(c) => Some(denormalize(c, str_or_empty(&self.session_id), opt_as_str(&self.cwd))),
            None => None,
        }
    }

    /// The spawn command with the agent's own id and directory filled in.
    pub fn spawn_argv(&self) -> (r: Option<Vec<String>>)
        ensures
            opt_texts(r) == self@.spawn_argv(),
    {
        match &self.spawn_command {
            Some(c) => Some(denormalize(c, str_or_empty(&self.session_id), opt_as_str(&self.cwd))),
            None => None,
        }
    }

    /// The column that the agent stands in.
    pub fn column(&self) -> (r: Column)
        ensures
            r == self@.column(),
    {
        match self.origin {
            Origin::Dormant => Column::Dormant,
            Origin::Live => match self.state {
                State::RequiresAction => Column::RequiresAction,
                State::Idle => Column::Idle,
                State::Running => Column::Running,
            },
        }
    }

    /// What a move of the agent's card is kept under: its session id, else its
    /// socket path.
    pub fn move_key(&self) -> (r: String)
        ensures
            r@ == self@.move_key(),
    {
        match &self.session_id {
            Some(id) => id.clone(),
            None => self.socket_path.clone(),
        }
    }

    /// The card's content, which a filter is held against.
    pub fn content(&self) -> (r: String)
        ensures
            r@ == self@.content(),
    {
        let state = match self.origin {
            Origin::Dormant => "dormant",
            Origin::Live => match self.state {
                State::RequiresAction => "requires action",
                State::Running => "running",
                State::Idle => "idle",
            },
        };
        let mut s = str_or_empty(&self.title).to_owned();
        s.append(" ");
        s.append(str_or_empty(&self.cwd));
        s.append(" ");
        s.append(str_or_empty(&self.activity));
        s.append(" ");
        s.append(state);
        s.append(" ");
        s.append(self.label.as_str());
        s
    }

    /// Whether the card's content fuzzily matches a filter query.
    pub fn matches_query(&self, query: &str) -> (r: bool)
        ensures
            r == self@.matches(query@),
            trimmed(query@).len() == 0 ==> r,
    {
        let hay = lower(self.content().as_str());
        let ws = split_whitespace(query);
        proof {
            lemma_words_trimmed(query@);
        }
        let mut i: usize = 0;
        while i < ws.len()
            invariant
                i <= ws@.len(),
                texts(ws@) == words(query@),
                words(trimmed(query@)) == words(query@),
                hay@ == in_lower_case(self@.content()),
                forall|j: int| 0 <= j < i ==> subsequence(#[trigger] terms(query@)[j], hay@),
            decreases ws@.len() - i,
        {
            assert(ws@[i as int]@ == texts(ws@)[i as int]);
            let term = lower(ws[i].as_str());
            assert(terms(query@)[i as int] == term@);
            if !is_subsequence(term.as_str(), hay.as_str()) {
                assert(!subsequence(terms(query@)[i as int], hay@));
                return false;
            }
            i = i + 1;
        }
        true
    }
}

/// A blank query matches every card.
pub proof fn law_blank_query_matches_every_card(a: AgentView, query: Seq<char>)
    requires
        trimmed(query).len() == 0,
    ensures
        a.matches(query),
{
    lemma_words_trimmed(query);
}

/// Two queries with a blank between them match the cards that both match.
pub proof fn law_joined_queries_match_what_both_match(a: AgentView, p: Seq<char>, q: Seq<char>)
    ensures
        a.matches(p + " "@ + q) == (a.matches(p) && a.matches(q)),
{
    reveal_strlit(" ");
    let hay = in_lower_case(a.content());
    let (x, y) = (terms(p), terms(q));
    assert(p + " "@ + q =~= p.push(' ') + q);
    lemma_words_joined(p, q);
    assert(terms(p + " "@ + q) =~= x + y);
    assert(all_embedded(x + y, hay) == (all_embedded(x, hay) && all_embedded(y, hay))) by {
        if all_embedded(x + y, hay) {
            assert forall|i: int| 0 <= i < x.len() implies subsequence(#[trigger] x[i], hay) by {
                assert((x + y)[i] == x[i]);
            }
            assert forall|i: int| 0 <= i < y.len() implies subsequence(#[trigger] y[i], hay) by {
                assert((x + y)[x.len() + i] == y[i]);
            }
        }
    }
}

/// Two texts are the same, or ASCII texts that differ in the case of letters.
pub open spec fn same_but_for_case(v: Seq<char>, w: Seq<char>) -> bool {
    v == w || (ascii(v) && ascii(w) && ascii_lowered(v) == ascii_lowered(w))
}

/// The words of two queries are the same but for the case of ASCII words.
pub open spec fn same_words(p: Seq<char>, q: Seq<char>) -> bool {
    words(p).len() == words(q).len() && forall|i: int|
        0 <= i < words(p).len() ==> same_but_for_case(#[trigger] words(p)[i], words(q)[i])
}

/// The case of ASCII words in a query does not matter, whatever else it holds, and
/// neither does that of an ASCII card.
pub proof fn law_case_does_not_matter(a: AgentView, b: AgentView, p: Seq<char>, q: Seq<char>)
    requires
        same_words(p, q) || same_but_for_case(p, q),
        same_but_for_case(a.content(), b.content()),
    ensures
        a.matches(p) == b.matches(q),
{
    let f = |w: Seq<char>| ascii_lowered(w);
    if !same_words(p, q) {
        if p != q {
            lemma_words_lowered(p);
            lemma_words_lowered(q);
            let (x, y) = (words(p), words(q));
            assert(x.map_values(f) == y.map_values(f));
            assert(x.len() == x.map_values(f).len() && y.len() == y.map_values(f).len());
            assert forall|i: int| 0 <= i < x.len() implies same_but_for_case(#[trigger] x[i], y[i]) by {
                assert(x.map_values(f)[i] == y.map_values(f)[i]);
                assert(ascii(y[i]));
            }
        }
        assert(same_words(p, q));
    }
    assert(terms(p) =~= terms(q)) by {
        assert forall|i: int| 0 <= i < words(p).len() implies terms(p)[i] == terms(q)[i] by {
            assert(same_but_for_case(words(p)[i], words(q)[i]));
        }
    }
}

/// A text that a card shows: its title, its directory, its activity, the word
/// for its state, or its label.
pub open spec fn on_the_card(a: AgentView, f: Seq<char>) -> bool {
    ||| a.title == Some(f)
    ||| a.cwd == Some(f)
    ||| a.activity == Some(f)
    ||| a.label == f
    ||| a.origin == Origin::Dormant && f == "dormant"@
    ||| a.origin == Origin::Live && a.state == State::RequiresAction && f == "requires action"@
    ||| a.origin == Origin::Live && a.state == State::Running && f == "running"@
    ||| a.origin == Origin::Live && a.state == State::Idle && f == "idle"@
}

/// What a query is held against is every text that the card shows, each of them
/// whole, with one character between any two and nothing more.
pub proof fn law_content_is_what_the_card_shows(a: AgentView, f: Seq<char>)
    ensures
        on_the_card(a, f) ==> has_infix(a.content(), f),
        a.content().len() == or_empty(a.title).len() + or_empty(a.cwd).len() + or_empty(
            a.activity,
        ).len() + a.state_word().len() + a.label.len() + 4,
        on_the_card(a, a.state_word()),
{
    reveal_strlit(" ");
    let c = a.content();
    let (t, d, v, w) = (or_empty(a.title), or_empty(a.cwd), or_empty(a.activity), a.state_word());
    let i: int = t.len() + 1int;
    let j: int = i + d.len() + 1;
    let k: int = j + v.len() + 1;
    let l: int = k + w.len() + 1;
    assert(c.subrange(0, t.len() as int) =~= t);
    assert(c.subrange(i, i + d.len()) =~= d);
    assert(c.subrange(j, j + v.len()) =~= v);
    assert(c.subrange(k, k + w.len()) =~= w);
    assert(c.subrange(l, l + a.label.len()) =~= a.label);
    assert(infix_at(c, t, 0));
    assert(infix_at(c, d, i));
    assert(infix_at(c, v, j));
    assert(infix_at(c, w, k));
    assert(infix_at(c, a.label, l));
}

/// A query of one word matches a card where the word's letters stand in order,
/// their case aside, in any one of the texts that the card shows. The card's
/// texts are ASCII here: how the lower case of a joined text comes of its parts
/// is plain only there.
pub proof fn law_word_in_any_text_matches(
    a: AgentView,
    word: Seq<char>,
    f: Seq<char>,
    at: Seq<int>,
)
    requires
        word.len() > 0,
        forall|i: int| 0 <= i < word.len() ==> !whitespace(#[trigger] word[i]),
        on_the_card(a, f),
        ascii(a.content()),
        embeds(in_lower_case(word), ascii_lowered(f), at),
    ensures
        a.matches(word),
{
    law_content_is_what_the_card_shows(a, f);
    law_unbroken_text_is_one_word(word);
    let hay = ascii_lowered(a.content());
    let k = choose|k: int| infix_at(a.content(), f, k);
    let moved = Seq::new(at.len(), |i: int| at[i] + k);
    assert(embeds(in_lower_case(word), hay, moved)) by {
        assert forall|i: int| 0 <= i < moved.len() implies 0 <= #[trigger] moved[i] < hay.len()
            && hay[moved[i]] == in_lower_case(word)[i] by {
            assert(0 <= at[i] < f.len());
            assert(a.content().subrange(k, k + f.len())[at[i]] == f[at[i]]);
            assert(a.content()[at[i] + k] == f[at[i]]);
        }
        assert forall|i: int, j: int| 0 <= i < j < moved.len() implies #[trigger] moved[i]
            < #[trigger] moved[j] by {
            assert(at[i] < at[j]);
        }
    }
    law_subsequence_is_an_embedding(in_lower_case(word), hay);
    assert(terms(word) =~= seq![in_lower_case(word)]);
}

/// A query of one word matches no card in whose content the word's letters do not
/// stand in order.
pub proof fn law_word_matches_only_where_it_stands(a: AgentView, word: Seq<char>)
    requires
        word.len() > 0,
        forall|i: int| 0 <= i < word.len() ==> !whitespace(#[trigger] word[i]),
        a.matches(word),
    ensures
        exists|at: Seq<int>| embeds(in_lower_case(word), in_lower_case(a.content()), at),
{
    law_unbroken_text_is_one_word(word);
    assert(terms(word) =~= seq![in_lower_case(word)]);
    assert(subsequence(terms(word)[0], in_lower_case(a.content())));
    law_subsequence_is_an_embedding(in_lower_case(word), in_lower_case(a.content()));
}

/// A change pushed from a watcher to the board.
#[derive(Debug, PartialEq, Eq)]
pub enum Update {
    /// Seeds or refreshes an agent.
    Upsert(Agent),
    SetState(String, State),
    SetTitle(String, Option<String>),
    SetActivity(String, String),
    SetModel(String, String),
    /// The socket closed or refused.
    Gone(String),
}

pub enum UpdateView {
    Upsert(AgentView),
    SetState(Seq<char>, State),
    SetTitle(Seq<char>, Option<Seq<char>>),
    SetActivity(Seq<char>, Seq<char>),
    SetModel(Seq<char>, Seq<char>),
    Gone(Seq<char>),
}

impl View for Update {
    type V = UpdateView;

    open spec fn view(&self) -> UpdateView {
        match self {
            Update::Upsert(a) => UpdateView::Upsert(a@),
            Update::SetState(p, s) => UpdateView::SetState(p@, *s),
            Update::SetTitle(p, t) => UpdateView::SetTitle(p@, opt_text(*t)),
            Update::SetActivity(p, t) => UpdateView::SetActivity(p@, t@),
            Update::SetModel(p, t) => UpdateView::SetModel(p@, t@),
            Update::Gone(p) => UpdateView::Gone(p@),
        }
    }
}

/// The update's socket path.
pub open spec fn update_path(u: UpdateView) -> Seq<char> {
    match u {
        UpdateView::Upsert(a) => a.socket_path,
        UpdateView::SetState(p, _) => p,
        UpdateView::SetTitle(p, _) => p,
        UpdateView::SetActivity(p, _) => p,
        UpdateView::SetModel(p, _) => p,
        UpdateView::Gone(p) => p,
    }
}

// ---------------------------------------------------------------------------
// The board
// ---------------------------------------------------------------------------
/// The board that a shell renders.
#[derive(Debug)]
pub struct Board {
    live: Vec<Agent>,
    dormant: Vec<Agent>,
    sessions: Vec<(String, Option<String>)>,
    filter: String,
}

/// What a board holds: the live agents by socket path, the dormant ones newest
/// first, each session of the registry with its directory, and the filter.
#[verifier::ext_equal]
pub struct BoardView {
    pub live: Seq<AgentView>,
    pub dormant: Seq<AgentView>,
    pub sessions: Seq<(Seq<char>, Option<Seq<char>>)>,
    pub filter: Seq<char>,
}

pub open spec fn agents(v: Seq<Agent>) -> Seq<AgentView> {
    Seq::new(v.len(), |i: int| v[i]@)
}

/// The view of borrowed agents.
pub open spec fn agent_refs(v: Seq<&Agent>) -> Seq<AgentView> {
    Seq::new(v.len(), |i: int| v[i]@)
}

impl View for Board {
    type V = BoardView;

    closed spec fn view(&self) -> BoardView {
        BoardView {
            live: agents(self.live@),
            dormant: agents(self.dormant@),
            sessions: Seq::new(
                self.sessions@.len(),
                |i: int| (self.sessions@[i].0@, opt_text(self.sessions@[i].1)),
            ),
            filter: self.filter@,
        }
    }
}

/// `a` comes before `b` by socket path.
pub open spec fn by_path() -> spec_fn(AgentView, AgentView) -> bool {
    |a: AgentView, b: AgentView| path_before(a.socket_path, b.socket_path)
}

/// The live agents without the one at a path.
pub open spec fn without_path(live: Seq<AgentView>, path: Seq<char>) -> Seq<AgentView> {
    live.filter(|a: AgentView| !same_path(a.socket_path, path))
}

/// The live agent at a path.
pub open spec fn at_path(live: Seq<AgentView>, path: Seq<char>) -> Option<AgentView>
    decreases live.len(),
{
    if live.len() == 0 {
        None
    } else if same_path(live[0].socket_path, path) {
        Some(live[0])
    } else {
        at_path(live.drop_first(), path)
    }
}

/// A refreshed agent: its clocks go on from those of the agent that stood at
/// its path, that of its state only while the state is the same.
pub open spec fn with_clocks(a: AgentView, prior: Option<AgentView>) -> AgentView {
    match prior {
        Some(p) => AgentView {
            last_activity: p.last_activity,
            state_since: if p.state == a.state {
                p.state_since
            } else {
                a.state_since
            },
            ..a
        },
        None => a,
    }
}

/// What an update does to the agent that it is about.
pub open spec fn changed(a: AgentView, u: UpdateView, now: u128) -> AgentView {
    match u {
        UpdateView::SetState(_, s) => AgentView {
            state: s,
            state_since: if a.state == s {
                a.state_since
            } else {
                now
            },
            ..a
        },
        UpdateView::SetTitle(_, t) => AgentView { title: t, ..a },
        UpdateView::SetActivity(_, t) => AgentView { activity: Some(t), last_activity: now, ..a },
        UpdateView::SetModel(_, t) => AgentView { model: Some(t), ..a },
        _ => a,
    }
}

/// The live agents after an update.
pub open spec fn live_after(live: Seq<AgentView>, u: UpdateView, now: u128) -> Seq<AgentView> {
    match u {
        UpdateView::Upsert(a) => placed(
            without_path(live, a.socket_path),
            with_clocks(a, at_path(live, a.socket_path)),
            by_path(),
        ),
        UpdateView::Gone(p) => without_path(live, p),
        _ => live.map_values(
            |a: AgentView|
                if same_path(a.socket_path, update_path(u)) {
                    changed(a, u, now)
                } else {
                    a
                },
        ),
    }
}

/// The first record of a session.
pub open spec fn record_for(entries: Seq<RecordView>, id: Seq<char>) -> Option<RecordView>
    decreases entries.len(),
{
    if entries.len() == 0 {
        None
    } else if entries[0].session_id == id {
        Some(entries[0])
    } else {
        record_for(entries.drop_first(), id)
    }
}

/// Some live agent runs the session.
pub open spec fn session_live(live: Seq<AgentView>, id: Seq<char>) -> bool {
    exists|i: int| 0 <= i < live.len() && (#[trigger] live[i]).session_id == Some(id)
}

/// A path is among others, compared by components.
pub open spec fn path_among(dead: Seq<Seq<char>>, path: Seq<char>) -> bool {
    exists|i: int| 0 <= i < dead.len() && same_path(#[trigger] dead[i], path)
}

/// A record is a dormant session: resumable, without a socket that may still
/// answer, and not live.
pub open spec fn is_dormant(e: RecordView, live: Seq<AgentView>, dead: Seq<Seq<char>>) -> bool {
    &&& e.resume_command is Some
    &&& e.socket is Some ==> path_among(dead, e.socket->0)
    &&& !session_live(live, e.session_id)
}

/// `a` comes before `b`; an absent text comes before any other.
pub open spec fn opt_before(a: Option<Seq<char>>, b: Option<Seq<char>>) -> bool {
    match (a, b) {
        (None, Some(_)) => true,
        (Some(x), Some(y)) => before(x, y),
        _ => false,
    }
}

/// The order of dormant sessions: last seen latest first, then by id.
pub open spec fn newer() -> spec_fn(RecordView, RecordView) -> bool {
    |a: RecordView, b: RecordView|
        opt_before(b.last_seen, a.last_seen) || (a.last_seen == b.last_seen && before(
            a.session_id,
            b.session_id,
        ))
}

/// The card of a dormant session.
pub open spec fn dormant_agent(e: RecordView) -> AgentView {
    AgentView {
        socket_path: Seq::empty(),
        pid: 0,
        label: match e.label {
            Some(l) => l,
            None => "agent"@,
        },
        session_id: Some(e.session_id),
        title: e.title,
        cwd: e.cwd,
        state: State::Idle,
        origin: Origin::Dormant,
        spawn_command: e.spawn_command,
        resume_command: e.resume_command,
        activity: None,
        gui: e.gui,
        message_flag: e.message_flag,
        hidden: e.hidden,
        model: e.model,
        state_since: 0,
        last_activity: 0,
    }
}

/// A live agent with what only its record can tell.
pub open spec fn stamped(a: AgentView, entries: Seq<RecordView>) -> AgentView {
    match a.session_id {
        Some(id) => match record_for(entries, id) {
            Some(e) => AgentView {
                spawn_command: e.spawn_command,
                resume_command: e.resume_command,
                gui: e.gui,
                message_flag: e.message_flag,
                hidden: e.hidden,
                ..a
            },
            None => a,
        },
        None => a,
    }
}

/// The board after a registry snapshot.
pub open spec fn synced(b: BoardView, entries: Seq<RecordView>, dead: Seq<Seq<char>>) -> BoardView {
    BoardView {
        live: b.live.map_values(|a: AgentView| stamped(a, entries)),
        dormant: sorted_by(
            entries.filter(|e: RecordView| is_dormant(e, b.live, dead)),
            newer(),
        ).map_values(|e: RecordView| dormant_agent(e)),
        sessions: entries.map_values(|e: RecordView| (e.session_id, e.cwd)),
        filter: b.filter,
    }
}

impl BoardView {
    /// The live agents stand in strict order of their paths, so no two at one.
    pub open spec fn wf(self) -> bool {
        forall|i: int, j: int|
            0 <= i < j < self.live.len() ==> path_before(
                (#[trigger] self.live[i]).socket_path,
                (#[trigger] self.live[j]).socket_path,
            )
    }

    pub open spec fn in_state(self, s: State) -> Seq<AgentView> {
        self.live.filter(|a: AgentView| a.state == s)
    }

    /// How many sessions run, or ran, in a directory.
    pub open spec fn occurrences(self, cwd: Seq<char>) -> nat {
        (self.live + self.dormant).filter(|a: AgentView| or_empty(a.cwd) == cwd).len()
    }

    /// The order within a live column: the busiest directory first, then
    /// directories by name.
    pub open spec fn busier(self) -> spec_fn(AgentView, AgentView) -> bool {
        |a: AgentView, b: AgentView|
            {
                let ca = or_empty(a.cwd);
                let cb = or_empty(b.cwd);
                self.occurrences(cb) < self.occurrences(ca) || (self.occurrences(ca)
                    == self.occurrences(cb) && before(ca, cb))
            }
    }

    /// A column before any filter and grouping.
    pub open spec fn base(self, c: Column) -> Seq<AgentView> {
        match c {
            Column::RequiresAction => self.in_state(State::RequiresAction),
            Column::Idle => self.in_state(State::Idle),
            Column::Running => self.in_state(State::Running),
            Column::Dormant => self.dormant,
        }
    }

    /// A column narrowed by the filter.
    pub open spec fn shown(self, c: Column) -> Seq<AgentView> {
        if trimmed(self.filter).len() == 0 {
            self.base(c)
        } else {
            self.base(c).filter(|a: AgentView| a.matches(self.filter))
        }
    }

    /// A column as it is rendered.
    pub open spec fn column(self, c: Column) -> Seq<AgentView> {
        if c == Column::Dormant {
            self.shown(c)
        } else {
            sorted_by(self.shown(c), self.busier())
        }
    }

    /// The columns one after the other.
    pub open spec fn selectable(self) -> Seq<AgentView> {
        self.column(Column::RequiresAction) + self.column(Column::Idle) + self.column(
            Column::Running,
        ) + self.column(Column::Dormant)
    }

    /// The live agents in a directory.
    pub open spec fn in_dir(self, dir: Seq<char>) -> Seq<AgentView> {
        self.live.filter(|a: AgentView| a.cwd == Some(dir))
    }

    /// The agent of a session: the live one, and without one the dormant.
    pub open spec fn session_agent(self, id: Seq<char>) -> Option<AgentView> {
        match agent_for(self.live, id) {
            Some(a) => Some(a),
            None => agent_for(self.dormant, id),
        }
    }

    /// The directory of a session that the registry lists, the last listing
    /// counting.
    pub open spec fn session_entry(self, id: Seq<char>) -> Option<Option<Seq<char>>> {
        last_listed(self.sessions, id)
    }
}

pub open spec fn last_listed(s: Seq<(Seq<char>, Option<Seq<char>>)>, id: Seq<char>) -> Option<
    Option<Seq<char>>,
>
    decreases s.len(),
{
    if s.len() == 0 {
        None
    } else if s.last().0 == id {
        Some(s.last().1)
    } else {
        last_listed(s.drop_last(), id)
    }
}

/// The first agent of a session.
pub open spec fn agent_for(v: Seq<AgentView>, id: Seq<char>) -> Option<AgentView>
    decreases v.len(),
{
    if v.len() == 0 {
        None
    } else if v[0].session_id == Some(id) {
        Some(v[0])
    } else {
        agent_for(v.drop_first(), id)
    }
}

// ---------------------------------------------------------------------------
// Loops over agents
// ---------------------------------------------------------------------------
proof fn lemma_filter_take<A>(s: Seq<A>, p: spec_fn(A) -> bool, i: int)
    requires
        0 <= i < s.len(),
    ensures
        s.take(i + 1).filter(p) == (if p(s[i]) {
            s.take(i).filter(p).push(s[i])
        } else {
            s.take(i).filter(p)
        }),
{
    reveal(Seq::filter);
    assert(s.take(i + 1).drop_last() =~= s.take(i));
}

proof fn lemma_filter_none<A>(s: Seq<A>, p: spec_fn(A) -> bool)
    ensures
        s.take(0).filter(p) == Seq::<A>::empty(),
{
    reveal(Seq::filter);
    assert(s.take(0) =~= Seq::empty());
}

/// Moves out the agents that are not at a path.
fn drop_path(v: Vec<Agent>, path: &str) -> (r: Vec<Agent>)
    ensures
        agents(r@) == without_path(agents(v@), path@),
{
    let ghost s = agents(v@);
    let ghost p = |a: AgentView| !same_path(a.socket_path, path@);
    let mut rest = v;
    let mut out: Vec<Agent> = Vec::new();
    let ghost mut i: int = 0;
    proof {
        lemma_filter_none(s, p);
        assert(agents(out@) =~= s.take(0).filter(p));
        assert(s.skip(0) =~= s);
    }
    while rest.len() > 0
        invariant
            0 <= i <= s.len(),
            p == (|a: AgentView| !same_path(a.socket_path, path@)),
            agents(rest@) == s.skip(i),
            rest@.len() == s.len() - i,
            agents(out@) == s.take(i).filter(p),
        decreases rest@.len(),
    {
        proof {
            lemma_filter_take(s, p, i);
            assert(agents(rest@)[0] == s[i]);
        }
        let ghost was = rest@;
        let a = rest.remove(0);
        assert(agents(rest@) =~= s.skip(i + 1)) by {
            assert forall|k: int| 0 <= k < rest@.len() implies agents(rest@)[k] == s.skip(i + 1)[k] by {
                assert(agents(was)[k + 1] == s.skip(i)[k + 1]);
            }
        }
        let ghost prior = out@;
        if !is_same_path(a.socket_path.as_str(), path) {
            out.push(a);
            assert(agents(out@) =~= agents(prior).push(s[i]));
        }
        proof {
            i = i + 1;
        }
    }
    assert(s.take(i) =~= s);
    out
}

/// Puts an agent into its place by path.
fn place_agent(v: &mut Vec<Agent>, a: Agent)
    ensures
        agents(final(v)@) == placed(agents(old(v)@), a@, by_path()),
{
    let ghost s = v@;
    let ghost x = a@;
    let mut i: usize = v.len();
    assert(agents(s).take(i as int) =~= agents(s));
    assert(placed(agents(s).take(i as int), x, by_path()) + agents(s).skip(i as int) =~= placed(
        agents(s),
        x,
        by_path(),
    ));
    while i > 0 && is_path_before(a.socket_path.as_str(), v[i - 1].socket_path.as_str())
        invariant
            i <= v@.len(),
            v@ == s,
            x == a@,
            placed(agents(s), x, by_path()) == placed(agents(s).take(i as int), x, by_path())
                + agents(s).skip(i as int),
        decreases i,
    {
        proof {
            let w = agents(s).take(i as int);
            assert(w.drop_last() =~= agents(s).take(i - 1));
            assert(w.last() == s[i - 1]@);
            assert(by_path()(x, w.last()));
            assert(placed(agents(s).take(i - 1), x, by_path()).push(s[i - 1]@) + agents(s).skip(
                i as int,
            ) =~= placed(agents(s).take(i - 1), x, by_path()) + agents(s).skip(i - 1));
        }
        i = i - 1;
    }
    proof {
        let w = agents(s).take(i as int);
        if i > 0 {
            assert(w.last() == s[i - 1]@);
            assert(!by_path()(x, w.last()));
        }
        assert(placed(w, x, by_path()) == w.push(x));
    }
    v.insert(i, a);
    assert(agents(v@) =~= agents(s).take(i as int).push(x) + agents(s).skip(i as int));
}

/// The live agent at a path.
fn find_path<'a>(v: &'a Vec<Agent>, path: &str) -> (r: Option<&'a Agent>)
    ensures
        r is Some == at_path(agents(v@), path@) is Some,
        r matches Some(a) ==> at_path(agents(v@), path@) == Some(a@),
{
    let ghost s = agents(v@);
    let mut i: usize = 0;
    assert(s.skip(0) =~= s);
    while i < v.len()
        invariant
            i <= v@.len(),
            s == agents(v@),
            at_path(s, path@) == at_path(s.skip(i as int), path@),
        decreases v@.len() - i,
    {
        assert(s.skip(i as int)[0] == v@[i as int]@);
        if is_same_path(v[i].socket_path.as_str(), path) {
            return Some(&v[i]);
        }
        assert(s.skip(i as int).drop_first() =~= s.skip(i + 1));
        i = i + 1;
    }
    None
}

/// The first agent of a session.
fn find_session<'a>(v: &'a Vec<Agent>, id: &str) -> (r: Option<&'a Agent>)
    ensures
        r is Some == agent_for(agents(v@), id@) is Some,
        r matches Some(a) ==> agent_for(agents(v@), id@) == Some(a@),
{
    let ghost s = agents(v@);
    let mut i: usize = 0;
    assert(s.skip(0) =~= s);
    while i < v.len()
        invariant
            i <= v@.len(),
            s == agents(v@),
            agent_for(s, id@) == agent_for(s.skip(i as int), id@),
        decreases v@.len() - i,
    {
        assert(s.skip(i as int)[0] == v@[i as int]@);
        let found = match &v[i].session_id {
            Some(x) => same(x.as_str(), id),
            None => false,
        };
        if found {
            return Some(&v[i]);
        }
        assert(s.skip(i as int).drop_first() =~= s.skip(i + 1));
        i = i + 1;
    }
    None
}

/// The first record of a session.
pub fn find_record<'a>(entries: &'a Vec<RegistryEntry>, id: &str) -> (r: Option<&'a RegistryEntry>)
    ensures
        r is Some == record_for(records(entries@), id@) is Some,
        r matches Some(e) ==> record_for(records(entries@), id@) == Some(e@),
{
    let ghost s = records(entries@);
    let mut i: usize = 0;
    assert(s.skip(0) =~= s);
    while i < entries.len()
        invariant
            i <= entries@.len(),
            s == records(entries@),
            record_for(s, id@) == record_for(s.skip(i as int), id@),
        decreases entries@.len() - i,
    {
        assert(s.skip(i as int)[0] == entries@[i as int]@);
        if same(entries[i].session_id.as_str(), id) {
            return Some(&entries[i]);
        }
        assert(s.skip(i as int).drop_first() =~= s.skip(i + 1));
        i = i + 1;
    }
    None
}

/// Whether a path is among others.
pub fn has_path(paths: &Vec<String>, path: &str) -> (r: bool)
    ensures
        r == path_among(texts(paths@), path@),
{
    let mut i: usize = 0;
    while i < paths.len()
        invariant
            i <= paths@.len(),
            forall|j: int| 0 <= j < i ==> !same_path(#[trigger] texts(paths@)[j], path@),
        decreases paths@.len() - i,
    {
        assert(texts(paths@)[i as int] == paths@[i as int]@);
        if is_same_path(paths[i].as_str(), path) {
            return true;
        }
        i = i + 1;
    }
    false
}

fn runs_session(v: &Vec<Agent>, id: &str) -> (r: bool)
    ensures
        r == session_live(agents(v@), id@),
{
    let mut i: usize = 0;
    while i < v.len()
        invariant
            i <= v@.len(),
            forall|j: int| 0 <= j < i ==> (#[trigger] agents(v@)[j]).session_id != Some(id@),
        decreases v@.len() - i,
    {
        assert(agents(v@)[i as int] == v@[i as int]@);
        let found = match &v[i].session_id {
            Some(x) => same(x.as_str(), id),
            None => false,
        };
        if found {
            return true;
        }
        i = i + 1;
    }
    false
}

/// Orders records newest first.
struct Newer;

fn opt_is_before(a: &Option<String>, b: &Option<String>) -> (r: bool)
    ensures
        r == opt_before(opt_text(*a), opt_text(*b)),
{
    match (a, b) {
        (None, Some(_)) => true,
        (Some(x), Some(y)) => is_before(x.as_str(), y.as_str()),
        _ => false,
    }
}

impl<'a> Less<&'a RegistryEntry> for Newer {
    open spec fn lt(&self, a: RecordView, b: RecordView) -> bool {
        newer()(a, b)
    }

    fn less(&self, a: &&'a RegistryEntry, b: &&'a RegistryEntry) -> (r: bool) {
        opt_is_before(&b.last_seen, &a.last_seen) || (same_opt(&a.last_seen, &b.last_seen)
            && is_before(a.session_id.as_str(), b.session_id.as_str()))
    }
}

fn dormant_card(e: &RegistryEntry) -> (r: Agent)
    ensures
        r@ == dormant_agent(e@),
{
    let label = match &e.label {
        Some(l) => l.clone(),
        None => "agent".to_owned(),
    };
    Agent {
        socket_path: String::new(),
        pid: 0,
        label,
        session_id: Some(e.session_id.clone()),
        title: copy_opt_string(&e.title),
        cwd: copy_opt_string(&e.cwd),
        state: State::Idle,
        origin: Origin::Dormant,
        spawn_command: copy_opt_strings(&e.spawn_command),
        resume_command: copy_opt_strings(&e.resume_command),
        activity: None,
        gui: e.gui,
        message_flag: copy_opt_string(&e.message_flag),
        hidden: e.hidden,
        model: copy_opt_string(&e.model),
        state_since: 0,
        last_activity: 0,
    }
}

/// Orders agents by how busy their directory is.
struct Busier<'b> {
    board: &'b Board,
}

impl<'a, 'b> Less<&'a Agent> for Busier<'b> {
    closed spec fn lt(&self, a: AgentView, b: AgentView) -> bool {
        self.board@.busier()(a, b)
    }

    fn less(&self, a: &&'a Agent, b: &&'a Agent) -> (r: bool) {
        let ca = str_or_empty(&a.cwd);
        let cb = str_or_empty(&b.cwd);
        let na = self.board.cwd_occurrences(ca);
        let nb = self.board.cwd_occurrences(cb);
        nb < na || (na == nb && is_before(ca, cb))
    }
}

fn count_cwd(v: &Vec<Agent>, cwd: &str) -> (r: usize)
    ensures
        r == agents(v@).filter(|a: AgentView| or_empty(a.cwd) == cwd@).len(),
        r <= v@.len(),
{
    let ghost s = agents(v@);
    let ghost p = |a: AgentView| or_empty(a.cwd) == cwd@;
    let mut n: usize = 0;
    let mut i: usize = 0;
    proof {
        lemma_filter_none(s, p);
    }
    while i < v.len()
        invariant
            i <= v@.len(),
            s == agents(v@),
            p == (|a: AgentView| or_empty(a.cwd) == cwd@),
            n == s.take(i as int).filter(p).len(),
            n <= i,
        decreases v@.len() - i,
    {
        proof {
            lemma_filter_take(s, p, i as int);
        }
        assert(s[i as int] == v@[i as int]@);
        if same(str_or_empty(&v[i].cwd), cwd) {
            n = n + 1;
        }
        i = i + 1;
    }
    assert(s.take(i as int) =~= s);
    n
}

impl Default for Board {
    fn default() -> (r: Self)
        ensures
            r@.live.len() == 0,
            r@.dormant.len() == 0,
            r@.sessions.len() == 0,
            r@.filter.len() == 0,
    {
        Board {
            live: Vec::new(),
            dormant: Vec::new(),
            sessions: Vec::new(),
            filter: String::new(),
        }
    }
}

impl Board {
    /// Folds a watcher's update into the live agents.
    pub fn apply(&mut self, update: Update, now: u128)
        ensures
            final(self)@ == (BoardView {
                live: live_after(old(self)@.live, update@, now),
                ..old(self)@
            }),
    {
        let ghost u = update@;
        match update {
            Update::Upsert(agent) => {
                let mut a = agent;
                match find_path(&self.live, a.socket_path.as_str()) {
                    Some(p) => {
                        a.last_activity = p.last_activity;
                        if p.state == a.state {
                            a.state_since = p.state_since;
                        }
                    },
                    None => {},
                }
                let mut v: Vec<Agent> = Vec::new();
                std::mem::swap(&mut v, &mut self.live);
                let mut rest = drop_path(v, a.socket_path.as_str());
                place_agent(&mut rest, a);
                self.live = rest;
                assert(self@ =~= (BoardView {
                    live: live_after(old(self)@.live, u, now),
                    ..old(self)@
                }));
            },
            Update::Gone(path) => {
                let mut v: Vec<Agent> = Vec::new();
                std::mem::swap(&mut v, &mut self.live);
                self.live = drop_path(v, path.as_str());
                assert(self@ =~= (BoardView {
                    live: live_after(old(self)@.live, u, now),
                    ..old(self)@
                }));
            },
            Update::SetState(path, state) => {
                self.edit(path.as_str(), Edit::State(state), now);
                assert(self@.live =~= live_after(old(self)@.live, u, now));
            },
            Update::SetTitle(path, title) => {
                self.edit(path.as_str(), Edit::Title(title), now);
                assert(self@.live =~= live_after(old(self)@.live, u, now));
            },
            Update::SetActivity(path, activity) => {
                self.edit(path.as_str(), Edit::Activity(activity), now);
                assert(self@.live =~= live_after(old(self)@.live, u, now));
            },
            Update::SetModel(path, model) => {
                self.edit(path.as_str(), Edit::Model(model), now);
                assert(self@.live =~= live_after(old(self)@.live, u, now));
            },
        }
    }

    /// Changes the live agent at a path.
    fn edit(&mut self, path: &str, e: Edit, now: u128)
        ensures
            final(self)@ == (BoardView {
                live: old(self)@.live.map_values(
                    |a: AgentView|
                        if same_path(a.socket_path, path@) {
                            changed(a, e.update(path@), now)
                        } else {
                            a
                        },
                ),
                ..old(self)@
            }),
    {
        let ghost s = old(self)@.live;
        let mut i: usize = 0;
        let n: usize = self.live.len();
        while i < n
            invariant
                i <= n,
                n == self.live@.len() == s.len(),
                s == old(self)@.live,
                self.dormant == old(self).dormant,
                self.sessions == old(self).sessions,
                self.filter == old(self).filter,
                forall|j: int|
                    0 <= j < i ==> (#[trigger] self.live@[j])@ == (if same_path(
                        s[j].socket_path,
                        path@,
                    ) {
                        changed(s[j], e.update(path@), now)
                    } else {
                        s[j]
                    }),
                forall|j: int| i <= j < n ==> (#[trigger] self.live@[j])@ == s[j],
            decreases n - i,
        {
            if is_same_path(self.live[i].socket_path.as_str(), path) {
                let mut a = self.live[i].clone();
                match &e {
                    Edit::State(st) => {
                        if a.state != *st {
                            a.state_since = now;
                        }
                        a.state = *st;
                    },
                    Edit::Title(t) => {
                        a.title = copy_opt_string(t);
                    },
                    Edit::Activity(t) => {
                        a.activity = Some(t.clone());
                        a.last_activity = now;
                    },
                    Edit::Model(t) => {
                        a.model = Some(t.clone());
                    },
                }
                self.live.set(i, a);
            }
            i = i + 1;
        }
        assert(self@ =~= (BoardView {
            live: s.map_values(
                |a: AgentView|
                    if same_path(a.socket_path, path@) {
                        changed(a, e.update(path@), now)
                    } else {
                        a
                    },
            ),
            ..old(self)@
        }));
    }

    /// Rebuilds the dormant view from a registry snapshot, and stamps each live
    /// agent with what its record tells.
    pub fn sync_registry(&mut self, entries: &Vec<RegistryEntry>, dead_sockets: &Vec<String>)
        ensures
            final(self)@ == synced(old(self)@, records(entries@), texts(dead_sockets@)),
    {
        let recs = self.dormant_records(entries, dead_sockets);
        let sorted = sort(&recs, &Newer);
        let mut cards: Vec<Agent> = Vec::new();
        let mut sessions: Vec<(String, Option<String>)> = Vec::new();
        let ghost rv = records(entries@);
        let ghost want = sorted_by(
            rv.filter(|e: RecordView| is_dormant(e, self@.live, texts(dead_sockets@))),
            newer(),
        );
        proof {
            assert(views(recs@) =~= rv.filter(
                |e: RecordView| is_dormant(e, self@.live, texts(dead_sockets@)),
            ));
            assert((|a: RecordView, b: RecordView| <Newer as Less<&RegistryEntry>>::lt(
                &Newer,
                a,
                b,
            )) =~= newer());
            assert(views(sorted@) == want);
        }
        let mut i: usize = 0;
        while i < sorted.len()
            invariant
                i <= sorted@.len(),
                views(sorted@) == want,
                cards@.len() == i,
                forall|j: int| 0 <= j < i ==> (#[trigger] cards@[j])@ == dormant_agent(want[j]),
            decreases sorted@.len() - i,
        {
            assert(views(sorted@)[i as int] == sorted@[i as int]@);
            cards.push(dormant_card(sorted[i]));
            i = i + 1;
        }
        let mut k: usize = 0;
        while k < entries.len()
            invariant
                k <= entries@.len(),
                sessions@.len() == k,
                forall|j: int|
                    0 <= j < k ==> (#[trigger] sessions@[j]).0@ == entries@[j]@.session_id
                        && opt_text(sessions@[j].1) == entries@[j]@.cwd,
            decreases entries@.len() - k,
        {
            sessions.push((entries[k].session_id.clone(), copy_opt_string(&entries[k].cwd)));
            k = k + 1;
        }
        self.stamp(entries);
        self.dormant = cards;
        self.sessions = sessions;
        assert(self@ =~= synced(old(self)@, rv, texts(dead_sockets@)));
    }

    /// The records that are dormant sessions.
    fn dormant_records<'a>(
        &self,
        entries: &'a Vec<RegistryEntry>,
        dead: &Vec<String>,
    ) -> (r: Vec<&'a RegistryEntry>)
        ensures
            views(r@) == records(entries@).filter(
                |e: RecordView| is_dormant(e, self@.live, texts(dead@)),
            ),
    {
        let ghost s = records(entries@);
        let ghost p = |e: RecordView| is_dormant(e, self@.live, texts(dead@));
        let mut out: Vec<&'a RegistryEntry> = Vec::new();
        let mut i: usize = 0;
        proof {
            lemma_filter_none(s, p);
            assert(views(out@) =~= s.take(0).filter(p));
        }
        while i < entries.len()
            invariant
                i <= entries@.len(),
                s == records(entries@),
                p == (|e: RecordView| is_dormant(e, self@.live, texts(dead@))),
                views(out@) == s.take(i as int).filter(p),
            decreases entries@.len() - i,
        {
            proof {
                lemma_filter_take(s, p, i as int);
            }
            let e = &entries[i];
            assert(s[i as int] == e@);
            let socket_dead = match &e.socket {
                Some(path) => has_path(dead, path.as_str()),
                None => true,
            };
            let ghost prior = out@;
            if e.resume_command.is_some() && socket_dead && !runs_session(
                &self.live,
                e.session_id.as_str(),
            ) {
                out.push(e);
                assert(views(out@) =~= views(prior).push(e@));
            }
            i = i + 1;
        }
        assert(s.take(i as int) =~= s);
        out
    }

    /// Stamps each live agent with what its record tells.
    fn stamp(&mut self, entries: &Vec<RegistryEntry>)
        ensures
            final(self)@ == (BoardView {
                live: old(self)@.live.map_values(
                    |a: AgentView| stamped(a, records(entries@)),
                ),
                ..old(self)@
            }),
    {
        let ghost s = old(self)@.live;
        let mut i: usize = 0;
        let n: usize = self.live.len();
        while i < n
            invariant
                i <= n,
                n == self.live@.len() == s.len(),
                s == old(self)@.live,
                self.dormant == old(self).dormant,
                self.sessions == old(self).sessions,
                self.filter == old(self).filter,
                forall|j: int|
                    0 <= j < i ==> (#[trigger] self.live@[j])@ == stamped(s[j], records(entries@)),
                forall|j: int| i <= j < n ==> (#[trigger] self.live@[j])@ == s[j],
            decreases n - i,
        {
            let found: Option<&RegistryEntry> = match &self.live[i].session_id {
                Some(id) => find_record(entries, id.as_str()),
                None => None,
            };
            match found {
                Some(e) => {
                    let mut a = self.live[i].clone();
                    a.spawn_command = copy_opt_strings(&e.spawn_command);
                    a.resume_command = copy_opt_strings(&e.resume_command);
                    a.gui = e.gui;
                    a.message_flag = copy_opt_string(&e.message_flag);
                    a.hidden = e.hidden;
                    self.live.set(i, a);
                },
                None => {},
            }
            i = i + 1;
        }
        assert(self@ =~= (BoardView {
            live: s.map_values(|a: AgentView| stamped(a, records(entries@))),
            ..old(self)@
        }));
    }

    /// The live agents in a state, by socket path.
    pub fn in_state(&self, state: State) -> (r: Vec<&Agent>)
        ensures
            agent_refs(r@) == self@.in_state(state),
    {
        let ghost s = self@.live;
        let ghost p = |a: AgentView| a.state == state;
        let mut out: Vec<&Agent> = Vec::new();
        let mut i: usize = 0;
        proof {
            lemma_filter_none(s, p);
            assert(agent_refs(out@) =~= s.take(0).filter(p));
        }
        while i < self.live.len()
            invariant
                i <= self.live@.len(),
                s == agents(self.live@),
                p == (|a: AgentView| a.state == state),
                agent_refs(out@) == s.take(i as int).filter(p),
            decreases self.live@.len() - i,
        {
            proof {
                lemma_filter_take(s, p, i as int);
            }
            assert(s[i as int] == self.live@[i as int]@);
            let ghost prior = out@;
            if self.live[i].state == state {
                out.push(&self.live[i]);
                assert(agent_refs(out@) =~= agent_refs(prior).push(s[i as int]));
            }
            i = i + 1;
        }
        assert(s.take(i as int) =~= s);
        out
    }

    /// The live agents in a directory, by socket path.
    pub fn live_in_dir(&self, dir: &str) -> (r: Vec<&Agent>)
        ensures
            agent_refs(r@) == self@.in_dir(dir@),
    {
        let ghost s = self@.live;
        let ghost p = |a: AgentView| a.cwd == Some(dir@);
        let mut out: Vec<&Agent> = Vec::new();
        let mut i: usize = 0;
        proof {
            lemma_filter_none(s, p);
            assert(agent_refs(out@) =~= s.take(0).filter(p));
        }
        while i < self.live.len()
            invariant
                i <= self.live@.len(),
                s == agents(self.live@),
                p == (|a: AgentView| a.cwd == Some(dir@)),
                agent_refs(out@) == s.take(i as int).filter(p),
            decreases self.live@.len() - i,
        {
            proof {
                lemma_filter_take(s, p, i as int);
            }
            assert(s[i as int] == self.live@[i as int]@);
            let here = match &self.live[i].cwd {
                Some(c) => same(c.as_str(), dir),
                None => false,
            };
            let ghost prior = out@;
            if here {
                out.push(&self.live[i]);
                assert(agent_refs(out@) =~= agent_refs(prior).push(s[i as int]));
            }
            i = i + 1;
        }
        assert(s.take(i as int) =~= s);
        out
    }

    /// The live agent of a session.
    pub fn live_by_session(&self, session_id: &str) -> (r: Option<&Agent>)
        ensures
            r is Some == agent_for(self@.live, session_id@) is Some,
            r matches Some(a) ==> agent_for(self@.live, session_id@) == Some(a@),
    {
        find_session(&self.live, session_id)
    }

    /// The dormant agent of a session.
    pub fn dormant_by_session(&self, session_id: &str) -> (r: Option<&Agent>)
        ensures
            r is Some == agent_for(self@.dormant, session_id@) is Some,
            r matches Some(a) ==> agent_for(self@.dormant, session_id@) == Some(a@),
    {
        find_session(&self.dormant, session_id)
    }

    /// The agent of a session, a live one first.
    pub fn by_session(&self, session_id: &str) -> (r: Option<&Agent>)
        ensures
            r is Some == self@.session_agent(session_id@) is Some,
            r matches Some(a) ==> self@.session_agent(session_id@) == Some(a@),
    {
        match self.live_by_session(session_id) {
            Some(a) => Some(a),
            None => self.dormant_by_session(session_id),
        }
    }

    fn listed(&self, session_id: &str) -> (r: Option<&Option<String>>)
        ensures
            r is Some == self@.session_entry(session_id@) is Some,
            r matches Some(c) ==> self@.session_entry(session_id@) == Some(opt_text(*c)),
    {
        let ghost s = self@.sessions;
        let mut i: usize = self.sessions.len();
        assert(s.take(i as int) =~= s);
        while i > 0
            invariant
                i <= self.sessions@.len(),
                s == self@.sessions,
                s.len() == self.sessions@.len(),
                last_listed(s, session_id@) == last_listed(s.take(i as int), session_id@),
            decreases i,
        {
            assert(s.take(i as int).last() == s[i - 1]);
            assert(s[i - 1] == (self.sessions@[i - 1].0@, opt_text(self.sessions@[i - 1].1)));
            if same(self.sessions[i - 1].0.as_str(), session_id) {
                return Some(&self.sessions[i - 1].1);
            }
            assert(s.take(i as int).drop_last() =~= s.take(i - 1));
            i = i - 1;
        }
        None
    }

    /// The directory of a session that the registry lists.
    pub fn registry_session_cwd(&self, session_id: &str) -> (r: Option<String>)
        ensures
            opt_text(r) == (match self@.session_entry(session_id@) {
                Some(c) => c,
                None => None,
            }),
    {
        match self.listed(session_id) {
            Some(c) => copy_opt_string(c),
            None => None,
        }
    }

    /// Whether the registry lists a session.
    pub fn registry_has_session(&self, session_id: &str) -> (r: bool)
        ensures
            r == self@.session_entry(session_id@) is Some,
    {
        self.listed(session_id).is_some()
    }

    /// Every live agent, by socket path.
    pub fn live_agents(&self) -> (r: Vec<&Agent>)
        ensures
            agent_refs(r@) == self@.live,
    {
        refs(&self.live)
    }

    /// The dormant sessions, newest first.
    pub fn dormant(&self) -> (r: Vec<&Agent>)
        ensures
            agent_refs(r@) == self@.dormant,
    {
        refs(&self.dormant)
    }

    /// Sets the filter; an empty one shows everything.
    pub fn set_filter(&mut self, filter: String)
        ensures
            final(self)@ == (BoardView { filter: filter@, ..old(self)@ }),
    {
        self.filter = filter;
        assert(self@ =~= (BoardView { filter: filter@, ..old(self)@ }));
    }

    /// How many sessions run, or ran, in a directory.
    pub fn cwd_occurrences(&self, cwd: &str) -> (r: u128)
        ensures
            r == self@.occurrences(cwd@),
    {
        let a = count_cwd(&self.live, cwd);
        let b = count_cwd(&self.dormant, cwd);
        proof {
            Seq::filter_distributes_over_add(
                self@.live,
                self@.dormant,
                |a: AgentView| or_empty(a.cwd) == cwd@,
            );
        }
        a as u128 + b as u128
    }

    /// The agents of a column: narrowed by the filter; a live column grouped by
    /// directory, the busiest first.
    pub fn column(&self, column: Column) -> (r: Vec<&Agent>)
        ensures
            agent_refs(r@) == self@.column(column),
    {
        let base = match column {
            Column::RequiresAction => self.in_state(State::RequiresAction),
            Column::Idle => self.in_state(State::Idle),
            Column::Running => self.in_state(State::Running),
            Column::Dormant => self.dormant(),
        };
        let list = if trim(self.filter.as_str()).as_str().is_empty() {
            base
        } else {
            self.matching(&base)
        };
        if column == Column::Dormant {
            return list;
        }
        let r = sort(&list, &Busier { board: self });
        proof {
            assert(views(list@) =~= agent_refs(list@));
            assert(views(r@) =~= agent_refs(r@));
            assert((|a: AgentView, b: AgentView| <Busier as Less<&Agent>>::lt(
                &Busier { board: self },
                a,
                b,
            )) =~= self@.busier());
        }
        r
    }

    fn matching<'a>(&self, base: &Vec<&'a Agent>) -> (r: Vec<&'a Agent>)
        ensures
            agent_refs(r@) == agent_refs(base@).filter(
                |a: AgentView| a.matches(self@.filter),
            ),
    {
        let ghost s = agent_refs(base@);
        let ghost p = |a: AgentView| a.matches(self@.filter);
        let mut out: Vec<&'a Agent> = Vec::new();
        let mut i: usize = 0;
        proof {
            lemma_filter_none(s, p);
            assert(agent_refs(out@) =~= s.take(0).filter(p));
        }
        while i < base.len()
            invariant
                i <= base@.len(),
                s == agent_refs(base@),
                p == (|a: AgentView| a.matches(self@.filter)),
                agent_refs(out@) == s.take(i as int).filter(p),
            decreases base@.len() - i,
        {
            proof {
                lemma_filter_take(s, p, i as int);
            }
            assert(s[i as int] == base@[i as int]@);
            let ghost prior = out@;
            if base[i].matches_query(self.filter.as_str()) {
                out.push(base[i]);
                assert(agent_refs(out@) =~= agent_refs(prior).push(s[i as int]));
            }
            i = i + 1;
        }
        assert(s.take(i as int) =~= s);
        out
    }

    /// How many agents each column shows, in display order.
    pub fn column_counts(&self) -> (r: [usize; 4])
        ensures
            forall|i: int| 0 <= i < 4 ==> (#[trigger] r[i]) == self@.column(Column::ALL[i]).len(),
    {
        let a = self.column(Column::RequiresAction).len();
        let b = self.column(Column::Idle).len();
        let c = self.column(Column::Running).len();
        let d = self.column(Column::Dormant).len();
        [a, b, c, d]
    }

    /// The agents in selection order: the columns one after the other.
    pub fn selectable(&self) -> (r: Vec<&Agent>)
        ensures
            agent_refs(r@) == self@.selectable(),
    {
        let mut out = self.column(Column::RequiresAction);
        let mut b = self.column(Column::Idle);
        let mut c = self.column(Column::Running);
        let mut d = self.column(Column::Dormant);
        let ghost g = (out@, b@, c@, d@);
        out.append(&mut b);
        out.append(&mut c);
        out.append(&mut d);
        assert(agent_refs(out@) =~= agent_refs(g.0) + agent_refs(g.1) + agent_refs(g.2)
            + agent_refs(g.3));
        out
    }
}

fn refs(v: &Vec<Agent>) -> (r: Vec<&Agent>)
    ensures
        agent_refs(r@) == agents(v@),
{
    let mut out: Vec<&Agent> = Vec::new();
    let mut i: usize = 0;
    while i < v.len()
        invariant
            i <= v@.len(),
            out@.len() == i,
            forall|j: int| 0 <= j < i ==> (#[trigger] out@[j])@ == v@[j]@,
        decreases v@.len() - i,
    {
        out.push(&v[i]);
        i = i + 1;
    }
    assert(agent_refs(out@) =~= agents(v@));
    out
}

/// One field of a live agent with its new value.
enum Edit {
    State(State),
    Title(Option<String>),
    Activity(String),
    Model(String),
}

impl Edit {
    spec fn update(self, path: Seq<char>) -> UpdateView {
        match self {
            Edit::State(s) => UpdateView::SetState(path, s),
            Edit::Title(t) => UpdateView::SetTitle(path, opt_text(t)),
            Edit::Activity(t) => UpdateView::SetActivity(path, t@),
            Edit::Model(t) => UpdateView::SetModel(path, t@),
        }
    }
}

// ---------------------------------------------------------------------------
// What the board keeps
// ---------------------------------------------------------------------------
proof fn lemma_filter_ordered(live: Seq<AgentView>, p: spec_fn(AgentView) -> bool)
    requires
        ordered_by_path(live),
    ensures
        ordered_by_path(live.filter(p)),
        forall|i: int| 0 <= i < live.filter(p).len() ==> live.contains(#[trigger] live.filter(p)[i])
            && p(live.filter(p)[i]),
    decreases live.len(),
{
    reveal(Seq::filter);
    let r = live.filter(p);
    if live.len() > 0 {
        let t = live.drop_last();
        lemma_filter_ordered(t, p);
        let q = t.filter(p);
        assert forall|i: int, j: int| 0 <= i < j < r.len() implies path_before(
            (#[trigger] r[i]).socket_path,
            (#[trigger] r[j]).socket_path,
        ) by {
            assert(r[i] == q[i]);
            if j < q.len() {
                assert(r[j] == q[j]);
            } else {
                let k = choose|k: int| 0 <= k < t.len() && t[k] == q[i];
                assert(live[k] == q[i]);
                assert(r[j] == live[live.len() - 1]);
            }
        }
        assert forall|i: int| 0 <= i < r.len() implies live.contains(#[trigger] r[i]) && p(r[i]) by {
            if i < q.len() {
                assert(r[i] == q[i]);
                let k = choose|k: int| 0 <= k < t.len() && t[k] == q[i];
                assert(live[k] == r[i]);
            } else {
                assert(live[live.len() - 1] == r[i]);
            }
        }
    }
}

/// The agents stand in strict order of their paths.
pub open spec fn ordered_by_path(live: Seq<AgentView>) -> bool {
    forall|i: int, j: int|
        0 <= i < j < live.len() ==> path_before(
            (#[trigger] live[i]).socket_path,
            (#[trigger] live[j]).socket_path,
        )
}

proof fn lemma_place_ordered(live: Seq<AgentView>, a: AgentView)
    requires
        ordered_by_path(live),
        forall|i: int| 0 <= i < live.len() ==> !same_path(
            (#[trigger] live[i]).socket_path,
            a.socket_path,
        ),
    ensures
        ordered_by_path(placed(live, a, by_path())),
        forall|i: int| 0 <= i < placed(live, a, by_path()).len() ==> #[trigger] placed(
            live,
            a,
            by_path(),
        )[i] == a || live.contains(placed(live, a, by_path())[i]),
    decreases live.len(),
{
    let r = placed(live, a, by_path());
    if live.len() > 0 && by_path()(a, live.last()) {
        let t = live.drop_last();
        assert forall|i: int| 0 <= i < t.len() implies !same_path(
            (#[trigger] t[i]).socket_path,
            a.socket_path,
        ) by {
            assert(t[i] == live[i]);
        }
        lemma_place_ordered(t, a);
        let q = placed(t, a, by_path());
        assert forall|i: int, j: int| 0 <= i < j < r.len() implies path_before(
            (#[trigger] r[i]).socket_path,
            (#[trigger] r[j]).socket_path,
        ) by {
            assert(r[i] == q[i]);
            if j < q.len() {
                assert(r[j] == q[j]);
            } else if q[i] != a {
                let k = choose|k: int| 0 <= k < t.len() && t[k] == q[i];
                assert(live[k] == q[i]);
            }
        }
        assert forall|i: int| 0 <= i < r.len() implies #[trigger] r[i] == a || live.contains(r[i]) by {
            if i < q.len() {
                assert(r[i] == q[i]);
                if q[i] != a {
                    let k = choose|k: int| 0 <= k < t.len() && t[k] == q[i];
                    assert(live[k] == r[i]);
                }
            } else {
                assert(r[i] == live[live.len() - 1]);
            }
        }
    } else {
        assert forall|i: int, j: int| 0 <= i < j < r.len() implies path_before(
            (#[trigger] r[i]).socket_path,
            (#[trigger] r[j]).socket_path,
        ) by {
            if j == r.len() - 1 {
                assert(r[i] == live[i]);
                let l = live.last();
                assert(!same_path(live[live.len() - 1].socket_path, a.socket_path));
                lemma_path_order(l.socket_path, a.socket_path);
                assert(path_before(l.socket_path, a.socket_path));
                if i < live.len() - 1 {
                    assert(path_before(live[i].socket_path, live[live.len() - 1].socket_path));
                    lemma_path_transitive(live[i].socket_path, l.socket_path, a.socket_path);
                }
            } else {
                assert(r[i] == live[i] && r[j] == live[j]);
            }
        }
        assert forall|i: int| 0 <= i < r.len() implies #[trigger] r[i] == a || live.contains(r[i]) by {
            if i < live.len() {
                assert(live[i] == r[i]);
            }
        }
    }
}

/// Every update keeps the live agents in strict order of their paths, one agent
/// at a path.
pub proof fn law_update_keeps_order(b: BoardView, u: UpdateView, now: u128)
    requires
        b.wf(),
    ensures
        (BoardView { live: live_after(b.live, u, now), ..b }).wf(),
{
    assert(ordered_by_path(b.live));
    match u {
        UpdateView::Upsert(a) => {
            let p = |x: AgentView| !same_path(x.socket_path, a.socket_path);
            lemma_filter_ordered(b.live, p);
            let rest = without_path(b.live, a.socket_path);
            let fresh = with_clocks(a, at_path(b.live, a.socket_path));
            assert forall|i: int| 0 <= i < rest.len() implies !same_path(
                (#[trigger] rest[i]).socket_path,
                fresh.socket_path,
            ) by {
                assert(p(rest[i]));
            }
            lemma_place_ordered(rest, fresh);
            assert(ordered_by_path(live_after(b.live, u, now)));
        },
        UpdateView::Gone(path) => {
            lemma_filter_ordered(b.live, |x: AgentView| !same_path(x.socket_path, path));
            assert(ordered_by_path(live_after(b.live, u, now)));
        },
        _ => {
            let l = live_after(b.live, u, now);
            assert forall|i: int, j: int| 0 <= i < j < l.len() implies path_before(
                (#[trigger] l[i]).socket_path,
                (#[trigger] l[j]).socket_path,
            ) by {
                assert(path_before(b.live[i].socket_path, b.live[j].socket_path));
            }
        },
    }
}

/// A registry snapshot keeps which agents are live, and their order.
pub proof fn law_snapshot_keeps_order(b: BoardView, entries: Seq<RecordView>, dead: Seq<Seq<char>>)
    requires
        b.wf(),
    ensures
        synced(b, entries, dead).wf(),
        synced(b, entries, dead).live.len() == b.live.len(),
{
    let l = synced(b, entries, dead).live;
    assert forall|i: int, j: int| 0 <= i < j < l.len() implies path_before(
        (#[trigger] l[i]).socket_path,
        (#[trigger] l[j]).socket_path,
    ) by {
        assert(path_before(b.live[i].socket_path, b.live[j].socket_path));
    }
}

proof fn lemma_at_path_none(live: Seq<AgentView>, path: Seq<char>)
    requires
        forall|i: int| 0 <= i < live.len() ==> !same_path((#[trigger] live[i]).socket_path, path),
    ensures
        at_path(live, path) is None,
    decreases live.len(),
{
    if live.len() > 0 {
        assert(!same_path(live[0].socket_path, path));
        assert forall|i: int| 0 <= i < live.drop_first().len() implies !same_path(
            (#[trigger] live.drop_first()[i]).socket_path,
            path,
        ) by {
            assert(live.drop_first()[i] == live[i + 1]);
        }
        lemma_at_path_none(live.drop_first(), path);
    }
}

/// Once gone, an agent is no longer live.
pub proof fn law_gone_is_gone(live: Seq<AgentView>, path: Seq<char>, now: u128)
    ensures
        at_path(live_after(live, UpdateView::Gone(path), now), path) is None,
{
    let p = |x: AgentView| !same_path(x.socket_path, path);
    let r = live.filter(p);
    assert forall|i: int| 0 <= i < r.len() implies !same_path(
        (#[trigger] r[i]).socket_path,
        path,
    ) by {
        live.lemma_filter_pred(p, i);
    }
    lemma_at_path_none(r, path);
}

/// A change for a socket that is not on the board is dropped.
pub proof fn law_absent_change_is_dropped(live: Seq<AgentView>, u: UpdateView, now: u128)
    requires
        !(u is Upsert),
        !(u is Gone),
        forall|i: int|
            0 <= i < live.len() ==> !same_path((#[trigger] live[i]).socket_path, update_path(u)),
    ensures
        live_after(live, u, now) == live,
{
    assert(live_after(live, u, now) =~= live);
}

/// The order of dormant sessions is a weak order.
proof fn lemma_newer_weak_order()
    ensures
        weak_order(newer()),
{
    let lt = newer();
    assert forall|a: RecordView, b: RecordView| #[trigger] lt(a, b) implies !lt(b, a) by {
        lemma_before_irreflexive(or_empty(a.last_seen));
        if before(or_empty(b.last_seen), or_empty(a.last_seen)) {
            lemma_before_asymmetric(or_empty(b.last_seen), or_empty(a.last_seen));
        }
        if before(a.session_id, b.session_id) {
            lemma_before_asymmetric(a.session_id, b.session_id);
        }
        if a.last_seen is Some && b.last_seen is Some {
            assert(or_empty(a.last_seen) == a.last_seen->0);
            assert(or_empty(b.last_seen) == b.last_seen->0);
        }
    }
    assert forall|a: RecordView, b: RecordView, c: RecordView|
        !#[trigger] lt(b, a) && !#[trigger] lt(c, b) implies !lt(c, a) by {
        let (x, y, z) = (or_empty(a.last_seen), or_empty(b.last_seen), or_empty(c.last_seen));
        lemma_before_total(x, y);
        lemma_before_total(y, z);
        lemma_before_total(x, z);
        lemma_before_irreflexive(x);
        if before(x, y) {
            lemma_before_asymmetric(x, y);
        }
        if before(y, z) {
            lemma_before_asymmetric(y, z);
        }
        if before(x, z) && before(z, y) {
            lemma_before_transitive(x, z, y);
        }
        if before(y, x) && before(x, z) {
            lemma_before_transitive(y, x, z);
        }
        if before(z, y) && before(y, x) {
            lemma_before_transitive(z, y, x);
        }
        let (i, j, k) = (a.session_id, b.session_id, c.session_id);
        lemma_before_total(i, j);
        lemma_before_total(j, k);
        lemma_before_irreflexive(i);
        lemma_before_irreflexive(k);
        if before(i, j) && before(j, k) {
            lemma_before_transitive(i, j, k);
        }
        if before(k, i) {
            lemma_before_asymmetric(k, i);
        }
    }
}

/// Dormant cards are resumable sessions that are not live, newest first, and
/// every such session of the registry has one.
pub proof fn law_dormant_is_resumable_and_not_live(
    b: BoardView,
    entries: Seq<RecordView>,
    dead: Seq<Seq<char>>,
)
    ensures
        forall|i: int|
            #![trigger synced(b, entries, dead).dormant[i]]
            0 <= i < synced(b, entries, dead).dormant.len() ==> {
                let a = synced(b, entries, dead).dormant[i];
                &&& a.origin == Origin::Dormant
                &&& a.resume_command is Some
                &&& a.session_id is Some
                &&& !session_live(b.live, a.session_id->0)
            },
        synced(b, entries, dead).dormant.len() == entries.filter(
            |e: RecordView| is_dormant(e, b.live, dead),
        ).len(),
        in_order(
            sorted_by(entries.filter(|e: RecordView| is_dormant(e, b.live, dead)), newer()),
            newer(),
        ),
{
    broadcast use vstd::seq_lib::group_to_multiset_ensures;

    lemma_newer_weak_order();
    let p = |e: RecordView| is_dormant(e, b.live, dead);
    let f = entries.filter(p);
    let s = sorted_by(f, newer());
    law_sort_is_permutation(f, newer());
    assert forall|i: int| 0 <= i < s.len() implies is_dormant(#[trigger] s[i], b.live, dead) by {
        assert(s.to_multiset().count(s[i]) > 0) by {
            assert(s.contains(s[i]));
            vstd::seq_lib::to_multiset_contains(s, s[i]);
        }
        vstd::seq_lib::to_multiset_contains(f, s[i]);
        let k = choose|k: int| 0 <= k < f.len() && f[k] == s[i];
        entries.lemma_filter_pred(p, k);
    }
}

/// The order within a live column is a weak order.
proof fn lemma_busier_weak_order(b: BoardView)
    ensures
        weak_order(b.busier()),
{
    let lt = b.busier();
    assert forall|x: AgentView, y: AgentView| #[trigger] lt(x, y) implies !lt(y, x) by {
        if before(or_empty(x.cwd), or_empty(y.cwd)) {
            lemma_before_asymmetric(or_empty(x.cwd), or_empty(y.cwd));
        }
    }
    assert forall|x: AgentView, y: AgentView, z: AgentView|
        !#[trigger] lt(y, x) && !#[trigger] lt(z, y) implies !lt(z, x) by {
        let (i, j, k) = (or_empty(x.cwd), or_empty(y.cwd), or_empty(z.cwd));
        lemma_before_total(i, j);
        lemma_before_total(j, k);
        lemma_before_irreflexive(i);
        lemma_before_irreflexive(k);
        if before(i, j) && before(j, k) {
            lemma_before_transitive(i, j, k);
        }
        if before(k, i) {
            lemma_before_asymmetric(k, i);
        }
    }
}

/// A live column shows what its filter leaves of it, grouped by directory with
/// the busiest first, and agents of one directory in the order of their paths.
pub proof fn law_column_groups_directories(b: BoardView, c: Column, dir: AgentView)
    requires
        c != Column::Dormant,
    ensures
        b.column(c).to_multiset() == b.shown(c).to_multiset(),
        b.column(c).len() == b.shown(c).len(),
        in_order(b.column(c), b.busier()),
        b.column(c).filter(|a: AgentView| tied(a, dir, b.busier())) == b.shown(c).filter(
            |a: AgentView| tied(a, dir, b.busier()),
        ),
{
    lemma_busier_weak_order(b);
    law_sort_is_permutation(b.shown(c), b.busier());
    law_sort_is_stable(b.shown(c), dir, b.busier());
}

proof fn lemma_states_partition(live: Seq<AgentView>)
    ensures
        live.to_multiset() == live.filter(
            |a: AgentView| a.state == State::RequiresAction,
        ).to_multiset().add(
            live.filter(|a: AgentView| a.state == State::Idle).to_multiset(),
        ).add(live.filter(|a: AgentView| a.state == State::Running).to_multiset()),
    decreases live.len(),
{
    broadcast use vstd::seq_lib::group_to_multiset_ensures;

    let p = |a: AgentView| a.state == State::RequiresAction;
    let q = |a: AgentView| a.state == State::Idle;
    let r = |a: AgentView| a.state == State::Running;
    reveal(Seq::filter);
    if live.len() > 0 {
        let t = live.drop_last();
        lemma_states_partition(t);
        assert(live =~= t.push(live.last()));
        assert(live.to_multiset() =~= t.to_multiset().insert(live.last()));
        assert(live.to_multiset() =~= live.filter(p).to_multiset().add(
            live.filter(q).to_multiset(),
        ).add(live.filter(r).to_multiset()));
    } else {
        assert(live.to_multiset() =~= live.filter(p).to_multiset().add(
            live.filter(q).to_multiset(),
        ).add(live.filter(r).to_multiset()));
    }
}

/// Without a filter every agent stands in exactly one column: the selection
/// runs over the live and the dormant agents, each once.
pub proof fn law_every_agent_in_one_column(b: BoardView)
    requires
        trimmed(b.filter).len() == 0,
    ensures
        b.selectable().to_multiset() == b.live.to_multiset().add(b.dormant.to_multiset()),
{
    lemma_busier_weak_order(b);
    law_sort_is_permutation(b.shown(Column::RequiresAction), b.busier());
    law_sort_is_permutation(b.shown(Column::Idle), b.busier());
    law_sort_is_permutation(b.shown(Column::Running), b.busier());
    lemma_states_partition(b.live);
    let (w, x, y, z) = (
        b.column(Column::RequiresAction),
        b.column(Column::Idle),
        b.column(Column::Running),
        b.column(Column::Dormant),
    );
    vstd::seq_lib::lemma_multiset_commutative(w, x);
    vstd::seq_lib::lemma_multiset_commutative(w + x, y);
    vstd::seq_lib::lemma_multiset_commutative(w + x + y, z);
}

/// The selection holds as many agents as the columns together.
pub proof fn law_counts_add_up(b: BoardView)
    ensures
        b.selectable().len() == b.column(Column::RequiresAction).len() + b.column(
            Column::Idle,
        ).len() + b.column(Column::Running).len() + b.column(Column::Dormant).len(),
{
}

/// The filter narrows: each column shows, in the same order, those of its cards
/// that match. A blank filter shows all of them, and what the columns are made of
/// does not depend on the filter.
pub proof fn law_filter_narrows_the_columns(b: BoardView, filter: Seq<char>, c: Column, s: State)
    ensures
        ({
            let full = BoardView { filter: Seq::empty(), ..b };
            let narrow = BoardView { filter, ..b };
            &&& narrow.column(c) == full.column(c).filter(|a: AgentView| a.matches(filter))
            &&& trimmed(filter).len() == 0 ==> narrow.column(c) == full.column(c)
            &&& narrow.in_state(s) == full.in_state(s)
            &&& narrow.dormant == full.dormant
        }),
{
    let full = BoardView { filter: Seq::empty(), ..b };
    let narrow = BoardView { filter, ..b };
    let p = |a: AgentView| a.matches(filter);
    let lt = full.busier();
    assert(narrow.busier() =~= lt);
    assert(trimmed(Seq::<char>::empty()).len() == 0);
    assert(full.shown(c) == b.base(c));
    lemma_busier_weak_order(full);
    if trimmed(filter).len() == 0 {
        assert forall|a: AgentView| #[trigger] p(a) by {
            law_blank_query_matches_every_card(a, filter);
        }
        lemma_filter_all(full.column(c), p);
        assert(narrow.shown(c) == b.base(c));
    } else {
        assert(narrow.shown(c) == b.base(c).filter(p));
        law_sort_and_filter_commute(b.base(c), p, lt);
    }
}

proof fn lemma_filter_all(v: Seq<AgentView>, p: spec_fn(AgentView) -> bool)
    requires
        forall|a: AgentView| #[trigger] p(a),
    ensures
        v.filter(p) == v,
    decreases v.len(),
{
    reveal(Seq::filter);
    if v.len() > 0 {
        lemma_filter_all(v.drop_last(), p);
        assert(p(v.last()));
        assert(v.drop_last().push(v.last()) =~= v);
    } else {
        assert(v.filter(p) =~= v);
    }
}

proof fn lemma_no_agent_for(v: Seq<AgentView>, id: Seq<char>)
    requires
        forall|i: int| 0 <= i < v.len() ==> (#[trigger] v[i]).session_id != Some(id),
    ensures
        agent_for(v, id) is None,
    decreases v.len(),
{
    if v.len() > 0 {
        let t = v.drop_first();
        assert(v[0].session_id != Some(id));
        assert forall|i: int| 0 <= i < t.len() implies (#[trigger] t[i]).session_id != Some(id) by {
            assert(t[i] == v[i + 1]);
        }
        lemma_no_agent_for(t, id);
    }
}

proof fn lemma_sole_agent_for(v: Seq<AgentView>, id: Seq<char>, x: AgentView)
    requires
        v.contains(x),
        x.session_id == Some(id),
        forall|i: int| 0 <= i < v.len() && (#[trigger] v[i]).session_id == Some(id) ==> v[i] == x,
    ensures
        agent_for(v, id) == Some(x),
    decreases v.len(),
{
    let t = v.drop_first();
    let k = choose|k: int| 0 <= k < v.len() && v[k] == x;
    if v[0].session_id != Some(id) {
        assert(t[k - 1] == x);
        assert forall|i: int| 0 <= i < t.len() && (#[trigger] t[i]).session_id == Some(id) implies t[i]
            == x by {
            assert(t[i] == v[i + 1]);
        }
        lemma_sole_agent_for(t, id, x);
    }
}

/// A session is found where it runs, and where it sleeps once it runs no more: an
/// agent that comes to the board with a session that no other socket runs is found
/// under it, though a dormant card has it too; when the agent is gone, that card
/// is found again. A session that is neither live nor dormant is not found.
pub proof fn law_session_is_found_live_first(b: BoardView, a: AgentView, id: Seq<char>, now: u128)
    requires
        a.session_id == Some(id),
        forall|i: int|
            0 <= i < b.live.len() && (#[trigger] b.live[i]).session_id == Some(id) ==> same_path(
                b.live[i].socket_path,
                a.socket_path,
            ),
    ensures
        ({
            let fresh = with_clocks(a, at_path(b.live, a.socket_path));
            let here = BoardView { live: live_after(b.live, UpdateView::Upsert(a), now), ..b };
            let gone = BoardView {
                live: live_after(here.live, UpdateView::Gone(a.socket_path), now),
                ..here
            };
            &&& here.session_agent(id) == Some(fresh)
            &&& at_path(b.live, a.socket_path) is None ==> fresh == a
            &&& gone.session_agent(id) == agent_for(b.dormant, id)
        }),
        forall|x: Seq<char>| agent_for(b.live, x) is None && agent_for(b.dormant, x) is None ==> (
        #[trigger] b.session_agent(x)) is None,
{
    let p = |x: AgentView| !same_path(x.socket_path, a.socket_path);
    let fresh = with_clocks(a, at_path(b.live, a.socket_path));
    let rest = without_path(b.live, a.socket_path);
    let live = placed(rest, fresh, by_path());
    let end = without_path(live, a.socket_path);
    assert forall|i: int| 0 <= i < rest.len() implies (#[trigger] rest[i]).session_id != Some(id) by {
        b.live.lemma_filter_pred(p, i);
        b.live.lemma_filter_contains_rev(p, rest[i]);
        let k = choose|k: int| 0 <= k < b.live.len() && b.live[k] == rest[i];
        assert(p(b.live[k]));
    }
    lemma_placed_elements(rest, fresh, by_path());
    assert forall|i: int| 0 <= i < live.len() && (#[trigger] live[i]).session_id == Some(id) implies live[i]
        == fresh by {
        if live[i] != fresh {
            let k = choose|k: int| 0 <= k < rest.len() && rest[k] == live[i];
            assert(rest[k].session_id != Some(id));
        }
    }
    lemma_sole_agent_for(live, id, fresh);
    assert forall|i: int| 0 <= i < end.len() implies (#[trigger] end[i]).session_id != Some(id) by {
        live.lemma_filter_pred(p, i);
        live.lemma_filter_contains_rev(p, end[i]);
        let k = choose|k: int| 0 <= k < live.len() && live[k] == end[i];
        assert(p(live[k]));
        if live[k].session_id == Some(id) {
            lemma_path_order(a.socket_path, a.socket_path);
            assert(live[k] == fresh);
        }
    }
    lemma_no_agent_for(end, id);
}

// ---------------------------------------------------------------------------
// What the board shows
// ---------------------------------------------------------------------------
/// A change is made to the agents at its path and to no other, and changes what
/// it names and nothing else. The clock of the state runs on while the state
/// stays the same and starts anew when it changes; an activity is marked with
/// its time.
pub proof fn law_change_is_made_to_its_agent_alone(
    live: Seq<AgentView>,
    u: UpdateView,
    now: u128,
    i: int,
)
    requires
        0 <= i < live.len(),
        !(u is Upsert),
        !(u is Gone),
    ensures
        live_after(live, u, now).len() == live.len(),
        !same_path(live[i].socket_path, update_path(u)) ==> live_after(live, u, now)[i] == live[i],
        u matches UpdateView::SetState(p, s) ==> (same_path(live[i].socket_path, p) ==> {
            let b = live_after(live, u, now)[i];
            &&& b.state == s
            &&& b.state_since == (if live[i].state == s {
                live[i].state_since
            } else {
                now
            })
            &&& (AgentView { state: live[i].state, state_since: live[i].state_since, ..b }) == live[i]
        }),
        u matches UpdateView::SetTitle(p, t) ==> (same_path(live[i].socket_path, p) ==> {
            let b = live_after(live, u, now)[i];
            &&& b.title == t
            &&& (AgentView { title: live[i].title, ..b }) == live[i]
        }),
        u matches UpdateView::SetActivity(p, t) ==> (same_path(live[i].socket_path, p) ==> {
            let b = live_after(live, u, now)[i];
            &&& b.activity == Some(t)
            &&& b.last_activity == now
            &&& (AgentView {
                activity: live[i].activity,
                last_activity: live[i].last_activity,
                ..b
            }) == live[i]
        }),
        u matches UpdateView::SetModel(p, t) ==> (same_path(live[i].socket_path, p) ==> {
            let b = live_after(live, u, now)[i];
            &&& b.model == Some(t)
            &&& (AgentView { model: live[i].model, ..b }) == live[i]
        }),
{
}

/// The agent that is found at a path stands at that path, and none is found
/// only where none stands there.
pub proof fn law_agent_at_a_path(live: Seq<AgentView>, path: Seq<char>)
    ensures
        at_path(live, path) matches Some(a) ==> live.contains(a) && same_path(a.socket_path, path),
        at_path(live, path) is None <==> forall|i: int|
            0 <= i < live.len() ==> !same_path((#[trigger] live[i]).socket_path, path),
    decreases live.len(),
{
    if live.len() > 0 {
        let t = live.drop_first();
        assert(live[0] == live.first());
        if !same_path(live[0].socket_path, path) {
            law_agent_at_a_path(t, path);
            if at_path(t, path) is Some {
                let k = choose|k: int| 0 <= k < t.len() && t[k] == at_path(t, path)->0;
                assert(live[k + 1] == t[k]);
            } else {
                assert forall|i: int| 0 <= i < live.len() implies !same_path(
                    (#[trigger] live[i]).socket_path,
                    path,
                ) by {
                    if i > 0 {
                        assert(t[i - 1] == live[i]);
                    }
                }
            }
        }
    }
}

proof fn lemma_sole_at_path(v: Seq<AgentView>, path: Seq<char>, x: AgentView)
    requires
        v.contains(x),
        same_path(x.socket_path, path),
        forall|i: int|
            0 <= i < v.len() && same_path((#[trigger] v[i]).socket_path, path) ==> v[i] == x,
    ensures
        at_path(v, path) == Some(x),
    decreases v.len(),
{
    let t = v.drop_first();
    let k = choose|k: int| 0 <= k < v.len() && v[k] == x;
    if !same_path(v[0].socket_path, path) {
        assert(t[k - 1] == x);
        assert forall|i: int| 0 <= i < t.len() && same_path((#[trigger] t[i]).socket_path, path) implies t[i]
            == x by {
            assert(t[i] == v[i + 1]);
        }
        lemma_sole_at_path(t, path, x);
    }
}

/// An agent that comes to the board stands there as it was announced, and the
/// others stay as they were. One that was there before keeps its time of last
/// activity, and the time of its state too while that is the same.
pub proof fn law_announced_agent_stands_on_the_board(
    live: Seq<AgentView>,
    a: AgentView,
    now: u128,
    other: AgentView,
)
    ensures
        ({
            let after = live_after(live, UpdateView::Upsert(a), now);
            &&& at_path(after, a.socket_path) matches Some(b) && {
                &&& (AgentView {
                    state_since: a.state_since,
                    last_activity: a.last_activity,
                    ..b
                }) == a
                &&& match at_path(live, a.socket_path) {
                    Some(p) => {
                        &&& b.last_activity == p.last_activity
                        &&& p.state == a.state ==> b.state_since == p.state_since
                        &&& p.state != a.state ==> b.state_since == a.state_since
                    },
                    None => b == a,
                }
            }
            &&& !same_path(other.socket_path, a.socket_path) ==> (after.contains(other)
                == live.contains(other))
            &&& !same_path(other.socket_path, a.socket_path) ==> (live_after(
                live,
                UpdateView::Gone(a.socket_path),
                now,
            ).contains(other) == live.contains(other))
        }),
{
    let p = |x: AgentView| !same_path(x.socket_path, a.socket_path);
    let fresh = with_clocks(a, at_path(live, a.socket_path));
    let rest = without_path(live, a.socket_path);
    let after = placed(rest, fresh, by_path());
    lemma_placed_elements(rest, fresh, by_path());
    lemma_placed_keeps(rest, fresh, by_path());
    assert forall|i: int|
        0 <= i < after.len() && same_path((#[trigger] after[i]).socket_path, a.socket_path) implies after[i]
        == fresh by {
        if after[i] != fresh {
            let k = choose|k: int| 0 <= k < rest.len() && rest[k] == after[i];
            live.lemma_filter_pred(p, k);
        }
    }
    lemma_sole_at_path(after, a.socket_path, fresh);
    if p(other) {
        if live.contains(other) {
            let k = choose|k: int| 0 <= k < live.len() && live[k] == other;
            live.lemma_filter_contains(p, k);
            assert(rest.contains(other));
        }
        if rest.contains(other) {
            live.lemma_filter_contains_rev(p, other);
        }
        if after.contains(other) {
            let k = choose|k: int| 0 <= k < after.len() && after[k] == other;
            assert(after[k] == fresh || rest.contains(after[k]));
        }
    }
}

/// The record that is found for a session is the first that names it; where none
/// names it, none is found.
pub proof fn law_first_record_speaks_for_a_session(entries: Seq<RecordView>, id: Seq<char>, k: int)
    ensures
        0 <= k < entries.len() && entries[k].session_id == id && (forall|i: int|
            0 <= i < k ==> (#[trigger] entries[i]).session_id != id) ==> record_for(entries, id)
            == Some(entries[k]),
        (forall|i: int| 0 <= i < entries.len() ==> (#[trigger] entries[i]).session_id != id)
            ==> record_for(entries, id) is None,
    decreases entries.len(),
{
    if entries.len() > 0 {
        let t = entries.drop_first();
        assert forall|i: int| 0 <= i < t.len() implies t[i] == entries[i + 1] by {}
        law_first_record_speaks_for_a_session(t, id, k - 1);
        if 0 < k < entries.len() {
            assert(t[k - 1] == entries[k]);
        }
    }
}

/// A live agent that the registry knows takes from its record how it is launched:
/// its commands, whether it draws its own window, its message flag and whether
/// it is hidden. All else of it, and all of an agent that the registry does not
/// know, stays.
pub proof fn law_record_says_how_an_agent_is_launched(
    b: BoardView,
    entries: Seq<RecordView>,
    dead: Seq<Seq<char>>,
    i: int,
)
    requires
        0 <= i < b.live.len(),
    ensures
        ({
            let a = b.live[i];
            let r = synced(b, entries, dead).live[i];
            &&& (AgentView {
                spawn_command: a.spawn_command,
                resume_command: a.resume_command,
                gui: a.gui,
                message_flag: a.message_flag,
                hidden: a.hidden,
                ..r
            }) == a
            &&& (a.session_id is None || record_for(entries, a.session_id->0) is None) ==> r == a
            &&& a.session_id is Some ==> (record_for(entries, a.session_id->0) matches Some(e) ==> {
                &&& r.spawn_command == e.spawn_command
                &&& r.resume_command == e.resume_command
                &&& r.gui == e.gui
                &&& r.message_flag == e.message_flag
                &&& r.hidden == e.hidden
            })
        }),
        synced(b, entries, dead).filter == b.filter,
{
}

/// A card is what a record says of its session: its id, directory, title, model,
/// commands and launch options, under the record's label, or as an agent where
/// it has none.
pub open spec fn tells_of(a: AgentView, e: RecordView) -> bool {
    &&& a.session_id == Some(e.session_id)
    &&& a.cwd == e.cwd
    &&& a.title == e.title
    &&& a.model == e.model
    &&& a.spawn_command == e.spawn_command
    &&& a.resume_command == e.resume_command
    &&& a.gui == e.gui
    &&& a.message_flag == e.message_flag
    &&& a.hidden == e.hidden
    &&& e.label is Some ==> a.label == e.label->0
    &&& e.label is None ==> a.label == "agent"@
    &&& a.origin == Origin::Dormant
    &&& a.activity is None
}

/// A record stands for a session that sleeps: it can be resumed, no live agent
/// has its session, and its socket, if it names one, was found dead.
pub open spec fn sleeps(e: RecordView, live: Seq<AgentView>, dead: Seq<Seq<char>>) -> bool {
    &&& e.resume_command is Some
    &&& forall|i: int| 0 <= i < live.len() ==> (#[trigger] live[i]).session_id != Some(e.session_id)
    &&& e.socket matches Some(s) ==> exists|i: int| 0 <= i < dead.len() && same_path(#[trigger] dead[i], s)
}

/// A card tells of one of the sessions that sleep.
pub open spec fn tells_of_one(
    a: AgentView,
    entries: Seq<RecordView>,
    live: Seq<AgentView>,
    dead: Seq<Seq<char>>,
) -> bool {
    exists|k: int|
        0 <= k < entries.len() && sleeps(#[trigger] entries[k], live, dead) && tells_of(a, entries[k])
}

/// Each session that sleeps has a card, and each dormant card tells of one.
pub proof fn law_each_sleeping_session_has_its_card(
    b: BoardView,
    entries: Seq<RecordView>,
    dead: Seq<Seq<char>>,
)
    ensures
        forall|k: int|
            #![trigger entries[k]]
            0 <= k < entries.len() && sleeps(entries[k], b.live, dead) ==> exists|i: int|
                0 <= i < synced(b, entries, dead).dormant.len() && tells_of(
                    #[trigger] synced(b, entries, dead).dormant[i],
                    entries[k],
                ),
        forall|i: int|
            #![trigger synced(b, entries, dead).dormant[i]]
            0 <= i < synced(b, entries, dead).dormant.len() ==> tells_of_one(
                synced(b, entries, dead).dormant[i],
                entries,
                b.live,
                dead,
            ),
{
    let p = |e: RecordView| is_dormant(e, b.live, dead);
    let f = entries.filter(p);
    let s = sorted_by(f, newer());
    let d = synced(b, entries, dead).dormant;
    lemma_sorted_contains(f, newer());
    assert forall|k: int| #![trigger entries[k]]
        0 <= k < entries.len() && sleeps(entries[k], b.live, dead) implies exists|i: int|
        0 <= i < d.len() && tells_of(#[trigger] d[i], entries[k]) by {
        assert(p(entries[k]));
        entries.lemma_filter_contains(p, k);
        assert(s.contains(entries[k]));
        let i = choose|i: int| 0 <= i < s.len() && s[i] == entries[k];
        assert(tells_of(d[i], entries[k]));
    }
    assert forall|i: int|
        #![trigger synced(b, entries, dead).dormant[i]]
        0 <= i < synced(b, entries, dead).dormant.len() implies tells_of_one(
        synced(b, entries, dead).dormant[i],
        entries,
        b.live,
        dead,
    ) by {
        let k = lemma_card_has_its_record(b, entries, dead, i);
        assert(sleeps(entries[k], b.live, dead));
    }
}

proof fn lemma_card_has_its_record(
    b: BoardView,
    entries: Seq<RecordView>,
    dead: Seq<Seq<char>>,
    i: int,
) -> (k: int)
    requires
        0 <= i < synced(b, entries, dead).dormant.len(),
    ensures
        0 <= k < entries.len(),
        sleeps(entries[k], b.live, dead),
        tells_of(synced(b, entries, dead).dormant[i], entries[k]),
{
    let p = |e: RecordView| is_dormant(e, b.live, dead);
    let f = entries.filter(p);
    let s = sorted_by(f, newer());
    lemma_sorted_contains(f, newer());
    assert(s.contains(s[i]));
    assert(f.contains(s[i]));
    let j = choose|j: int| 0 <= j < f.len() && f[j] == s[i];
    entries.lemma_filter_pred(p, j);
    entries.lemma_filter_contains_rev(p, f[j]);
    let k = choose|k: int| 0 <= k < entries.len() && entries[k] == f[j];
    assert(is_dormant(entries[k], b.live, dead));
    assert(synced(b, entries, dead).dormant[i] == dormant_agent(entries[k]));
    k
}

/// Of two records the one that was seen later is the newer, one that was seen at
/// all is newer than one that was not, and records of one time are ordered by
/// their sessions.
pub proof fn law_later_seen_is_newer(a: RecordView, b: RecordView)
    ensures
        a.last_seen is Some && b.last_seen is Some && before(b.last_seen->0, a.last_seen->0)
            ==> newer()(a, b) && !newer()(b, a),
        a.last_seen is Some && b.last_seen is None ==> newer()(a, b) && !newer()(b, a),
        a.last_seen == b.last_seen ==> newer()(a, b) == before(a.session_id, b.session_id),
{
    if a.last_seen is Some && b.last_seen is Some && before(b.last_seen->0, a.last_seen->0) {
        lemma_before_asymmetric(b.last_seen->0, a.last_seen->0);
        lemma_before_irreflexive(a.last_seen->0);
    }
    if a.last_seen is Some {
        lemma_before_irreflexive(a.last_seen->0);
    }
}

/// What a column shows belongs there: in the first three, live agents in the
/// state of that column, and in the last the dormant ones. What belongs there and
/// matches the filter is shown.
pub proof fn law_column_shows_what_belongs_there(b: BoardView, x: AgentView)
    ensures
        b.column(Column::RequiresAction).contains(x) <==> b.live.contains(x) && x.state
            == State::RequiresAction && x.matches(b.filter),
        b.column(Column::Idle).contains(x) <==> b.live.contains(x) && x.state == State::Idle
            && x.matches(b.filter),
        b.column(Column::Running).contains(x) <==> b.live.contains(x) && x.state == State::Running
            && x.matches(b.filter),
        b.column(Column::Dormant).contains(x) <==> b.dormant.contains(x) && x.matches(b.filter),
        b.in_state(State::Idle).contains(x) <==> b.live.contains(x) && x.state == State::Idle,
        x.origin == Origin::Dormant ==> x.column() == Column::Dormant,
        x.origin == Origin::Live && b.live.contains(x) && x.matches(b.filter) ==> b.column(
            x.column(),
        ).contains(x),
{
    lemma_filter_members(b.live, |a: AgentView| a.state == State::RequiresAction, x);
    lemma_filter_members(b.live, |a: AgentView| a.state == State::Idle, x);
    lemma_filter_members(b.live, |a: AgentView| a.state == State::Running, x);
    lemma_shown(b, Column::RequiresAction, x);
    lemma_shown(b, Column::Idle, x);
    lemma_shown(b, Column::Running, x);
    lemma_shown(b, Column::Dormant, x);
}

proof fn lemma_shown(b: BoardView, c: Column, x: AgentView)
    ensures
        b.column(c).contains(x) <==> b.base(c).contains(x) && x.matches(b.filter),
{
    lemma_sorted_contains(b.shown(c), b.busier());
    lemma_filter_members(b.base(c), |a: AgentView| a.matches(b.filter), x);
    if trimmed(b.filter).len() == 0 {
        law_blank_query_matches_every_card(x, b.filter);
    }
}

proof fn lemma_filter_members<A>(s: Seq<A>, p: spec_fn(A) -> bool, x: A)
    ensures
        s.filter(p).contains(x) <==> s.contains(x) && p(x),
{
    if s.contains(x) && p(x) {
        let k = choose|k: int| 0 <= k < s.len() && s[k] == x;
        s.lemma_filter_contains(p, k);
    }
    if s.filter(p).contains(x) {
        let k = choose|k: int| 0 <= k < s.filter(p).len() && s.filter(p)[k] == x;
        s.lemma_filter_pred(p, k);
        s.lemma_filter_contains_rev(p, x);
    }
}

/// Within a live column the directory with more agents on the board stands first,
/// and of directories with as many the one whose name comes first. Agents of one
/// directory stand together.
pub proof fn law_busier_directory_stands_first(b: BoardView, c: Column, i: int, j: int)
    requires
        c != Column::Dormant,
        0 <= i < j < b.column(c).len(),
    ensures
        ({
            let x = or_empty(b.column(c)[i].cwd);
            let y = or_empty(b.column(c)[j].cwd);
            &&& b.occurrences(x) >= b.occurrences(y)
            &&& b.occurrences(x) == b.occurrences(y) ==> x == y || before(x, y)
            &&& x == y ==> forall|k: int|
                i <= k <= j ==> or_empty((#[trigger] b.column(c)[k]).cwd) == x
        }),
{
    lemma_busier_weak_order(b);
    law_sort_is_permutation(b.shown(c), b.busier());
    let s = b.column(c);
    let lt = b.busier();
    let x = or_empty(s[i].cwd);
    let y = or_empty(s[j].cwd);
    assert(!lt(s[j], s[i]));
    lemma_before_total(x, y);
    if x == y {
        assert forall|k: int| i <= k <= j implies or_empty((#[trigger] s[k]).cwd) == x by {
            let z = or_empty(s[k].cwd);
            if i < k < j {
                assert(!lt(s[k], s[i]));
                assert(!lt(s[j], s[k]));
                lemma_before_total(x, z);
            }
        }
    }
}

/// How busy a directory is counts all its agents, live and dormant, whatever the
/// filter: each agent of the directory adds one, and one of another adds none.
pub proof fn law_every_agent_of_a_directory_counts(b: BoardView, a: AgentView, cwd: Seq<char>, filter: Seq<char>)
    ensures
        (BoardView { live: b.live.push(a), ..b }).occurrences(cwd) == b.occurrences(cwd) + (
        if or_empty(a.cwd) == cwd {
            1int
        } else {
            0int
        }),
        (BoardView { dormant: b.dormant.push(a), ..b }).occurrences(cwd) == b.occurrences(cwd) + (
        if or_empty(a.cwd) == cwd {
            1int
        } else {
            0int
        }),
        (BoardView { filter, ..b }).occurrences(cwd) == b.occurrences(cwd),
        b.live.len() == 0 && b.dormant.len() == 0 ==> b.occurrences(cwd) == 0,
{
    let p = |a: AgentView| or_empty(a.cwd) == cwd;
    Seq::filter_distributes_over_add(b.live, b.dormant, p);
    Seq::filter_distributes_over_add(b.live.push(a), b.dormant, p);
    Seq::filter_distributes_over_add(b.live, b.dormant.push(a), p);
    assert(b.live.push(a).filter(p).len() == b.live.filter(p).len() + (if p(a) {
        1int
    } else {
        0int
    }) && b.dormant.push(a).filter(p).len() == b.dormant.filter(p).len() + (if p(a) {
        1int
    } else {
        0int
    })) by {
        broadcast use Seq::lemma_filter_push;

    }
    if b.live.len() == 0 && b.dormant.len() == 0 {
        reveal(Seq::filter);
        assert((b.live + b.dormant).len() == 0);
    }
}

/// The agents that run in a directory are those whose directory is exactly that
/// one.
pub proof fn law_agents_in_a_directory(b: BoardView, dir: Seq<char>, x: AgentView)
    ensures
        b.in_dir(dir).contains(x) <==> b.live.contains(x) && x.cwd == Some(dir),
{
    lemma_filter_members(b.live, |a: AgentView| a.cwd == Some(dir), x);
}

/// An agent that is found for a session has that session, and one is found
/// wherever one has it.
pub proof fn law_found_agent_has_the_session(v: Seq<AgentView>, id: Seq<char>)
    ensures
        agent_for(v, id) matches Some(a) ==> v.contains(a) && a.session_id == Some(id),
        agent_for(v, id) is None <==> forall|i: int|
            0 <= i < v.len() ==> (#[trigger] v[i]).session_id != Some(id),
    decreases v.len(),
{
    if v.len() > 0 {
        let t = v.drop_first();
        assert(v[0] == v.first());
        if v[0].session_id != Some(id) {
            law_found_agent_has_the_session(t, id);
            if agent_for(t, id) is Some {
                let k = choose|k: int| 0 <= k < t.len() && t[k] == agent_for(t, id)->0;
                assert(v[k + 1] == t[k]);
            } else {
                assert forall|i: int| 0 <= i < v.len() implies (#[trigger] v[i]).session_id != Some(id) by {
                    if i > 0 {
                        assert(t[i - 1] == v[i]);
                    }
                }
            }
        }
    }
}

/// The registry's directory of a session is that of the last record that names
/// it, and a session that no record names has none.
pub proof fn law_registry_knows_the_sessions_it_holds(
    b: BoardView,
    entries: Seq<RecordView>,
    dead: Seq<Seq<char>>,
    k: int,
    id: Seq<char>,
)
    ensures
        0 <= k < entries.len() && entries[k].session_id == id && (forall|i: int|
            k < i < entries.len() ==> (#[trigger] entries[i]).session_id != id) ==> synced(
            b,
            entries,
            dead,
        ).session_entry(id) == Some(entries[k].cwd),
        (forall|i: int| 0 <= i < entries.len() ==> (#[trigger] entries[i]).session_id != id)
            ==> synced(b, entries, dead).session_entry(id) is None,
{
    lemma_last_listed(entries, k, id);
}

proof fn lemma_last_listed(entries: Seq<RecordView>, k: int, id: Seq<char>)
    ensures
        0 <= k < entries.len() && entries[k].session_id == id && (forall|i: int|
            k < i < entries.len() ==> (#[trigger] entries[i]).session_id != id) ==> last_listed(
            entries.map_values(|e: RecordView| (e.session_id, e.cwd)),
            id,
        ) == Some(entries[k].cwd),
        (forall|i: int| 0 <= i < entries.len() ==> (#[trigger] entries[i]).session_id != id)
            ==> last_listed(entries.map_values(|e: RecordView| (e.session_id, e.cwd)), id) is None,
    decreases entries.len(),
{
    let f = |e: RecordView| (e.session_id, e.cwd);
    let s = entries.map_values(f);
    if entries.len() > 0 {
        let t = entries.drop_last();
        assert(s.drop_last() =~= t.map_values(f));
        lemma_last_listed(t, k, id);
        if s.last().0 != id {
            assert forall|i: int| 0 <= i < t.len() implies t[i] == entries[i] by {}
        } else {
            assert(entries[entries.len() - 1].session_id == id);
        }
    }
}

/// A pending move is kept under the session where there is one, so that it
/// outlives the socket, and under the socket otherwise.
pub proof fn law_move_is_kept_under_the_session(a: AgentView, path: Seq<char>)
    ensures
        a.session_id is Some ==> a.move_key() == a.session_id->0,
        a.session_id is None ==> a.move_key() == a.socket_path,
        a.session_id is Some ==> (AgentView { socket_path: path, ..a }).move_key() == a.move_key(),
{
}

/// Each column has a title and a place of its own.
pub proof fn law_columns_are_told_apart(c: Column, d: Column)
    requires
        c != d,
    ensures
        c.heading() != d.heading(),
        c.place() != d.place(),
        c.place() < d.place() <==> (c == Column::RequiresAction || (c == Column::Idle && d
            != Column::RequiresAction) || (c == Column::Running && d == Column::Dormant)),
{
    reveal_strlit("Requires Action");
    reveal_strlit("Idle");
    reveal_strlit("Running");
    reveal_strlit("Dormant");
    assert("Running"@[0] != "Dormant"@[0]);
    assert("Requires Action"@.len() != "Idle"@.len());
    assert("Running"@.len() != "Idle"@.len());
    assert("Dormant"@.len() != "Idle"@.len());
    assert("Running"@.len() != "Requires Action"@.len());
    assert("Dormant"@.len() != "Requires Action"@.len());
}

/// The words of the protocol each stand for the state that they name, and no
/// other word stands for any.
pub proof fn law_protocol_words_name_states(word: Seq<char>)
    ensures
        state_of_wire("running"@) == Some(State::Running),
        state_of_wire("idle"@) == Some(State::Idle),
        state_of_wire("requires_action"@) == Some(State::RequiresAction),
        word != "running"@ && word != "idle"@ && word != "requires_action"@ ==> state_of_wire(
            word,
        ) is None,
{
    reveal_strlit("running");
    reveal_strlit("idle");
    reveal_strlit("requires_action");
    assert("running"@.len() != "idle"@.len());
    assert("running"@.len() != "requires_action"@.len());
    assert("idle"@.len() != "requires_action"@.len());
}

} // verus!
