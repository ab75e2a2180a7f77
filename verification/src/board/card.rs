//! The cards of the board: who an agent is, how long it has waited, and what it
//! does.
use vstd::prelude::*;

use vstd::utf8::encode_utf8;

use crate::board::geometry::CARD_ROWS;
use crate::board::style::{
    bold, dim, line_view, line_width, lines_view, measure, plain, span, truncate, truncated, law_truncated_fits, Color,
    Span, SpanView, Style,
};
use crate::engine::pairs;
use crate::launch::opt_str;
use crate::model::{Agent, AgentView, Column, Origin};
use crate::palette::{basename, color_index, fnv, leaf};
use crate::path::{is_same_path, same_path};
use crate::text::{cat3, char_count, opt_text, repeat_char, same, spaces};

verus! {

/// The accents of the directories.
pub open spec fn accents() -> Seq<Color> {
    seq![
        Color::Blue,
        Color::Cyan,
        Color::Green,
        Color::Yellow,
        Color::Magenta,
        Color::Red,
        Color::LightBlue,
        Color::LightMagenta,
    ]
}

/// The accent of a directory: always the same for one path.
pub open spec fn accent(cwd: Seq<char>) -> Color {
    accents()[fnv(encode_utf8(cwd)) as int % 8]
}

fn accent_of(cwd: &str) -> (r: Color)
    ensures
        r == accent(cwd@),
{
    let all: [Color; 8] = [
        Color::Blue,
        Color::Cyan,
        Color::Green,
        Color::Yellow,
        Color::Magenta,
        Color::Red,
        Color::LightBlue,
        Color::LightMagenta,
    ];
    assert(all@ =~= accents());
    let k = color_index(cwd, 8);
    all[k]
}

/// A directory's tag: the last component of its path on its accent, faded where
/// the card is.
pub open spec fn pill(cwd: Seq<char>, faded: bool) -> SpanView {
    SpanView {
        text: " "@ + leaf(cwd) + " "@,
        style: Style {
            fg: Some(Color::Black),
            bg: Some(accent(cwd)),
            bold: false,
            dim: faded,
            reversed: false,
        },
    }
}

/// A directory's tag; none where the directory is unknown.
pub fn cwd_pill(cwd: Option<&str>, faded: bool) -> (r: Option<Span>)
    ensures
        match (r, opt_str(cwd)) {
            (Some(s), Some(c)) => s@ == pill(c, faded),
            (None, None) => true,
            _ => false,
        },
{
    match cwd {
        None => None,
        Some(c) => {
            let style = Style {
                fg: Some(Color::Black),
                bg: Some(accent_of(c)),
                bold: false,
                dim: faded,
                reversed: false,
            };
            Some(Span { text: cat3(" ", basename(c), " "), style })
        },
    }
}

/// A grey tag.
pub open spec fn tag(text: Seq<char>, faded: bool) -> SpanView {
    SpanView {
        text: " "@ + text + " "@,
        style: Style {
            fg: Some(Color::White),
            bg: Some(Color::DarkGray),
            bold: false,
            dim: faded,
            reversed: false,
        },
    }
}

/// A grey tag.
pub fn tag_pill(text: &str, faded: bool) -> (r: Span)
    ensures
        r@ == tag(text@, faded),
{
    let style = Style {
        fg: Some(Color::White),
        bg: Some(Color::DarkGray),
        bold: false,
        dim: faded,
        reversed: false,
    };
    Span { text: cat3(" ", text, " "), style }
}

/// The mark of an agent that runs hidden.
pub open spec fn badge(a: AgentView) -> Seq<char> {
    if a.origin == Origin::Live && a.hidden {
        "hidden"@
    } else {
        ""@
    }
}

/// The mark of an agent that runs hidden; empty for any other.
pub fn hidden_badge(agent: &Agent) -> (r: &'static str)
    ensures
        r@ == badge(agent@),
{
    if agent.origin == Origin::Live && agent.hidden {
        "hidden"
    } else {
        ""
    }
}

/// The name of an agent's card.
pub open spec fn card_name(a: AgentView) -> Seq<char> {
    match a.title {
        Some(t) => t,
        None => "(unnamed)"@,
    }
}

fn name_of(agent: &Agent) -> (r: &str)
    ensures
        r@ == card_name(agent@),
{
    match &agent.title {
        Some(t) => t.as_str(),
        None => "(unnamed)",
    }
}

/// How an agent is called where it stands alone: its title, and the last
/// component of its directory.
pub open spec fn called(a: AgentView) -> Seq<char> {
    card_name(a) + " · "@ + leaf(
        match a.cwd {
            Some(c) => c,
            None => "?"@,
        },
    )
}

/// How an agent is called where it stands alone.
pub fn focus_label(agent: &Agent) -> (r: String)
    ensures
        r@ == called(agent@),
{
    let cwd = match &agent.cwd {
        Some(c) => c.as_str(),
        None => "?",
    };
    cat3(name_of(agent), " · ", basename(cwd))
}

/// What the cards show beside the agents: the ages by socket and by session, and
/// the moves that are under way.
pub struct CardMeta<'a> {
    /// How long each agent has been in its state, by socket.
    pub in_state: &'a Vec<(String, String)>,
    /// How long ago each agent was last active, by socket.
    pub quiet: &'a Vec<(String, String)>,
    /// How old each record is, by session.
    pub dormant_age: &'a Vec<(String, String)>,
    /// The title of the column that each card is being moved to, by agent.
    pub pending: &'a Vec<(String, String)>,
}

/// What was listed last under a path.
pub open spec fn under_path(list: Seq<(Seq<char>, Seq<char>)>, path: Seq<char>) -> Option<Seq<char>>
    decreases list.len(),
{
    if list.len() == 0 {
        None
    } else if same_path(list.last().0, path) {
        Some(list.last().1)
    } else {
        under_path(list.drop_last(), path)
    }
}

/// What was listed last under a name.
pub open spec fn under_name(list: Seq<(Seq<char>, Seq<char>)>, name: Seq<char>) -> Option<Seq<char>>
    decreases list.len(),
{
    if list.len() == 0 {
        None
    } else if list.last().0 == name {
        Some(list.last().1)
    } else {
        under_name(list.drop_last(), name)
    }
}

fn find_path<'a>(list: &'a Vec<(String, String)>, path: &str) -> (r: Option<&'a String>)
    ensures
        match r {
            Some(t) => under_path(pairs(list@), path@) == Some(t@),
            None => under_path(pairs(list@), path@) is None,
        },
{
    let ghost all = pairs(list@);
    let mut i: usize = list.len();
    assert(all.take(all.len() as int) =~= all);
    while i > 0
        invariant
            i <= list@.len(),
            all == pairs(list@),
            under_path(all, path@) == under_path(all.take(i as int), path@),
        decreases i,
    {
        assert(all.take(i as int).drop_last() =~= all.take(i - 1));
        assert(all.take(i as int).last() == (list@[i - 1].0@, list@[i - 1].1@));
        if is_same_path(list[i - 1].0.as_str(), path) {
            return Some(&list[i - 1].1);
        }
        i = i - 1;
    }
    None
}

fn find_name<'a>(list: &'a Vec<(String, String)>, name: &str) -> (r: Option<&'a String>)
    ensures
        match r {
            Some(t) => under_name(pairs(list@), name@) == Some(t@),
            None => under_name(pairs(list@), name@) is None,
        },
{
    let ghost all = pairs(list@);
    let mut i: usize = list.len();
    assert(all.take(all.len() as int) =~= all);
    while i > 0
        invariant
            i <= list@.len(),
            all == pairs(list@),
            under_name(all, name@) == under_name(all.take(i as int), name@),
        decreases i,
    {
        assert(all.take(i as int).drop_last() =~= all.take(i - 1));
        assert(all.take(i as int).last() == (list@[i - 1].0@, list@[i - 1].1@));
        if same(list[i - 1].0.as_str(), name) {
            return Some(&list[i - 1].1);
        }
        i = i - 1;
    }
    None
}

impl<'a> CardMeta<'a> {
    /// The age on a card, by the question of its column: how long it has waited
    /// for the operator, how long it has been quiet, or how old its record is.
    pub open spec fn age(&self, a: AgentView, col: Column) -> Option<Seq<char>> {
        match col {
            Column::RequiresAction => under_path(pairs(self.in_state@), a.socket_path),
            Column::Idle => under_path(pairs(self.in_state@), a.socket_path),
            Column::Running => under_path(pairs(self.quiet@), a.socket_path),
            Column::Dormant => match a.session_id {
                Some(id) => under_name(pairs(self.dormant_age@), id),
                None => None,
            },
        }
    }

    /// The column that a card is being moved to.
    pub open spec fn moving(&self, a: AgentView) -> Option<Seq<char>> {
        under_name(pairs(self.pending@), a.move_key())
    }
}

/// The age on a card.
pub fn card_age(agent: &Agent, col: Column, meta: &CardMeta) -> (r: Option<String>)
    ensures
        opt_text(r) == meta.age(agent@, col),
{
    let found = match col {
        Column::RequiresAction => find_path(meta.in_state, agent.socket_path.as_str()),
        Column::Idle => find_path(meta.in_state, agent.socket_path.as_str()),
        Column::Running => find_path(meta.quiet, agent.socket_path.as_str()),
        Column::Dormant => match &agent.session_id {
            Some(id) => find_name(meta.dormant_age, id.as_str()),
            None => None,
        },
    };
    match found {
        Some(t) => Some(t.clone()),
        None => None,
    }
}

/// The difference of two widths, or none.
pub open spec fn room(width: int, used: int) -> int {
    if width > used {
        width - used
    } else {
        0
    }
}

/// The first line of a card: its name at the left, cut so that a space stays
/// before the age at the right.
pub open spec fn title_spans(
    name: Seq<char>,
    age: Seq<char>,
    width: int,
    title_style: Style,
    age_style: Style,
) -> Seq<SpanView> {
    let shown = truncated(name, room(width, (age.len() + 1) as int));
    seq![
        SpanView { text: shown, style: title_style },
        SpanView { text: spaces(room(width, (shown.len() + age.len()) as int)), style: plain() },
        SpanView { text: age, style: age_style },
    ]
}

/// The first line of a card.
pub fn title_line(name: &str, age: Option<&str>, width: usize, title_style: Style, age_style: Style) -> (r: Vec<Span>)
    ensures
        line_view(r@) == title_spans(
            name@,
            match opt_str(age) {
                Some(t) => t,
                None => ""@,
            },
            width as int,
            title_style,
            age_style,
        ),
{
    let age = match age {
        Some(t) => t,
        None => "",
    };
    let age_w = char_count(age);
    let left: usize = if age_w < width {
        width - age_w - 1
    } else {
        0
    };
    let shown = truncate(name, left);
    let shown_w = char_count(shown.as_str());
    proof {
        law_truncated_fits(name@, left as int);
    }
    let gap: usize = if age_w < width {
        width - age_w - shown_w
    } else {
        0
    };
    let mut v: Vec<Span> = Vec::new();
    v.push(Span { text: shown, style: title_style });
    v.push(Span { text: repeat_char(' ', gap), style: plain() });
    v.push(span(age, age_style));
    assert(line_view(v@) =~= title_spans(name@, age@, width as int, title_style, age_style));
    v
}

/// The first line of a card fills its width, unless the age alone is wider; the
/// age ends it.
pub proof fn law_title_line_fills_the_card(name: Seq<char>, age: Seq<char>, width: int, a: Style, b: Style)
    requires
        age.len() <= width,
    ensures
        line_width(title_spans(name, age, width, a, b)) == width,
        title_spans(name, age, width, a, b).last().text == age,
{
    let t = title_spans(name, age, width, a, b);
    law_truncated_fits(name, room(width, (age.len() + 1) as int));
    reveal_with_fuel(line_width, 4);
    assert(t.drop_last() =~= seq![t[0], t[1]]);
    assert(seq![t[0], t[1]].drop_last() =~= seq![t[0]]);
    assert(seq![t[0]].drop_last() =~= Seq::<SpanView>::empty());
}

/// The tags of a card: its directory, its kind, and whether it is hidden.
pub open spec fn card_tags(a: AgentView) -> Seq<SpanView> {
    let faded = a.origin == Origin::Dormant;
    let blank = SpanView { text: " "@, style: plain() };
    let dir = match a.cwd {
        Some(c) => seq![pill(c, faded), blank],
        None => Seq::empty(),
    };
    let kind = dir.push(tag(a.label, faded));
    if badge(a).len() > 0 {
        kind.push(blank).push(tag(badge(a), faded))
    } else {
        kind
    }
}

/// What stands behind the tags: the column that the card is being moved to, or
/// else what the agent does, cut to what is left of the width.
pub open spec fn card_tail(a: AgentView, moving: Option<Seq<char>>, width: int) -> Seq<SpanView> {
    let used = line_width(card_tags(a));
    match (moving, a.activity) {
        (Some(t), _) => seq![
            SpanView { text: truncated("  → "@ + t + " ⋯"@, room(width, used)), style: bold() },
        ],
        (None, Some(act)) => seq![
            SpanView { text: "  "@, style: plain() },
            SpanView { text: truncated(act, room(width, used + 2)), style: dim() },
        ],
        (None, None) => Seq::empty(),
    }
}

/// The lines of a card: its name and age, its tags and what it does, and a blank
/// one. A dormant card stands back.
pub open spec fn card_lines(a: AgentView, age: Option<Seq<char>>, moving: Option<Seq<char>>, width: int) -> Seq<
    Seq<SpanView>,
> {
    let title_style = if a.origin == Origin::Dormant {
        dim()
    } else {
        plain()
    };
    let shown = match age {
        Some(t) => t,
        None => ""@,
    };
    seq![
        title_spans(card_name(a), shown, width, title_style, dim()),
        card_tags(a) + card_tail(a, moving, width),
        Seq::empty(),
    ]
}

fn tags_of(agent: &Agent) -> (r: Vec<Span>)
    ensures
        line_view(r@) == card_tags(agent@),
{
    let faded = agent.origin == Origin::Dormant;
    let mut v: Vec<Span> = Vec::new();
    let cwd = match &agent.cwd {
        Some(c) => Some(c.as_str()),
        None => None,
    };
    match cwd_pill(cwd, faded) {
        Some(p) => {
            v.push(p);
            v.push(span(" ", plain()));
        },
        None => {},
    }
    v.push(tag_pill(agent.label.as_str(), faded));
    let mark = hidden_badge(agent);
    if !mark.is_empty() {
        v.push(span(" ", plain()));
        v.push(tag_pill(mark, faded));
    }
    assert(line_view(v@) =~= card_tags(agent@));
    v
}

/// The lines of a card.
pub fn card(agent: &Agent, col: Column, meta: &CardMeta, width: usize) -> (r: Vec<Vec<Span>>)
    ensures
        lines_view(r@) == card_lines(agent@, meta.age(agent@, col), meta.moving(agent@), width as int),
{
    let title_style = if agent.origin == Origin::Dormant {
        dim()
    } else {
        plain()
    };
    let age = card_age(agent, col, meta);
    let shown = match &age {
        Some(t) => Some(t.as_str()),
        None => None,
    };
    let title = title_line(name_of(agent), shown, width, title_style, dim());
    let key = agent.move_key();
    let moving = find_name(meta.pending, key.as_str());
    let mut row = tags_of(agent);
    let ghost tags = line_view(row@);
    let used = measure(&row);
    match moving {
        Some(t) => {
            let text = cat3("  → ", t.as_str(), " ⋯");
            let left: usize = if width > used {
                width - used
            } else {
                0
            };
            row.push(Span { text: truncate(text.as_str(), left), style: bold() });
        },
        None => match &agent.activity {
            Some(a) => {
                let left: usize = if width > used && width - used > 2 {
                    width - used - 2
                } else {
                    0
                };
                row.push(span("  ", plain()));
                row.push(Span { text: truncate(a.as_str(), left), style: dim() });
            },
            None => {},
        },
    }
    assert(line_view(row@) =~= tags + card_tail(agent@, meta.moving(agent@), width as int));
    let mut lines: Vec<Vec<Span>> = Vec::new();
    lines.push(title);
    lines.push(row);
    lines.push(Vec::new());
    assert(line_view(lines@[2]@) =~= Seq::<SpanView>::empty());
    assert(lines_view(lines@) =~= card_lines(
        agent@,
        meta.age(agent@, col),
        meta.moving(agent@),
        width as int,
    ));
    lines
}

proof fn lemma_width_push(v: Seq<SpanView>, s: SpanView)
    ensures
        line_width(v.push(s)) == line_width(v) + s.text.len(),
{
    assert(v.push(s).drop_last() =~= v);
}

/// A card whose tags fit its width has no line that is wider, and is as many
/// lines high as a card is.
pub proof fn law_card_fits(a: AgentView, age: Option<Seq<char>>, moving: Option<Seq<char>>, width: int)
    requires
        line_width(card_tags(a)) + 2 <= width,
        age matches Some(t) ==> t.len() <= width,
    ensures
        card_lines(a, age, moving, width).len() == CARD_ROWS,
        forall|i: int|
            0 <= i < 3 ==> line_width(#[trigger] card_lines(a, age, moving, width)[i]) <= width,
{
    let l = card_lines(a, age, moving, width);
    let shown = match age {
        Some(t) => t,
        None => ""@,
    };
    reveal_strlit("");
    reveal_strlit("  ");
    let title_style = if a.origin == Origin::Dormant {
        dim()
    } else {
        plain()
    };
    lemma_tags_nonneg(card_tags(a));
    law_title_line_fills_the_card(card_name(a), shown, width, title_style, dim());
    let tags = card_tags(a);
    let tail = card_tail(a, moving, width);
    let used = line_width(tags);
    match (moving, a.activity) {
        (Some(t), _) => {
            law_truncated_fits("  → "@ + t + " ⋯"@, room(width, used));
            assert(tags + tail =~= tags.push(tail[0]));
            lemma_width_push(tags, tail[0]);
        },
        (None, Some(act)) => {
            law_truncated_fits(act, room(width, used + 2));
            assert(tags + tail =~= tags.push(tail[0]).push(tail[1]));
            lemma_width_push(tags, tail[0]);
            lemma_width_push(tags.push(tail[0]), tail[1]);
        },
        (None, None) => {
            assert(tags + tail =~= tags);
        },
    }
    assert(line_width(l[2]) == 0);
    assert forall|i: int| 0 <= i < 3 implies line_width(#[trigger] l[i]) <= width by {
        assert(i == 0 || i == 1 || i == 2);
    }
}

proof fn lemma_tags_nonneg(v: Seq<SpanView>)
    ensures
        line_width(v) >= 0,
    decreases v.len(),
{
    if v.len() > 0 {
        lemma_tags_nonneg(v.drop_last());
    }
}

/// What is found under a path is what was put there last, and nothing is found
/// where nothing was put; so it is under a name.
pub proof fn law_last_entry_is_found(
    list: Seq<(Seq<char>, Seq<char>)>,
    key: Seq<char>,
    other: (Seq<char>, Seq<char>),
)
    ensures
        same_path(other.0, key) ==> under_path(list.push(other), key) == Some(other.1),
        !same_path(other.0, key) ==> under_path(list.push(other), key) == under_path(list, key),
        other.0 == key ==> under_name(list.push(other), key) == Some(other.1),
        other.0 != key ==> under_name(list.push(other), key) == under_name(list, key),
        under_path(Seq::empty(), key) is None,
        under_name(Seq::empty(), key) is None,
{
    assert(list.push(other).drop_last() =~= list);
}

/// The age on a card is what the column is about: how long the agent has been in
/// its state where it waits or is idle, how long it has been quiet where it
/// runs, and how old its record is where it sleeps.
pub proof fn law_age_is_what_the_column_is_about(meta: &CardMeta, a: AgentView, id: Seq<char>)
    ensures
        meta.age(a, Column::RequiresAction) == under_path(pairs(meta.in_state@), a.socket_path),
        meta.age(a, Column::Idle) == under_path(pairs(meta.in_state@), a.socket_path),
        meta.age(a, Column::Running) == under_path(pairs(meta.quiet@), a.socket_path),
        a.session_id == Some(id) ==> meta.age(a, Column::Dormant) == under_name(
            pairs(meta.dormant_age@),
            id,
        ),
        a.session_id is None ==> meta.age(a, Column::Dormant) is None,
        a.session_id == Some(id) ==> meta.moving(a) == under_name(pairs(meta.pending@), id),
{
}

/// A card tells of its agent: its title, cut only where there is no room for it,
/// and its age, then its directory, its kind and whether it is hidden, and what
/// it is doing, or else where it is moving to.
pub proof fn law_card_tells_of_its_agent(
    a: AgentView,
    age: Option<Seq<char>>,
    moving: Option<Seq<char>>,
    width: int,
)
    ensures
        ({
            let l = card_lines(a, age, moving, width);
            &&& a.title matches Some(t) ==> (age matches Some(g) ==> (t.len() + g.len() + 1 <= width
                ==> l[0][0].text == t))
            &&& a.title matches Some(t) ==> (age is None && t.len() + 1 <= width ==> l[0][0].text == t)
            &&& age matches Some(g) ==> l[0][2].text == g
            &&& a.cwd matches Some(c) ==> l[1][0].text == " "@ + leaf(c) + " "@
            &&& a.cwd is None ==> l[1][0].text == " "@ + a.label + " "@
            &&& a.cwd is Some ==> l[1][2].text == " "@ + a.label + " "@
            &&& moving is None ==> (a.activity matches Some(t) ==> (line_width(card_tags(a)) + 2
                + t.len() <= width ==> l[1].last().text == t))
            &&& moving matches Some(m) ==> (line_width(card_tags(a)) + m.len() + 6 <= width
                ==> l[1].last().text == "  → "@ + m + " ⋯"@)
            &&& moving is None && a.activity is None ==> l[1] == card_tags(a)
        }),
        a.origin == Origin::Live && a.hidden ==> card_tags(a).last().text == " hidden "@,
        !(a.origin == Origin::Live && a.hidden) ==> card_tags(a).last().text == " "@ + a.label + " "@,
{
    reveal_strlit("");
    reveal_strlit("  → ");
    reveal_strlit(" ⋯");
    reveal_strlit("hidden");
    reveal_strlit(" hidden ");
    reveal_strlit(" ");
    assert(" "@ + "hidden"@ + " "@ =~= " hidden "@);
}

/// A card is faded exactly where its session sleeps.
pub proof fn law_sleeping_card_is_faded(a: AgentView, age: Option<Seq<char>>, moving: Option<Seq<char>>, width: int)
    ensures
        card_lines(a, age, moving, width)[0][0].style.dim <==> a.origin == Origin::Dormant,
        card_tags(a)[0].style.dim <==> a.origin == Origin::Dormant,
{
}

/// An agent is called by its title and the last component of its directory.
pub proof fn law_agent_is_called_by_title_and_directory(a: AgentView, t: Seq<char>, c: Seq<char>)
    ensures
        a.title == Some(t) && a.cwd == Some(c) ==> called(a) == t + " · "@ + leaf(c),
        a.title is None ==> card_name(a) == "(unnamed)"@,
        a.title == Some(t) ==> card_name(a) == t,
{
}

} // verus!
