//! The jump list: the board's agents grouped by their directory and narrowed by
//! a query and by whether they live.
use vstd::prelude::*;

use crate::model::{agents, Agent, AgentView, Origin};
use crate::order::{distinct, law_distinct};
use crate::text::{
    drop_last_char, embeds, is_subsequence, law_subsequence_is_an_embedding, lower_each, lowered, same,
    shorter, subsequence,
};

verus! {

/// Which agents are listed.
#[derive(Debug, Clone, Copy, PartialEq, Eq, Structural)]
pub enum Filter {
    All,
    Live,
    Dormant,
}

impl Filter {
    pub open spec fn takes(self, origin: Origin) -> bool {
        match self {
            Filter::All => true,
            Filter::Live => origin == Origin::Live,
            Filter::Dormant => origin == Origin::Dormant,
        }
    }

    pub open spec fn following(self) -> Filter {
        match self {
            Filter::All => Filter::Live,
            Filter::Live => Filter::Dormant,
            Filter::Dormant => Filter::All,
        }
    }

    pub open spec fn word(self) -> Seq<char> {
        match self {
            Filter::All => "all"@,
            Filter::Live => "live"@,
            Filter::Dormant => "dormant"@,
        }
    }

    /// Whether agents of an origin are listed.
    pub fn accepts(self, origin: Origin) -> (r: bool)
        ensures
            r == self.takes(origin),
    {
        match self {
            Filter::All => true,
            Filter::Live => origin == Origin::Live,
            Filter::Dormant => origin == Origin::Dormant,
        }
    }

    /// The filter that comes behind this one.
    pub fn next(self) -> (r: Filter)
        ensures
            r == self.following(),
    {
        match self {
            Filter::All => Filter::Live,
            Filter::Live => Filter::Dormant,
            Filter::Dormant => Filter::All,
        }
    }

    pub fn label(self) -> (r: &'static str)
        ensures
            r@ == self.word(),
    {
        match self {
            Filter::All => "all",
            Filter::Live => "live",
            Filter::Dormant => "dormant",
        }
    }
}

/// Every character of the query stands in the candidate in order, letters of
/// either case alike. An empty query fits everything.
pub open spec fn fits(query: Seq<char>, cand: Seq<char>) -> bool {
    subsequence(lowered(query), lowered(cand))
}

/// Whether every character of the query stands in the candidate in order,
/// letters of either case alike.
pub fn fuzzy(query: &str, cand: &str) -> (r: bool)
    ensures
        r == fits(query@, cand@),
{
    let q = lower_each(query);
    let c = lower_each(cand);
    is_subsequence(q.as_str(), c.as_str())
}

/// An empty query fits everything.
pub proof fn law_empty_query_fits(cand: Seq<char>)
    ensures
        fits(Seq::empty(), cand),
{
}

/// A line of the list: a directory, or an agent in it.
pub enum Row<'a> {
    Header(&'a str),
    Agent(&'a Agent),
}

pub enum RowView {
    Header(Seq<char>),
    Agent(AgentView),
}

impl<'a> View for Row<'a> {
    type V = RowView;

    open spec fn view(&self) -> RowView {
        match self {
            Row::Header(s) => RowView::Header(s@),
            Row::Agent(a) => RowView::Agent(a@),
        }
    }
}

/// The lines, by their views.
pub open spec fn row_views<'a>(v: Seq<Row<'a>>) -> Seq<RowView> {
    Seq::new(v.len(), |i: int| v[i]@)
}

/// The directory that an agent is listed under, by its whole path.
pub open spec fn group(a: AgentView) -> Seq<char> {
    match a.cwd {
        Some(c) => c,
        None => "(no dir)"@,
    }
}

/// The directory that an agent is listed under.
pub fn group_of(a: &Agent) -> (r: &str)
    ensures
        r@ == group(a@),
{
    match &a.cwd {
        Some(c) => c.as_str(),
        None => "(no dir)",
    }
}

/// The list and where it stands.
pub struct Picker {
    pub query: String,
    pub filter: Filter,
    /// Which of the listed agents is selected; directories do not count.
    pub selected: usize,
    agents: Vec<Agent>,
}

#[verifier::ext_equal]
pub struct PickerView {
    pub query: Seq<char>,
    pub filter: Filter,
    pub selected: usize,
    pub agents: Seq<AgentView>,
}

impl View for Picker {
    type V = PickerView;

    closed spec fn view(&self) -> PickerView {
        PickerView {
            query: self.query@,
            filter: self.filter,
            selected: self.selected,
            agents: agents(self.agents@),
        }
    }
}

impl PickerView {
    /// An agent is listed: the filter takes it, and the query fits its title or
    /// its path.
    pub open spec fn lists(self, a: AgentView) -> bool {
        let title = match a.title {
            Some(t) => t,
            None => "(unnamed)"@,
        };
        let path = match a.cwd {
            Some(c) => c,
            None => Seq::empty(),
        };
        self.filter.takes(a.origin) && (fits(self.query, title) || fits(self.query, path))
    }

    /// The listed agents, in the order in which they came.
    pub open spec fn listed(self) -> Seq<AgentView> {
        self.agents.filter(|a: AgentView| self.lists(a))
    }

    /// The directories of the listed agents, in the order in which they first
    /// appear.
    pub open spec fn groups(self) -> Seq<Seq<char>> {
        distinct(self.listed().map_values(|a: AgentView| group(a)))
    }

    /// The listed agents of a directory.
    pub open spec fn in_group(self, g: Seq<char>) -> Seq<AgentView> {
        self.listed().filter(|a: AgentView| group(a) == g)
    }

    /// The lines of the first directories: each directory, and its agents below
    /// it.
    pub open spec fn rows_of(self, n: int) -> Seq<RowView>
        decreases n,
    {
        if n <= 0 {
            Seq::empty()
        } else {
            let g = self.groups()[n - 1];
            self.rows_of(n - 1).push(RowView::Header(g)) + self.in_group(g).map_values(
                |a: AgentView| RowView::Agent(a),
            )
        }
    }

    /// The lines of the list.
    pub open spec fn rows(self) -> Seq<RowView> {
        self.rows_of(self.groups().len() as int)
    }

    /// The agents of the first directories, in the order of their lines.
    pub open spec fn order_of(self, n: int) -> Seq<AgentView>
        decreases n,
    {
        if n <= 0 {
            Seq::empty()
        } else {
            self.order_of(n - 1) + self.in_group(self.groups()[n - 1])
        }
    }

    /// The agents in the order of their lines.
    pub open spec fn order(self) -> Seq<AgentView> {
        self.order_of(self.groups().len() as int)
    }
}

/// The view of borrowed agents.
pub open spec fn ref_views<'a>(v: Seq<&'a Agent>) -> Seq<AgentView> {
    Seq::new(v.len(), |i: int| v[i]@)
}

/// The texts of borrowed strings.
pub open spec fn str_views<'a>(v: Seq<&'a str>) -> Seq<Seq<char>> {
    Seq::new(v.len(), |i: int| v[i]@)
}

impl Picker {
    /// A list of agents, in the order of the board, with nothing narrowed.
    pub fn new(list: Vec<Agent>) -> (r: Self)
        ensures
            r@ == (PickerView {
                query: Seq::empty(),
                filter: Filter::All,
                selected: 0,
                agents: agents(list@),
            }),
    {
        Picker { query: String::new(), filter: Filter::All, selected: 0, agents: list }
    }

    /// Whether an agent is listed.
    pub fn survives(&self, a: &Agent) -> (r: bool)
        ensures
            r == self@.lists(a@),
    {
        if !self.filter.accepts(a.origin) {
            return false;
        }
        let title = match &a.title {
            Some(t) => t.as_str(),
            None => "(unnamed)",
        };
        proof {
            reveal_strlit("");
            assert(""@ =~= Seq::<char>::empty());
        }
        let path = match &a.cwd {
            Some(c) => c.as_str(),
            None => "",
        };
        fuzzy(self.query.as_str(), title) || fuzzy(self.query.as_str(), path)
    }

    fn survivors(&self) -> (r: Vec<&Agent>)
        ensures
            ref_views(r@) == self@.listed(),
    {
        let ghost all = self@.agents;
        let ghost keep = |a: AgentView| self@.lists(a);
        let mut out: Vec<&Agent> = Vec::new();
        let mut i: usize = 0;
        proof {
            reveal(Seq::filter);
            assert(ref_views(out@) =~= all.take(0).filter(keep));
        }
        while i < self.agents.len()
            invariant
                i <= self.agents@.len(),
                all == self@.agents,
                all == agents(self.agents@),
                keep == (|a: AgentView| self@.lists(a)),
                ref_views(out@) == all.take(i as int).filter(keep),
            decreases self.agents@.len() - i,
        {
            proof {
                reveal(Seq::filter);
                assert(all.take(i + 1).drop_last() =~= all.take(i as int));
                assert(all.take(i + 1).last() == self.agents@[i as int]@);
            }
            let ghost was = out@;
            let a = &self.agents[i];
            if self.survives(a) {
                out.push(a);
                assert(ref_views(out@) =~= ref_views(was).push(a@));
            }
            i = i + 1;
        }
        assert(all.take(all.len() as int) =~= all);
        out
    }

    fn has_group(names: &Vec<&str>, g: &str) -> (r: bool)
        ensures
            r == str_views(names@).contains(g@),
    {
        let mut i: usize = 0;
        while i < names.len()
            invariant
                i <= names@.len(),
                forall|k: int| 0 <= k < i ==> str_views(names@)[k] != g@,
            decreases names@.len() - i,
        {
            assert(str_views(names@)[i as int] == names@[i as int]@);
            if same(names[i], g) {
                return true;
            }
            i = i + 1;
        }
        false
    }

    fn group_names<'a>(list: &Vec<&'a Agent>) -> (r: Vec<&'a str>)
        ensures
            str_views(r@) == distinct(ref_views(list@).map_values(|a: AgentView| group(a))),
    {
        let ghost all = ref_views(list@).map_values(|a: AgentView| group(a));
        let mut names: Vec<&'a str> = Vec::new();
        let mut i: usize = 0;
        assert(str_views(names@) =~= distinct(all.take(0)));
        while i < list.len()
            invariant
                i <= list@.len(),
                all == ref_views(list@).map_values(|a: AgentView| group(a)),
                str_views(names@) == distinct(all.take(i as int)),
            decreases list@.len() - i,
        {
            let g = group_of(list[i]);
            proof {
                assert(all.take(i + 1).drop_last() =~= all.take(i as int));
                assert(all.take(i + 1).last() == g@);
            }
            let ghost was = names@;
            if !Self::has_group(&names, g) {
                names.push(g);
                assert(str_views(names@) =~= str_views(was).push(g@));
            }
            i = i + 1;
        }
        assert(all.take(all.len() as int) =~= all);
        names
    }

    fn members<'a>(list: &Vec<&'a Agent>, g: &str) -> (r: Vec<&'a Agent>)
        ensures
            ref_views(r@) == ref_views(list@).filter(|a: AgentView| group(a) == g@),
    {
        let ghost all = ref_views(list@);
        let ghost keep = |a: AgentView| group(a) == g@;
        let mut out: Vec<&'a Agent> = Vec::new();
        let mut i: usize = 0;
        proof {
            reveal(Seq::filter);
            assert(ref_views(out@) =~= all.take(0).filter(keep));
        }
        while i < list.len()
            invariant
                i <= list@.len(),
                all == ref_views(list@),
                keep == (|a: AgentView| group(a) == g@),
                ref_views(out@) == all.take(i as int).filter(keep),
            decreases list@.len() - i,
        {
            proof {
                reveal(Seq::filter);
                assert(all.take(i + 1).drop_last() =~= all.take(i as int));
                assert(all.take(i + 1).last() == list@[i as int]@);
            }
            let ghost was = out@;
            if same(group_of(list[i]), g) {
                out.push(list[i]);
                assert(ref_views(out@) =~= ref_views(was).push(list@[i as int]@));
            }
            i = i + 1;
        }
        assert(all.take(all.len() as int) =~= all);
        out
    }

    /// The lines of the list: each directory and its agents, the directories in
    /// the order in which they first appear.
    pub fn rows(&self) -> (r: Vec<Row<'_>>)
        ensures
            row_views(r@) == self@.rows(),
    {
        let list = self.survivors();
        let names = Self::group_names(&list);
        let mut out: Vec<Row<'_>> = Vec::new();
        let mut i: usize = 0;
        assert(row_views(out@) =~= self@.rows_of(0));
        while i < names.len()
            invariant
                i <= names@.len(),
                ref_views(list@) == self@.listed(),
                str_views(names@) == self@.groups(),
                row_views(out@) == self@.rows_of(i as int),
            decreases names@.len() - i,
        {
            let g = names[i];
            assert(self@.groups()[i as int] == g@);
            let m = Self::members(&list, g);
            let ghost was = out@;
            out.push(Row::Header(g));
            assert(row_views(out@) =~= row_views(was).push(RowView::Header(g@)));
            let ghost base = out@;
            let mut j: usize = 0;
            while j < m.len()
                invariant
                    j <= m@.len(),
                    row_views(out@) =~= row_views(base) + ref_views(m@).take(j as int).map_values(
                        |a: AgentView| RowView::Agent(a),
                    ),
                decreases m@.len() - j,
            {
                let ghost w = out@;
                out.push(Row::Agent(m[j]));
                assert(row_views(out@) =~= row_views(w).push(RowView::Agent(m@[j as int]@)));
                j = j + 1;
            }
            assert(ref_views(m@).take(m@.len() as int) =~= ref_views(m@));
            assert(row_views(out@) =~= self@.rows_of(i + 1));
            i = i + 1;
        }
        assert(str_views(names@).len() == names@.len());
        out
    }

    fn agent_order(&self) -> (r: Vec<&Agent>)
        ensures
            ref_views(r@) == self@.order(),
    {
        let list = self.survivors();
        let names = Self::group_names(&list);
        let mut out: Vec<&Agent> = Vec::new();
        let mut i: usize = 0;
        assert(ref_views(out@) =~= self@.order_of(0));
        while i < names.len()
            invariant
                i <= names@.len(),
                ref_views(list@) == self@.listed(),
                str_views(names@) == self@.groups(),
                ref_views(out@) == self@.order_of(i as int),
            decreases names@.len() - i,
        {
            let g = names[i];
            assert(self@.groups()[i as int] == g@);
            let m = Self::members(&list, g);
            let ghost base = out@;
            let mut j: usize = 0;
            while j < m.len()
                invariant
                    j <= m@.len(),
                    ref_views(out@) =~= ref_views(base) + ref_views(m@).take(j as int),
                decreases m@.len() - j,
            {
                let ghost w = out@;
                out.push(m[j]);
                assert(ref_views(out@) =~= ref_views(w).push(m@[j as int]@));
                j = j + 1;
            }
            assert(ref_views(m@).take(m@.len() as int) =~= ref_views(m@));
            assert(ref_views(out@) =~= self@.order_of(i + 1));
            i = i + 1;
        }
        assert(str_views(names@).len() == names@.len());
        out
    }

    /// The selected agent, if there is one.
    pub fn selected_agent(&self) -> (r: Option<&Agent>)
        ensures
            match r {
                Some(a) => self@.selected < self@.order().len() && a@ == self@.order()[self@.selected as int],
                None => self@.selected >= self@.order().len(),
            },
    {
        let order = self.agent_order();
        assert(ref_views(order@).len() == order@.len());
        if self.selected < order.len() {
            assert(ref_views(order@)[self.selected as int] == order@[self.selected as int]@);
            Some(order[self.selected])
        } else {
            None
        }
    }

    pub fn filter_label(&self) -> (r: &'static str)
        ensures
            r@ == self@.filter.word(),
    {
        self.filter.label()
    }

    /// Adds a character to the query, and selects the first agent.
    pub fn push(&mut self, ch: char)
        ensures
            final(self)@ == (PickerView { query: old(self)@.query.push(ch), selected: 0, ..old(self)@ }),
    {
        self.query.push(ch);
        self.selected = 0;
    }

    /// Takes the last character off the query, and selects the first agent.
    pub fn backspace(&mut self)
        ensures
            final(self)@ == (PickerView { query: shorter(old(self)@.query), selected: 0, ..old(self)@ }),
    {
        self.query = drop_last_char(self.query.as_str());
        self.selected = 0;
    }

    /// Changes to the next filter, and selects the first agent.
    pub fn cycle_filter(&mut self)
        ensures
            final(self)@ == (PickerView {
                filter: old(self)@.filter.following(),
                selected: 0,
                ..old(self)@
            }),
    {
        self.filter = self.filter.next();
        self.selected = 0;
    }

    pub fn up(&mut self)
        ensures
            final(self)@ == (PickerView {
                selected: if old(self)@.selected > 0 {
                    (old(self)@.selected - 1) as usize
                } else {
                    0
                },
                ..old(self)@
            }),
            final(self)@.selected == stepped_up(old(self)@.selected),
    {
        if self.selected > 0 {
            self.selected = self.selected - 1;
        }
    }

    /// Selects the next agent, the last staying selected.
    pub fn down(&mut self)
        ensures
            final(self)@ == (PickerView {
                selected: ({
                    let n = old(self)@.order().len();
                    if n == 0 {
                        old(self)@.selected
                    } else if old(self)@.selected + 1 < n {
                        (old(self)@.selected + 1) as usize
                    } else {
                        (n - 1) as usize
                    }
                }),
                ..old(self)@
            }),
            final(self)@.selected == stepped_down(old(self)@.selected, old(self)@.order().len()),
    {
        let order = self.agent_order();
        assert(ref_views(order@).len() == order@.len());
        let n: usize = order.len();
        if n > 0 {
            if self.selected < n - 1 {
                self.selected = self.selected + 1;
            } else {
                self.selected = n - 1;
            }
        }
    }
}

proof fn lemma_filter_count<A>(s: Seq<A>, p: spec_fn(A) -> bool, x: A)
    ensures
        s.filter(p).to_multiset().count(x) == (if p(x) {
            s.to_multiset().count(x)
        } else {
            0
        }),
    decreases s.len(),
{
    broadcast use vstd::seq_lib::group_to_multiset_ensures;

    reveal(Seq::filter);
    if s.len() > 0 {
        lemma_filter_count(s.drop_last(), p, x);
        assert(s =~= s.drop_last().push(s.last()));
        assert(s.to_multiset() =~= s.drop_last().to_multiset().insert(s.last()));
        if p(s.last()) {
            assert(s.filter(p) =~= s.drop_last().filter(p).push(s.last()));
        }
    } else {
        assert(s.filter(p) =~= s);
        assert(s.to_multiset().count(x) == 0);
    }
}

proof fn lemma_order_count(v: PickerView, n: int, x: AgentView)
    requires
        0 <= n <= v.groups().len(),
    ensures
        v.order_of(n).to_multiset().count(x) == (if v.groups().take(n).contains(group(x)) {
            v.listed().to_multiset().count(x)
        } else {
            0
        }),
    decreases n,
{
    broadcast use vstd::seq_lib::group_to_multiset_ensures;

    let gs = v.groups();
    law_distinct(v.listed().map_values(|a: AgentView| group(a)));
    if n > 0 {
        lemma_order_count(v, n - 1, x);
        let g = gs[n - 1];
        lemma_filter_count(v.listed(), |a: AgentView| group(a) == g, x);
        vstd::seq_lib::lemma_multiset_commutative(v.order_of(n - 1), v.in_group(g));
        assert(v.order_of(n).to_multiset().count(x) == v.order_of(n - 1).to_multiset().count(x) + v.in_group(
            g,
        ).to_multiset().count(x));
        if gs.take(n - 1).contains(group(x)) {
            let sub = gs.take(n - 1);
            let i = choose|i: int| 0 <= i < sub.len() && sub[i] == group(x);
            assert(gs[i] == group(x));
            assert(gs.take(n)[i] == group(x));
            assert(group(x) != g);
        } else if group(x) == g {
            assert(gs.take(n)[n - 1] == g);
        } else if gs.take(n).contains(group(x)) {
            let i = choose|i: int| 0 <= i < gs.take(n).len() && gs.take(n)[i] == group(x);
            assert(gs.take(n - 1)[i] == group(x));
        }
    } else {
        assert(v.order_of(n).to_multiset().count(x) == 0) by {
            assert(v.order_of(n) =~= Seq::<AgentView>::empty());
            assert(!Seq::<AgentView>::empty().contains(x));
        }
    }
}

/// Grouping loses no agent and doubles none: the agents in the order of their
/// lines are those that the filter and the query leave.
pub proof fn law_every_listed_agent_has_one_line(v: PickerView)
    ensures
        v.order().to_multiset() =~= v.listed().to_multiset(),
{
    broadcast use vstd::seq_lib::group_to_multiset_ensures;

    let gs = v.groups();
    let names = v.listed().map_values(|a: AgentView| group(a));
    law_distinct(names);
    assert(gs.take(gs.len() as int) =~= gs);
    assert forall|x: AgentView| v.order().to_multiset().count(x) == v.listed().to_multiset().count(x) by {
        lemma_order_count(v, gs.len() as int, x);
        if v.listed().to_multiset().count(x) > 0 {
            assert(v.listed().contains(x));
            let i = choose|i: int| 0 <= i < v.listed().len() && v.listed()[i] == x;
            assert(names[i] == group(x));
            assert(names.contains(group(x)));
            assert(gs.contains(group(x)));
        }
    }
}

/// The agents of the first lines, the directories left out.
pub open spec fn agents_in(rows: Seq<RowView>) -> Seq<AgentView>
    decreases rows.len(),
{
    if rows.len() == 0 {
        Seq::empty()
    } else {
        match rows.last() {
            RowView::Agent(a) => agents_in(rows.drop_last()).push(a),
            RowView::Header(_) => agents_in(rows.drop_last()),
        }
    }
}

proof fn lemma_agents_in_append(rows: Seq<RowView>, list: Seq<AgentView>)
    ensures
        agents_in(rows + list.map_values(|a: AgentView| RowView::Agent(a))) == agents_in(rows) + list,
    decreases list.len(),
{
    let f = |a: AgentView| RowView::Agent(a);
    let all = rows + list.map_values(f);
    if list.len() > 0 {
        lemma_agents_in_append(rows, list.drop_last());
        assert(all.drop_last() =~= rows + list.drop_last().map_values(f));
        assert(agents_in(rows) + list.drop_last() =~= (agents_in(rows) + list).drop_last());
        assert(agents_in(all) =~= agents_in(rows) + list);
    } else {
        assert(all =~= rows);
        assert(agents_in(rows) + list =~= agents_in(rows));
    }
}

proof fn lemma_rows_order(v: PickerView, n: int)
    ensures
        agents_in(v.rows_of(n)) == v.order_of(n),
    decreases n,
{
    if n > 0 {
        lemma_rows_order(v, n - 1);
        let g = v.groups()[n - 1];
        let head = v.rows_of(n - 1).push(RowView::Header(g));
        assert(head.drop_last() =~= v.rows_of(n - 1));
        lemma_agents_in_append(head, v.in_group(g));
    }
}

/// The selection counts agents only: what is selected is an agent's line, never
/// a directory's.
pub proof fn law_selection_skips_directories(v: PickerView)
    ensures
        agents_in(v.rows()) == v.order(),
{
    lemma_rows_order(v, v.groups().len() as int);
}

/// A filter takes what it is named for, and the next one comes round after all
/// three.
pub proof fn law_filter_takes_what_it_is_named_for(f: Filter, origin: Origin)
    ensures
        Filter::All.takes(origin),
        Filter::Live.takes(origin) <==> origin == Origin::Live,
        Filter::Dormant.takes(origin) <==> origin == Origin::Dormant,
        Filter::All.word() == "all"@,
        Filter::Live.word() == "live"@,
        Filter::Dormant.word() == "dormant"@,
        f.following() != f,
        f.following().following() != f,
        f.following().following().following() == f,
        Filter::All.following() == Filter::Live,
{
}

/// An agent is listed exactly where the filter takes it and the query is found,
/// letters in order and case aside, in its title or in its directory; one without
/// a title is called unnamed. An empty query lists all that the filter takes.
pub proof fn law_agent_is_listed_by_title_or_directory(v: PickerView, a: AgentView, t: Seq<char>, d: Seq<char>)
    ensures
        v.lists(a) ==> v.filter.takes(a.origin),
        v.filter.takes(a.origin) && a.title == Some(t) && fits(v.query, t) ==> v.lists(a),
        v.filter.takes(a.origin) && a.cwd == Some(d) && fits(v.query, d) ==> v.lists(a),
        a.title == Some(t) && a.cwd == Some(d) && !fits(v.query, t) && !fits(v.query, d) ==> !v.lists(a),
        a.title is None && fits(v.query, "(unnamed)"@) && v.filter.takes(a.origin) ==> v.lists(a),
        v.query.len() == 0 && v.filter.takes(a.origin) ==> v.lists(a),
        v.listed().contains(a) <==> v.agents.contains(a) && v.lists(a),
{
    let p = |x: AgentView| v.lists(x);
    let s = v.agents;
    if s.contains(a) && p(a) {
        let k = choose|k: int| 0 <= k < s.len() && s[k] == a;
        s.lemma_filter_contains(p, k);
    }
    if v.listed().contains(a) {
        let k = choose|k: int| 0 <= k < v.listed().len() && v.listed()[k] == a;
        s.lemma_filter_pred(p, k);
        s.lemma_filter_contains_rev(p, a);
    }
    if v.query.len() == 0 {
        assert(v.query =~= Seq::empty());
        law_empty_query_fits(
            match a.title {
                Some(t) => t,
                None => "(unnamed)"@,
            },
        );
    }
}

/// A query is found in a text exactly where its letters, case aside, stand in it
/// at increasing places.
pub proof fn law_query_fits_where_its_letters_stand(query: Seq<char>, cand: Seq<char>)
    ensures
        fits(query, cand) <==> exists|at: Seq<int>| embeds(lowered(query), lowered(cand), at),
{
    law_subsequence_is_an_embedding(lowered(query), lowered(cand));
}

/// The selection a step up; it stops at the top.
pub open spec fn stepped_up(selected: usize) -> usize {
    if selected > 0 {
        (selected - 1) as usize
    } else {
        0
    }
}

/// The selection a step down a list of `n`; it stops at the bottom.
pub open spec fn stepped_down(selected: usize, n: nat) -> usize {
    if n == 0 {
        selected
    } else if selected + 1 < n {
        (selected + 1) as usize
    } else {
        (n - 1) as usize
    }
}

/// A step down is undone by a step up and the other way round, but at the ends of
/// the list, where neither leads off it.
pub proof fn law_steps_undo_each_other(selected: usize, n: nat)
    requires
        selected < n <= usize::MAX,
    ensures
        stepped_down(selected, n) < n,
        stepped_up(selected) < n,
        selected + 1 < n ==> stepped_down(selected, n) == selected + 1 && stepped_up(
            stepped_down(selected, n),
        ) == selected,
        selected > 0 ==> stepped_up(selected) == selected - 1 && stepped_down(stepped_up(selected), n)
            == selected,
        selected + 1 == n ==> stepped_down(selected, n) == selected,
        stepped_up(0) == 0,
{
}

/// A directory stands once above its agents, which follow it in their order, and
/// the directories stand in the order in which the agents first name them.
pub proof fn law_directory_stands_above_its_agents(v: PickerView, n: int, k: int)
    requires
        0 < n <= v.groups().len(),
    ensures
        ({
            let at = v.rows_of(n - 1).len() as int;
            let g = v.groups()[n - 1];
            &&& v.rows_of(n).len() == at + 1 + v.in_group(g).len()
            &&& v.rows_of(n).subrange(0, at) == v.rows_of(n - 1)
            &&& v.rows_of(n)[at] == RowView::Header(g)
            &&& 0 <= k < v.in_group(g).len() ==> v.rows_of(n)[at + 1 + k] == RowView::Agent(
                v.in_group(g)[k],
            )
        }),
        v.groups().no_duplicates(),
{
    let at = v.rows_of(n - 1).len() as int;
    assert(v.rows_of(n).subrange(0, at) =~= v.rows_of(n - 1));
    law_distinct(v.listed().map_values(|a: AgentView| group(a)));
}

/// An agent stands under its own directory, and one without a directory under
/// a heading that says so.
pub proof fn law_agent_stands_under_its_directory(v: PickerView, g: Seq<char>, a: AgentView)
    ensures
        v.in_group(g).contains(a) <==> v.listed().contains(a) && (a.cwd == Some(g) || (a.cwd is None && g
            == "(no dir)"@)),
{
    let p = |x: AgentView| group(x) == g;
    let s = v.listed();
    let r = s.filter(p);
    if s.contains(a) && p(a) {
        let k = choose|k: int| 0 <= k < s.len() && s[k] == a;
        s.lemma_filter_contains(p, k);
    }
    if r.contains(a) {
        let k = choose|k: int| 0 <= k < r.len() && r[k] == a;
        s.lemma_filter_pred(p, k);
        s.lemma_filter_contains_rev(p, a);
    }
}

} // verus!
