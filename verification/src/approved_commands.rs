//! The approved-command store: which launch commands of an agent kind the
//! operator has registered, and whether a record fits them.
use vstd::prelude::*;

use crate::discovery::{opt_as_str, RecordView, RegistryEntry};
use crate::json::{
    json_parse, json_pretty, lemma_storable_shallow, lemma_str_array_storable, lemma_strs_of_str_array, members, parse, print_pretty, storable,
    str_array, Json, JsonView, ObjectBuilder,
};
use crate::launch::opt_str;
use crate::text::{
    before, copy_opt_string, copy_opt_strings, is_before, lemma_before_irreflexive, lemma_before_total, lemma_before_transitive, opt_text, opt_texts, same,
    same_opt, same_opt_list, texts,
};

verus! {

/// Stands for a record's own session id in a template.
pub const SESSION_PLACEHOLDER: &'static str = "{sessionId}";

/// Stands for a record's own directory in a template.
pub const CWD_PLACEHOLDER: &'static str = "{cwd}";

/// An argument with the record's own values taken out.
pub open spec fn normalized_arg(a: Seq<char>, session_id: Seq<char>, cwd: Option<Seq<char>>) -> Seq<
    char,
> {
    if a == session_id {
        "{sessionId}"@
    } else if cwd == Some(a) {
        "{cwd}"@
    } else {
        a
    }
}

/// A command with the record's own values taken out.
pub open spec fn normalized(
    argv: Seq<Seq<char>>,
    session_id: Seq<char>,
    cwd: Option<Seq<char>>,
) -> Seq<Seq<char>> {
    argv.map_values(|a: Seq<char>| normalized_arg(a, session_id, cwd))
}

/// A template's argument with the record's own values put in; without a
/// directory the placeholder becomes empty.
pub open spec fn denormalized_arg(
    a: Seq<char>,
    session_id: Seq<char>,
    cwd: Option<Seq<char>>,
) -> Seq<char> {
    if a == "{sessionId}"@ {
        session_id
    } else if a == "{cwd}"@ {
        match cwd {
            Some(c) => c,
            None => Seq::empty(),
        }
    } else {
        a
    }
}

/// A template with the record's own values put in.
pub open spec fn denormalized(
    template: Seq<Seq<char>>,
    session_id: Seq<char>,
    cwd: Option<Seq<char>>,
) -> Seq<Seq<char>> {
    template.map_values(|a: Seq<char>| denormalized_arg(a, session_id, cwd))
}

/// Replaces a record's own session id and directory in an argv.
pub fn normalize(argv: &Vec<String>, session_id: &str, cwd: Option<&str>) -> (r: Vec<String>)
    ensures
        texts(r@) == normalized(texts(argv@), session_id@, opt_str(cwd)),
{
    let mut out: Vec<String> = Vec::new();
    let mut i: usize = 0;
    while i < argv.len()
        invariant
            i <= argv@.len(),
            out@.len() == i,
            forall|j: int|
                0 <= j < i ==> (#[trigger] out@[j])@ == normalized_arg(
                    argv@[j]@,
                    session_id@,
                    opt_str(cwd),
                ),
        decreases argv@.len() - i,
    {
        let a = argv[i].as_str();
        let own_cwd = match cwd {
            Some(c) => same(c, a),
            None => false,
        };
        if same(a, session_id) {
            out.push(SESSION_PLACEHOLDER.to_owned());
        } else if own_cwd {
            out.push(CWD_PLACEHOLDER.to_owned());
        } else {
            out.push(a.to_owned());
        }
        i = i + 1;
    }
    assert(texts(out@) =~= normalized(texts(argv@), session_id@, opt_str(cwd)));
    out
}

/// Builds the real argv from a template.
pub fn denormalize(template: &Vec<String>, session_id: &str, cwd: Option<&str>) -> (r: Vec<String>)
    ensures
        texts(r@) == denormalized(texts(template@), session_id@, opt_str(cwd)),
{
    let mut out: Vec<String> = Vec::new();
    let mut i: usize = 0;
    while i < template.len()
        invariant
            i <= template@.len(),
            out@.len() == i,
            forall|j: int|
                0 <= j < i ==> (#[trigger] out@[j])@ == denormalized_arg(
                    template@[j]@,
                    session_id@,
                    opt_str(cwd),
                ),
        decreases template@.len() - i,
    {
        let a = template[i].as_str();
        if same(a, SESSION_PLACEHOLDER) {
            out.push(session_id.to_owned());
        } else if same(a, CWD_PLACEHOLDER) {
            match cwd {
                Some(c) => out.push(c.to_owned()),
                None => out.push(String::new()),
            }
        } else {
            out.push(a.to_owned());
        }
        i = i + 1;
    }
    assert(texts(out@) =~= denormalized(texts(template@), session_id@, opt_str(cwd)));
    out
}

// ---------------------------------------------------------------------------
// Normalizing there and back
// ---------------------------------------------------------------------------
/// An argument that no placeholder can be confused with.
pub open spec fn no_placeholder(a: Seq<char>) -> bool {
    a != "{sessionId}"@ && a != "{cwd}"@
}

/// A command is a template with a session's id and directory filled in: argument
/// by argument the same, but for the two placeholders.
pub open spec fn filled_in(
    command: Seq<Seq<char>>,
    template: Seq<Seq<char>>,
    session_id: Seq<char>,
    cwd: Seq<char>,
) -> bool {
    &&& command.len() == template.len()
    &&& forall|i: int|
        #![trigger command[i]]
        0 <= i < template.len() ==> {
            &&& template[i] == "{sessionId}"@ ==> command[i] == session_id
            &&& template[i] == "{cwd}"@ ==> command[i] == cwd
            &&& no_placeholder(template[i]) ==> command[i] == template[i]
        }
}

/// What comes of a template is the template with the session's id and directory
/// filled in, an unknown directory as nothing.
pub proof fn law_template_is_filled_in(
    template: Seq<Seq<char>>,
    session_id: Seq<char>,
    cwd: Option<Seq<char>>,
)
    ensures
        filled_in(
            denormalized(template, session_id, cwd),
            template,
            session_id,
            if cwd is Some {
                cwd->0
            } else {
                Seq::empty()
            },
        ),
{
    reveal_strlit("{sessionId}");
    reveal_strlit("{cwd}");
    assert("{sessionId}"@.len() != "{cwd}"@.len());
}

/// What a command is kept as has the session's id and directory taken out: each
/// argument is one of them and stands as its placeholder, the id first where
/// the two are the same, or is neither and stands as it was.
pub proof fn law_template_names_no_session(
    argv: Seq<Seq<char>>,
    session_id: Seq<char>,
    cwd: Option<Seq<char>>,
    i: int,
)
    requires
        0 <= i < argv.len(),
    ensures
        normalized(argv, session_id, cwd).len() == argv.len(),
        argv[i] == session_id ==> normalized(argv, session_id, cwd)[i] == "{sessionId}"@,
        argv[i] != session_id && cwd == Some(argv[i]) ==> normalized(argv, session_id, cwd)[i]
            == "{cwd}"@,
        argv[i] != session_id && cwd != Some(argv[i]) ==> normalized(argv, session_id, cwd)[i]
            == argv[i],
{
}

/// Filling a template that was made from a command gives the command back,
/// unless the command itself holds a placeholder.
pub proof fn law_normalize_round_trip(
    argv: Seq<Seq<char>>,
    session_id: Seq<char>,
    cwd: Option<Seq<char>>,
)
    requires
        forall|i: int| 0 <= i < argv.len() ==> no_placeholder(#[trigger] argv[i]),
    ensures
        denormalized(normalized(argv, session_id, cwd), session_id, cwd) == argv,
{
    lemma_placeholders_differ();
    assert forall|i: int| 0 <= i < argv.len() implies #[trigger] denormalized(
        normalized(argv, session_id, cwd),
        session_id,
        cwd,
    )[i] == argv[i] by {
        assert(no_placeholder(argv[i]));
    }
    assert(denormalized(normalized(argv, session_id, cwd), session_id, cwd) =~= argv);
}

proof fn lemma_placeholders_differ()
    ensures
        "{sessionId}"@ != "{cwd}"@,
{
    reveal_strlit("{sessionId}");
    reveal_strlit("{cwd}");
    assert("{sessionId}"@.len() != "{cwd}"@.len());
}

/// A session's own values can be told from what stands in a template: neither
/// stands there, they differ, and a session without a directory needs none.
pub open spec fn told_apart(template: Seq<Seq<char>>, session_id: Seq<char>, cwd: Option<Seq<char>>) -> bool {
    &&& !template.contains(session_id)
    &&& match cwd {
        Some(c) => !template.contains(c) && c != session_id,
        None => !template.contains("{cwd}"@),
    }
}

/// Two sessions of one kind, whose commands differ only in their own ids and
/// directories, normalize to one template: the one that their commands fill.
pub proof fn law_sessions_share_template(
    template: Seq<Seq<char>>,
    sid_a: Seq<char>,
    cwd_a: Option<Seq<char>>,
    sid_b: Seq<char>,
    cwd_b: Option<Seq<char>>,
)
    requires
        told_apart(template, sid_a, cwd_a),
        told_apart(template, sid_b, cwd_b),
    ensures
        normalized(denormalized(template, sid_a, cwd_a), sid_a, cwd_a) == template,
        normalized(denormalized(template, sid_a, cwd_a), sid_a, cwd_a) == normalized(
            denormalized(template, sid_b, cwd_b),
            sid_b,
            cwd_b,
        ),
{
    lemma_filled_template(template, sid_a, cwd_a);
    lemma_filled_template(template, sid_b, cwd_b);
}

proof fn lemma_filled_template(template: Seq<Seq<char>>, sid: Seq<char>, cwd: Option<Seq<char>>)
    requires
        told_apart(template, sid, cwd),
    ensures
        normalized(denormalized(template, sid, cwd), sid, cwd) == template,
{
    let n = normalized(denormalized(template, sid, cwd), sid, cwd);
    assert forall|i: int| 0 <= i < template.len() implies n[i] == template[i] by {
        assert(template.contains(template[i]));
    }
    assert(n =~= template);
}

// ---------------------------------------------------------------------------
// Templates and the store
// ---------------------------------------------------------------------------
/// The launch options approved for one kind. A mode that was never approved has
/// no command.
#[derive(Debug, PartialEq, Eq)]
pub struct Template {
    pub spawn: Option<Vec<String>>,
    pub resume: Option<Vec<String>>,
    pub gui: bool,
    pub message_flag: Option<String>,
}

/// What a template holds.
#[verifier::ext_equal]
pub struct TemplateView {
    pub spawn: Option<Seq<Seq<char>>>,
    pub resume: Option<Seq<Seq<char>>>,
    pub gui: bool,
    pub message_flag: Option<Seq<char>>,
}

impl View for Template {
    type V = TemplateView;

    open spec fn view(&self) -> TemplateView {
        TemplateView {
            spawn: opt_texts(self.spawn),
            resume: opt_texts(self.resume),
            gui: self.gui,
            message_flag: opt_text(self.message_flag),
        }
    }
}

impl Clone for Template {
    fn clone(&self) -> (r: Self)
        ensures
            r@ == self@,
    {
        Template {
            spawn: copy_opt_strings(&self.spawn),
            resume: copy_opt_strings(&self.resume),
            gui: self.gui,
            message_flag: copy_opt_string(&self.message_flag),
        }
    }
}

impl Default for Template {
    fn default() -> (r: Self)
        ensures
            r@ == (TemplateView { spawn: None, resume: None, gui: false, message_flag: None }),
    {
        Template { spawn: None, resume: None, gui: false, message_flag: None }
    }
}

impl Template {
    /// Whether two templates are the same.
    pub fn same(&self, other: &Template) -> (r: bool)
        ensures
            r == (self@ == other@),
    {
        same_opt_list(&self.spawn, &other.spawn) && same_opt_list(&self.resume, &other.resume)
            && self.gui == other.gui && same_opt(&self.message_flag, &other.message_flag)
    }
}

/// The store: the approved template of each registered kind.
#[derive(Debug, PartialEq, Eq)]
pub struct Approved {
    entries: Vec<(String, Template)>,
}

spec fn entry_at(e: Seq<(String, Template)>, label: Seq<char>, i: int) -> bool {
    0 <= i < e.len() && e[i].0@ == label
}

spec fn ordered(e: Seq<(String, Template)>) -> bool {
    forall|i: int, j: int| 0 <= i < j < e.len() ==> before(#[trigger] e[i].0@, #[trigger] e[j].0@)
}

spec fn store_map(e: Seq<(String, Template)>) -> Map<Seq<char>, TemplateView> {
    Map::new(
        |k: Seq<char>| exists|i: int| entry_at(e, k, i),
        |k: Seq<char>| e[choose|i: int| entry_at(e, k, i)].1@,
    )
}

proof fn lemma_store_at(e: Seq<(String, Template)>, i: int)
    requires
        ordered(e),
        0 <= i < e.len(),
    ensures
        store_map(e).dom().contains(e[i].0@),
        store_map(e)[e[i].0@] == e[i].1@,
{
    let k = e[i].0@;
    assert(entry_at(e, k, i));
    let j = choose|j: int| entry_at(e, k, j);
    lemma_before_irreflexive(k);
    if j < i {
        assert(before(e[j].0@, e[i].0@));
    }
    if i < j {
        assert(before(e[i].0@, e[j].0@));
    }
}

/// The map after one entry was put in its place.
proof fn lemma_store_put(e: Seq<(String, Template)>, f: Seq<(String, Template)>, i: int, fresh: bool)
    requires
        ordered(e),
        ordered(f),
        0 <= i < f.len(),
        fresh ==> f.remove(i) == e,
        !fresh ==> e.len() == f.len() && e[i].0@ == f[i].0@ && forall|j: int|
            0 <= j < e.len() && j != i ==> e[j] == f[j],
    ensures
        store_map(f) == store_map(e).insert(f[i].0@, f[i].1@),
{
    let a = store_map(f);
    let b = store_map(e).insert(f[i].0@, f[i].1@);
    lemma_store_at(f, i);
    assert forall|k: Seq<char>| #[trigger] a.dom().contains(k) == b.dom().contains(k) && (
    a.dom().contains(k) ==> a[k] == b[k]) by {
        if a.dom().contains(k) {
            let j = choose|j: int| entry_at(f, k, j);
            lemma_store_at(f, j);
            if j != i {
                lemma_before_irreflexive(k);
                if j < i {
                    assert(before(f[j].0@, f[i].0@));
                } else {
                    assert(before(f[i].0@, f[j].0@));
                }
                let p = if fresh && j > i {
                    j - 1
                } else {
                    j
                };
                if fresh {
                    assert(f.remove(i)[p] == f[j]);
                }
                assert(e[p] == f[j]);
                lemma_store_at(e, p);
            }
        }
        if b.dom().contains(k) && k != f[i].0@ {
            let p = choose|p: int| entry_at(e, k, p);
            let j = if fresh && p >= i {
                p + 1
            } else {
                p
            };
            if fresh {
                assert(f.remove(i)[p] == f[j]);
            } else {
                assert(p != i);
            }
            assert(entry_at(f, k, j));
        }
    }
    assert(a =~= b);
}

impl View for Approved {
    type V = Map<Seq<char>, TemplateView>;

    closed spec fn view(&self) -> Map<Seq<char>, TemplateView> {
        store_map(self.entries@)
    }
}

impl Approved {
    #[verifier::type_invariant]
    spec fn inv(self) -> bool {
        ordered(self.entries@)
    }

    /// The empty store.
    pub fn new() -> (r: Self)
        ensures
            r@ == Map::<Seq<char>, TemplateView>::empty(),
    {
        let r = Approved { entries: Vec::new() };
        assert(r@ =~= Map::<Seq<char>, TemplateView>::empty());
        r
    }

    /// Whether no kind is registered.
    pub fn is_empty(&self) -> (r: bool)
        ensures
            r == (self@ == Map::<Seq<char>, TemplateView>::empty()),
    {
        proof {
            use_type_invariant(&*self);
            if self.entries@.len() > 0 {
                lemma_store_at(self.entries@, 0);
            } else {
                assert(self@ =~= Map::<Seq<char>, TemplateView>::empty());
            }
        }
        self.entries.len() == 0
    }

    /// The template of a kind.
    pub fn get(&self, label: &str) -> (r: Option<&Template>)
        ensures
            r is Some == self@.dom().contains(label@),
            r matches Some(t) ==> t@ == self@[label@],
    {
        proof {
            use_type_invariant(&*self);
        }
        let mut i: usize = 0;
        while i < self.entries.len()
            invariant
                i <= self.entries@.len(),
                ordered(self.entries@),
                forall|j: int| 0 <= j < i ==> self.entries@[j].0@ != label@,
            decreases self.entries@.len() - i,
        {
            if same(self.entries[i].0.as_str(), label) {
                proof {
                    lemma_store_at(self.entries@, i as int);
                }
                return Some(&self.entries[i].1);
            }
            i = i + 1;
        }
        assert(!self@.dom().contains(label@)) by {
            if self@.dom().contains(label@) {
                let j = choose|j: int| entry_at(self.entries@, label@, j);
                assert(self.entries@[j].0@ == label@);
            }
        }
        None
    }

    /// Registers a template under a label, in place of an earlier one.
    pub fn insert(&mut self, label: String, t: Template)
        ensures
            final(self)@ == old(self)@.insert(label@, t@),
    {
        proof {
            use_type_invariant(&*self);
        }
        let mut v: Vec<(String, Template)> = Vec::new();
        std::mem::swap(&mut v, &mut self.entries);
        let ghost e = v@;
        let mut i: usize = 0;
        while i < v.len() && is_before(v[i].0.as_str(), label.as_str())
            invariant
                i <= v@.len(),
                v@ == e,
                ordered(e),
                forall|j: int| 0 <= j < i ==> before(#[trigger] e[j].0@, label@),
            decreases v@.len() - i,
        {
            i = i + 1;
        }
        if i < v.len() && same(v[i].0.as_str(), label.as_str()) {
            let ghost tv = t@;
            let entry = (label, t);
            v.set(i, entry);
            proof {
                assert(ordered(v@)) by {
                    assert forall|a: int, b: int| 0 <= a < b < v@.len() implies before(
                        #[trigger] v@[a].0@,
                        #[trigger] v@[b].0@,
                    ) by {
                        assert(before(e[a].0@, e[b].0@));
                    }
                }
                lemma_store_put(e, v@, i as int, false);
            }
        } else {
            let ghost lv = label@;
            v.insert(i, (label, t));
            proof {
                let f = v@;
                assert(f.remove(i as int) =~= e);
                if i < e.len() {
                    lemma_before_total(lv, e[i as int].0@);
                }
                assert(ordered(f)) by {
                    assert forall|a: int, b: int| 0 <= a < b < f.len() implies before(
                        #[trigger] f[a].0@,
                        #[trigger] f[b].0@,
                    ) by {
                        let pa = if a > i {
                            a - 1
                        } else {
                            a
                        };
                        let pb = if b > i {
                            b - 1
                        } else {
                            b
                        };
                        if a != i && b != i {
                            assert(f[a] == e[pa]);
                            assert(f[b] == e[pb]);
                            assert(before(e[pa].0@, e[pb].0@));
                        } else if b == i {
                            assert(f[a] == e[a]);
                        } else {
                            assert(f[b] == e[pb]);
                            if pb > i {
                                assert(before(e[i as int].0@, e[pb].0@));
                                lemma_before_transitive(lv, e[i as int].0@, e[pb].0@);
                            }
                        }
                    }
                }
                lemma_store_put(e, f, i as int, true);
            }
        }
        self.entries = v;
    }
}

impl Clone for Approved {
    fn clone(&self) -> (r: Self)
        ensures
            r@ == self@,
    {
        proof {
            use_type_invariant(&*self);
        }
        let mut v: Vec<(String, Template)> = Vec::new();
        let mut i: usize = 0;
        while i < self.entries.len()
            invariant
                i <= self.entries@.len(),
                v@.len() == i,
                forall|j: int|
                    0 <= j < i ==> (#[trigger] v@[j]).0@ == self.entries@[j].0@ && v@[j].1@
                        == self.entries@[j].1@,
            decreases self.entries@.len() - i,
        {
            v.push((self.entries[i].0.clone(), self.entries[i].1.clone()));
            i = i + 1;
        }
        proof {
            let e = self.entries@;
            assert(ordered(v@)) by {
                assert forall|a: int, b: int| 0 <= a < b < v@.len() implies before(
                    #[trigger] v@[a].0@,
                    #[trigger] v@[b].0@,
                ) by {
                    assert(before(e[a].0@, e[b].0@));
                }
            }
            let m = store_map(v@);
            let n = store_map(e);
            assert forall|k: Seq<char>| #[trigger] m.dom().contains(k) == n.dom().contains(k) && (
            m.dom().contains(k) ==> m[k] == n[k]) by {
                if m.dom().contains(k) {
                    let j = choose|j: int| entry_at(v@, k, j);
                    assert(entry_at(e, k, j));
                    lemma_store_at(v@, j);
                    lemma_store_at(e, j);
                }
                if n.dom().contains(k) {
                    let j = choose|j: int| entry_at(e, k, j);
                    assert(v@[j].0@ == e[j].0@);
                    assert(entry_at(v@, k, j));
                }
            }
            assert(m =~= n);
        }
        Approved { entries: v }
    }
}

/// Which launch mode an action needs.
#[derive(Debug, Clone, Copy, PartialEq, Eq)]
pub enum Mode {
    Spawn,
    Resume,
}

// ---------------------------------------------------------------------------
// The registration gate
// ---------------------------------------------------------------------------
/// The template that a record proposes: its commands, normalized, and its
/// launch flags.
pub open spec fn proposed(r: RecordView) -> TemplateView {
    TemplateView {
        spawn: match r.spawn_command {
            Some(c) => Some(normalized(c, r.session_id, r.cwd)),
            None => None,
        },
        resume: match r.resume_command {
            Some(c) => Some(normalized(c, r.session_id, r.cwd)),
            None => None,
        },
        gui: r.gui,
        message_flag: r.message_flag,
    }
}

/// A record fits the store: its kind is registered, and each command that it
/// carries is the one that was approved.
pub open spec fn fits(r: RecordView, store: Map<Seq<char>, TemplateView>) -> bool {
    match r.label {
        Some(l) => {
            let c = proposed(r);
            &&& store.dom().contains(l)
            &&& c.spawn is Some ==> c.spawn == store[l].spawn
            &&& c.resume is Some ==> c.resume == store[l].resume
        },
        None => false,
    }
}

/// The command of a mode.
pub open spec fn mode_command(r: RecordView, mode: Mode) -> Option<Seq<Seq<char>>> {
    match mode {
        Mode::Spawn => r.spawn_command,
        Mode::Resume => r.resume_command,
    }
}

fn normalize_opt(c: &Option<Vec<String>>, record: &RegistryEntry) -> (r: Option<Vec<String>>)
    ensures
        opt_texts(r) == (match opt_texts(*c) {
            Some(x) => Some(normalized(x, record@.session_id, record@.cwd)),
            None => None,
        }),
{
    match c {
        Some(x) => Some(normalize(x, record.session_id.as_str(), opt_as_str(&record.cwd))),
        None => None,
    }
}

/// The template that a record proposes.
pub fn candidate(record: &RegistryEntry) -> (r: Template)
    ensures
        r@ == proposed(record@),
{
    Template {
        spawn: normalize_opt(&record.spawn_command, record),
        resume: normalize_opt(&record.resume_command, record),
        gui: record.gui,
        message_flag: copy_opt_string(&record.message_flag),
    }
}

/// Whether a record is a full citizen; any other is quarantined.
pub fn registered(record: &RegistryEntry, approved: &Approved) -> (r: bool)
    ensures
        r == fits(record@, approved@),
{
    match &record.label {
        Some(label) => match approved.get(label.as_str()) {
            Some(tmpl) => {
                let cand = candidate(record);
                if cand.spawn.is_some() && !same_opt_list(&cand.spawn, &tmpl.spawn) {
                    return false;
                }
                if cand.resume.is_some() && !same_opt_list(&cand.resume, &tmpl.resume) {
                    return false;
                }
                true
            },
            None => false,
        },
        None => false,
    }
}

/// Whether one launch mode of a record may be executed: the record fits, and
/// carries the command.
pub fn mode_approved(record: &RegistryEntry, approved: &Approved, mode: Mode) -> (r: bool)
    ensures
        r == (fits(record@, approved@) && mode_command(record@, mode) is Some),
        r == may_run(record@, approved@, mode),
{
    if !registered(record, approved) {
        return false;
    }
    match mode {
        Mode::Spawn => record.spawn_command.is_some(),
        Mode::Resume => record.resume_command.is_some(),
    }
}

/// Registers the template that a record proposes under its label; a record
/// without one changes nothing.
pub fn register(approved: Approved, record: &RegistryEntry) -> (r: Approved)
    ensures
        r@ == (match record@.label {
            Some(l) => approved@.insert(l, proposed(record@)),
            None => approved@,
        }),
        r@ == registered_with(approved@, record@),
{
    let mut store = approved;
    match &record.label {
        Some(label) => {
            store.insert(label.clone(), candidate(record));
        },
        None => {},
    }
    store
}

/// Once registered, a record with a label fits, and each of its commands may be
/// executed.
pub proof fn law_registered_record_fits(
    r: RecordView,
    label: Seq<char>,
    store: Map<Seq<char>, TemplateView>,
)
    requires
        r.label == Some(label),
    ensures
        fits(r, store.insert(label, proposed(r))),
{
}

/// A record whose command deviates from the approved one, or whose mode was
/// never approved, does not fit.
pub proof fn law_altered_command_is_quarantined(
    r: RecordView,
    label: Seq<char>,
    store: Map<Seq<char>, TemplateView>,
)
    requires
        r.label == Some(label),
        store.dom().contains(label),
        (r.spawn_command is Some && proposed(r).spawn != store[label].spawn) || (
        r.resume_command is Some && proposed(r).resume != store[label].resume),
    ensures
        !fits(r, store),
{
}

// ---------------------------------------------------------------------------
// The store as a document
// ---------------------------------------------------------------------------
/// The template that a JSON value describes.
pub open spec fn template_of(v: JsonView) -> TemplateView {
    TemplateView {
        spawn: v.strs_at("spawn"@),
        resume: v.strs_at("resume"@),
        gui: v.true_at("gui"@),
        message_flag: v.str_at("messageFlag"@),
    }
}

/// The store that a JSON value describes: an object has a template under each
/// label, anything else is the empty store.
pub open spec fn store_of(v: JsonView) -> Map<Seq<char>, TemplateView> {
    match v {
        JsonView::Object(m) => m.map_values(|t: JsonView| template_of(t)),
        _ => Map::empty(),
    }
}

/// The store that a document describes; a malformed document is the empty
/// store.
pub open spec fn store_text(text: Seq<char>) -> Map<Seq<char>, TemplateView> {
    match json_parse(text) {
        Some(v) => store_of(v),
        None => Map::empty(),
    }
}

/// A template as a JSON value.
pub open spec fn template_json(t: TemplateView) -> JsonView {
    let a = Map::<Seq<char>, JsonView>::empty();
    let b = match t.spawn {
        Some(c) => a.insert("spawn"@, str_array(c)),
        None => a,
    };
    let c = match t.resume {
        Some(c) => b.insert("resume"@, str_array(c)),
        None => b,
    };
    let d = if t.gui {
        c.insert("gui"@, JsonView::Bool(true))
    } else {
        c
    };
    JsonView::Object(
        match t.message_flag {
            Some(f) => d.insert("messageFlag"@, JsonView::Str(f)),
            None => d,
        },
    )
}

/// The store as a JSON value.
pub open spec fn store_json(m: Map<Seq<char>, TemplateView>) -> JsonView {
    JsonView::Object(m.map_values(|t: TemplateView| template_json(t)))
}

proof fn lemma_template_json(t: TemplateView)
    ensures
        template_of(template_json(t)) == t,
        storable(template_json(t), 126),
{
    reveal_strlit("spawn");
    reveal_strlit("resume");
    reveal_strlit("gui");
    reveal_strlit("messageFlag");
    assert("spawn"@.len() == 5 && "resume"@.len() == 6 && "gui"@.len() == 3 && "messageFlag"@.len()
        == 11);
    if let Some(c) = t.spawn {
        lemma_strs_of_str_array(c);
        lemma_str_array_storable(c, 125);
    }
    if let Some(c) = t.resume {
        lemma_strs_of_str_array(c);
        lemma_str_array_storable(c, 125);
    }
    assert(template_of(template_json(t)) =~= t);
    if let JsonView::Object(m) = template_json(t) {
        assert forall|k: Seq<char>| #[trigger] m.dom().contains(k) implies storable(m[k], 125) by {}
    }
}

/// A store written as a JSON value describes the store again.
pub proof fn law_store_json_round_trip(m: Map<Seq<char>, TemplateView>)
    ensures
        store_of(store_json(m)) == m,
        storable(store_json(m), 127),
{
    let j = m.map_values(|t: TemplateView| template_json(t));
    assert forall|k: Seq<char>| #[trigger] j.dom().contains(k) implies storable(j[k], 126) && template_of(
        j[k],
    ) == m[k] by {
        lemma_template_json(m[k]);
    }
    assert(store_of(store_json(m)) =~= m);
}

fn template_from(v: &Json) -> (r: Template)
    ensures
        r@ == template_of(v@),
{
    Template {
        spawn: v.strs_at("spawn"),
        resume: v.strs_at("resume"),
        gui: v.true_at("gui"),
        message_flag: v.str_at("messageFlag"),
    }
}

/// Reads the store out of a JSON value.
pub fn approved_from(v: &Json) -> (r: Approved)
    ensures
        r@ == store_of(v@),
{
    let mut store = Approved::new();
    match v {
        Json::Object(m) => {
            let mut i: usize = 0;
            assert(store@ =~= members(m@, 0).map_values(|t: JsonView| template_of(t)));
            while i < m.len()
                invariant
                    i <= m@.len(),
                    store@ == members(m@, i as nat).map_values(|t: JsonView| template_of(t)),
                decreases m@.len() - i,
            {
                let ghost prior = members(m@, i as nat);
                store.insert(m[i].0.clone(), template_from(&m[i].1));
                i = i + 1;
                assert(store@ =~= members(m@, i as nat).map_values(|t: JsonView| template_of(t)));
            }
        },
        _ => {
            assert(store@ =~= store_of(v@));
        },
    }
    store
}

/// Parses the store. Leniently: a malformed document is an empty store, and a
/// command that is no array is dropped.
pub fn parse_approved(text: &str) -> (r: Approved)
    ensures
        r@ == store_text(text@),
{
    match parse(text) {
        Some(v) => approved_from(&v),
        None => Approved::new(),
    }
}

/// The store as its file holds it; a file that cannot be read is an empty
/// store.
pub fn read_approved(text: Option<&str>) -> (r: Approved)
    ensures
        r@ == (match text {
            Some(t) => store_text(t@),
            None => Map::empty(),
        }),
{
    match text {
        Some(t) => parse_approved(t),
        None => Approved::new(),
    }
}

fn template_value(t: &Template) -> (r: Json)
    ensures
        r@ == template_json(t@),
{
    let mut b = ObjectBuilder::new();
    match &t.spawn {
        Some(c) => b.put("spawn", Json::of_strs(c)),
        None => {},
    }
    match &t.resume {
        Some(c) => b.put("resume", Json::of_strs(c)),
        None => {},
    }
    if t.gui {
        b.put("gui", Json::Bool(true));
    }
    match &t.message_flag {
        Some(f) => b.put("messageFlag", Json::of_str(f.as_str())),
        None => {},
    }
    b.build()
}

/// The store as a JSON value.
pub fn approved_value(approved: &Approved) -> (r: Json)
    ensures
        r@ == store_json(approved@),
{
    proof {
        use_type_invariant(&*approved);
    }
    let mut b = ObjectBuilder::new();
    let mut i: usize = 0;
    let ghost e = approved.entries@;
    assert(b@ =~= store_map(e.take(0)).map_values(|t: TemplateView| template_json(t)));
    while i < approved.entries.len()
        invariant
            i <= e.len(),
            e == approved.entries@,
            ordered(e),
            b@ == store_map(e.take(i as int)).map_values(|t: TemplateView| template_json(t)),
        decreases e.len() - i,
    {
        b.put(approved.entries[i].0.as_str(), template_value(&approved.entries[i].1));
        proof {
            let p = e.take(i as int);
            let q = e.take(i + 1);
            assert(q.remove(i as int) =~= p);
            lemma_store_put(p, q, i as int, true);
            assert(store_map(q).map_values(|t: TemplateView| template_json(t)) =~= store_map(
                p,
            ).map_values(|t: TemplateView| template_json(t)).insert(
                e[i as int].0@,
                template_json(e[i as int].1@),
            ));
        }
        i = i + 1;
    }
    assert(e.take(i as int) =~= e);
    b.build()
}

/// The document that holds the store. Parsing it gives the store back.
pub fn approved_json(approved: &Approved) -> (r: String)
    ensures
        r@ == json_pretty(store_json(approved@)),
        store_text(r@) == approved@,
{
    proof {
        law_store_json_round_trip(approved@);
    }
    let v = approved_value(approved);
    proof {
        lemma_storable_shallow(v@, 127);
    }
    print_pretty(&v)
}

/// What is put to the operator is what the record would run: its commands with
/// its session taken out, and its launch options as they are.
pub proof fn law_proposal_is_what_the_record_would_run(r: RecordView)
    ensures
        proposed(r).spawn is Some <==> r.spawn_command is Some,
        proposed(r).resume is Some <==> r.resume_command is Some,
        r.spawn_command matches Some(c) ==> proposed(r).spawn == Some(
            normalized(c, r.session_id, r.cwd),
        ),
        r.resume_command matches Some(c) ==> proposed(r).resume == Some(
            normalized(c, r.session_id, r.cwd),
        ),
        proposed(r).gui == r.gui,
        proposed(r).message_flag == r.message_flag,
{
}

/// Only commands are held against the register, each against that of its own
/// kind: a record that announces neither fits wherever its label is known, one
/// without a label fits nowhere, and neither its launch options nor anything else
/// of it matters.
pub proof fn law_commands_alone_are_held_against_the_register(
    r: RecordView,
    s: RecordView,
    store: Map<Seq<char>, TemplateView>,
)
    requires
        r.label == s.label,
        r.session_id == s.session_id,
        r.cwd == s.cwd,
        r.spawn_command == s.spawn_command,
        r.resume_command == s.resume_command,
    ensures
        fits(r, store) == fits(s, store),
        r.label is None ==> !fits(r, store),
        r.label matches Some(l) ==> {
            &&& !store.dom().contains(l) ==> !fits(r, store)
            &&& store.dom().contains(l) && r.spawn_command is None && r.resume_command is None
                ==> fits(r, store)
            &&& fits(r, store) && r.spawn_command is Some ==> store[l].spawn == Some(
                normalized(r.spawn_command->0, r.session_id, r.cwd),
            )
            &&& fits(r, store) && r.resume_command is Some ==> store[l].resume == Some(
                normalized(r.resume_command->0, r.session_id, r.cwd),
            )
        },
{
}

/// Whether a record may be run in a mode.
pub open spec fn may_run(r: RecordView, store: Map<Seq<char>, TemplateView>, mode: Mode) -> bool {
    fits(r, store) && mode_command(r, mode) is Some
}

/// The register with a record's launch set.
pub open spec fn registered_with(store: Map<Seq<char>, TemplateView>, r: RecordView) -> Map<
    Seq<char>,
    TemplateView,
> {
    match r.label {
        Some(l) => store.insert(l, proposed(r)),
        None => store,
    }
}

/// A record may be run in a mode exactly where it is registered and has the
/// command for that mode; once a record with a label is registered, it may be,
/// and what is registered under other labels stays.
pub proof fn law_registered_record_may_run(
    store: Map<Seq<char>, TemplateView>,
    r: RecordView,
    label: Seq<char>,
    other: Seq<char>,
)
    requires
        r.label == Some(label),
        other != label,
    ensures
        may_run(r, registered_with(store, r), Mode::Spawn) <==> r.spawn_command is Some,
        may_run(r, registered_with(store, r), Mode::Resume) <==> r.resume_command is Some,
        may_run(r, store, Mode::Spawn) ==> r.spawn_command is Some && store.dom().contains(label),
        registered_with(store, r).dom().contains(other) == store.dom().contains(other),
        store.dom().contains(other) ==> registered_with(store, r)[other] == store[other],
        !may_run(r, Map::empty(), Mode::Spawn) && !may_run(r, Map::empty(), Mode::Resume),
{
    law_registered_record_fits(r, label, store);
}

} // verus!
