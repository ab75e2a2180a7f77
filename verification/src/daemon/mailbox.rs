//! Submissions from agents: reading one, judging it against the whitelist, and
//! the roster that a caller may see.
use vstd::prelude::*;

use crate::discovery::{records, RecordView, RegistryEntry};
use crate::json::{
    json_parse, json_print, json_views, lemma_array_view, print, storable, Json, JsonView,
    ObjectBuilder,
};
use crate::launch::{decides, opt_str};
use crate::model::{find_record, law_first_record_speaks_for_a_session, record_for};
use crate::palette;
use crate::palette::leaf;
use crate::text::{
    cat, cat3, contains, copy_opt_string, cut, ends_with, has_infix, has_suffix, infix_at, lemma_infix_from, lemma_lines_append, lemma_split_first, lines, on_one_line, opt_text, same, split, split_lines,
    split_once, texts, to_one_line, trim, trimmed,
};

verus! {

// ---------------------------------------------------------------------------
// Submissions
// ---------------------------------------------------------------------------
/// What a submission is addressed to.
#[derive(Debug, PartialEq, Eq)]
pub enum Target {
    Dir(String),
    Session(String),
}

pub enum TargetView {
    Dir(Seq<char>),
    Session(Seq<char>),
}

impl View for Target {
    type V = TargetView;

    open spec fn view(&self) -> TargetView {
        match self {
            Target::Dir(d) => TargetView::Dir(d@),
            Target::Session(s) => TargetView::Session(s@),
        }
    }
}

/// The verb of a submission, with exactly the fields that it uses.
#[derive(Debug, PartialEq, Eq)]
pub enum Kind {
    /// Deliver a text to that exact session.
    Message { session: String, text: String },
    /// Start a fresh agent in a directory, with a task as its first prompt.
    Spawn { dir: String, task: String, label: Option<String>, hidden: bool },
    /// Kill that session's process.
    Stop { session: String },
}

pub enum KindView {
    Message { session: Seq<char>, text: Seq<char> },
    Spawn { dir: Seq<char>, task: Seq<char>, label: Option<Seq<char>>, hidden: bool },
    Stop { session: Seq<char> },
}

impl View for Kind {
    type V = KindView;

    open spec fn view(&self) -> KindView {
        match self {
            Kind::Message { session, text } => KindView::Message { session: session@, text: text@ },
            Kind::Spawn { dir, task, label, hidden } => KindView::Spawn {
                dir: dir@,
                task: task@,
                label: opt_text(*label),
                hidden: *hidden,
            },
            Kind::Stop { session } => KindView::Stop { session: session@ },
        }
    }
}

impl Clone for Kind {
    fn clone(&self) -> (r: Self)
        ensures
            r == *self,
    {
        match self {
            Kind::Message { session, text } => Kind::Message {
                session: session.clone(),
                text: text.clone(),
            },
            Kind::Spawn { dir, task, label, hidden } => Kind::Spawn {
                dir: dir.clone(),
                task: task.clone(),
                label: copy_opt_string(label),
                hidden: *hidden,
            },
            Kind::Stop { session } => Kind::Stop { session: session.clone() },
        }
    }
}

/// One submission: who sent it, and which verb.
#[derive(Debug, PartialEq, Eq)]
pub struct Submission {
    pub id: String,
    /// The sender's directory, as its outbox vouches for it.
    pub from_cwd: String,
    /// The target's canonical directory. Empty as parsed; stamped once, at the
    /// boundary.
    pub target_cwd: String,
    /// The sender's session, to which a reply goes.
    pub from_session: Option<String>,
    pub kind: Kind,
}

#[verifier::ext_equal]
pub struct SubmissionView {
    pub id: Seq<char>,
    pub from_cwd: Seq<char>,
    pub target_cwd: Seq<char>,
    pub from_session: Option<Seq<char>>,
    pub kind: KindView,
}

impl View for Submission {
    type V = SubmissionView;

    open spec fn view(&self) -> SubmissionView {
        SubmissionView {
            id: self.id@,
            from_cwd: self.from_cwd@,
            target_cwd: self.target_cwd@,
            from_session: opt_text(self.from_session),
            kind: self.kind@,
        }
    }
}

impl Clone for Submission {
    fn clone(&self) -> (r: Self)
        ensures
            r == *self,
    {
        Submission {
            id: self.id.clone(),
            from_cwd: self.from_cwd.clone(),
            target_cwd: self.target_cwd.clone(),
            from_session: copy_opt_string(&self.from_session),
            kind: self.kind.clone(),
        }
    }
}

impl KindView {
    pub open spec fn target(self) -> TargetView {
        match self {
            KindView::Message { session, .. } => TargetView::Session(session),
            KindView::Stop { session } => TargetView::Session(session),
            KindView::Spawn { dir, .. } => TargetView::Dir(dir),
        }
    }

    pub open spec fn body(self) -> Seq<char> {
        match self {
            KindView::Message { text, .. } => text,
            KindView::Spawn { task, .. } => task,
            KindView::Stop { .. } => Seq::empty(),
        }
    }
}

impl SubmissionView {
    /// The session under which the sender can be answered. One that holds a line
    /// feed is nobody's.
    pub open spec fn reply_handle(self) -> Option<Seq<char>> {
        match self.from_session {
            Some(sid) => if !sid.contains('\n') {
                Some(sid)
            } else {
                None
            },
            None => None,
        }
    }

    /// The provenance tag, on one line: the sender's directory by its leaf, and its
    /// session in full.
    pub open spec fn tag(self) -> Seq<char> {
        let from = on_one_line(leaf(self.from_cwd));
        match self.reply_handle() {
            Some(sid) => "[from "@ + from + " (session "@ + sid + ")]"@,
            None => "[from "@ + from + "]"@,
        }
    }

    /// The delivered text: the tag on its own first line, then the body.
    pub open spec fn tagged(self) -> Seq<char> {
        self.tag() + "\n"@ + self.kind.body()
    }

    pub open spec fn target_label(self) -> Seq<char> {
        match self.kind.target() {
            TargetView::Dir(_) => self.target_cwd,
            TargetView::Session(s) => self.target_cwd + " (session "@ + s + ")"@,
        }
    }

    pub open spec fn target_label_short(self) -> Seq<char> {
        match self.kind.target() {
            TargetView::Dir(_) => leaf(self.target_cwd),
            TargetView::Session(s) => leaf(self.target_cwd) + " (session "@ + s + ")"@,
        }
    }
}

impl Submission {
    /// What the submission is addressed to.
    pub fn target(&self) -> (r: Target)
        ensures
            r@ == self@.kind.target(),
    {
        match &self.kind {
            Kind::Message { session, .. } => Target::Session(session.clone()),
            Kind::Stop { session } => Target::Session(session.clone()),
            Kind::Spawn { dir, .. } => Target::Dir(dir.clone()),
        }
    }

    /// The text that is delivered: a message's or a spawn's; a stop has none.
    pub fn body(&self) -> (r: &str)
        ensures
            r@ == self@.kind.body(),
    {
        match &self.kind {
            Kind::Message { text, .. } => text.as_str(),
            Kind::Spawn { task, .. } => task.as_str(),
            Kind::Stop { .. } => {
                proof {
                    reveal_strlit("");
                    assert(""@ =~= Seq::<char>::empty());
                }
                ""
            },
        }
    }

    /// The session under which the sender can be answered.
    fn reply_to(&self) -> (r: Option<&str>)
        ensures
            opt_str(r) == self@.reply_handle(),
    {
        match &self.from_session {
            Some(sid) => {
                proof {
                    lemma_line_feed(sid@);
                }
                if !contains(sid.as_str(), "\n") {
                    Some(sid.as_str())
                } else {
                    None
                }
            },
            None => None,
        }
    }

    /// The delivered text: a provenance tag on its own first line, then the
    /// body to the end. Nothing that the sender names breaks that line: line feeds
    /// in the directory's name are blanks, and a session that holds one is left out.
    pub fn tagged(&self) -> (r: String)
        ensures
            r@ == self@.tagged(),
    {
        let from = to_one_line(basename(self.from_cwd.as_str()));
        let mut s = cat("[from ", from.as_str());
        match self.reply_to() {
            Some(sid) => {
                s.append(" (session ");
                s.append(sid);
                s.append(")]");
            },
            None => {
                s.append("]");
            },
        }
        s.append("\n");
        s.append(self.body());
        s
    }

    /// The full label of the target, with its authenticated directory.
    pub fn target_label(&self) -> (r: String)
        ensures
            r@ == self@.target_label(),
    {
        match self.target() {
            Target::Dir(_) => self.target_cwd.clone(),
            Target::Session(s) => {
                let mut t = cat3(self.target_cwd.as_str(), " (session ", s.as_str());
                t.append(")");
                t
            },
        }
    }

    /// The label of the target with its directory's leaf only.
    pub fn target_label_short(&self) -> (r: String)
        ensures
            r@ == self@.target_label_short(),
    {
        let dir = basename(self.target_cwd.as_str());
        match self.target() {
            Target::Dir(_) => dir.to_owned(),
            Target::Session(s) => {
                let mut t = cat3(dir, " (session ", s.as_str());
                t.append(")");
                t
            },
        }
    }
}

/// The first line of a delivered text is the tag, whatever the body and the
/// sender's names hold, and the rest is the body.
pub proof fn law_first_line_is_the_tag(s: SubmissionView)
    ensures
        split(s.tagged(), '\n')[0] == s.tag(),
        s.tagged() == s.tag().push('\n') + s.kind.body(),
{
    reveal_strlit("[from ");
    reveal_strlit(" (session ");
    reveal_strlit(")]");
    reveal_strlit("]");
    reveal_strlit("\n");
    let t = s.tag();
    let l = on_one_line(leaf(s.from_cwd));
    assert(!t.contains('\n')) by {
        assert forall|i: int| 0 <= i < t.len() implies t[i] != '\n' by {
            if 6 <= i < 6 + l.len() {
                assert(t[i] == l[i - 6]);
            }
            if let Some(sid) = s.reply_handle() {
                let k = 6 + l.len() + 10;
                if k <= i < k + sid.len() {
                    assert(t[i] == sid[i - k]);
                    assert(sid.contains(t[i]));
                }
            }
        }
    }
    assert(s.tagged() =~= t.push('\n') + s.kind.body());
    lemma_split_first(t, s.kind.body(), '\n');
}

/// The last component of a path.
pub fn basename(path: &str) -> (r: &str)
    ensures
        r@ == leaf(path@),
{
    palette::basename(path)
}

// ---------------------------------------------------------------------------
// Verdicts
// ---------------------------------------------------------------------------
/// The verdict that a submitter hears at once.
#[derive(Debug, Clone, Copy, PartialEq, Eq, Structural)]
pub enum Ack {
    /// The target resolves and the pair is whitelisted.
    Accepted,
    /// Held for the operator.
    ApprovalNeeded,
    /// No such session.
    RecipientNotFound,
    /// No such directory.
    DirectoryNotKnown,
    /// A stop of a session that does not run.
    AlreadyStopped,
}

impl Ack {
    pub open spec fn word(self) -> Seq<char> {
        match self {
            Ack::Accepted => "accepted"@,
            Ack::ApprovalNeeded => "approval_needed"@,
            Ack::RecipientNotFound => "recipient_not_found"@,
            Ack::DirectoryNotKnown => "directory_not_known"@,
            Ack::AlreadyStopped => "already_stopped"@,
        }
    }

    /// The word sent back over the control socket.
    pub fn wire(self) -> (r: &'static str)
        ensures
            r@ == self.word(),
    {
        match self {
            Ack::Accepted => "accepted",
            Ack::ApprovalNeeded => "approval_needed",
            Ack::RecipientNotFound => "recipient_not_found",
            Ack::DirectoryNotKnown => "directory_not_known",
            Ack::AlreadyStopped => "already_stopped",
        }
    }

    /// Whether the router is handed the submission.
    pub fn routable(self) -> (r: bool)
        ensures
            r == (self == Ack::Accepted || self == Ack::ApprovalNeeded),
    {
        match self {
            Ack::Accepted => true,
            Ack::ApprovalNeeded => true,
            _ => false,
        }
    }
}

/// Some record pins the session to another directory than the given one.
pub open spec fn claims_other_dir(
    entries: Seq<RecordView>,
    sid: Seq<char>,
    from_cwd: Seq<char>,
) -> bool {
    exists|i: int|
        0 <= i < entries.len() && (#[trigger] entries[i]).session_id == sid && entries[i].cwd is Some
            && entries[i].cwd->0 != from_cwd
}

/// Whether a claimed reply handle provably names a session in another directory
/// than the authenticated sender's. An id that the registry does not know
/// passes.
pub fn session_claims_other_dir(entries: &Vec<RegistryEntry>, sid: &str, from_cwd: &str) -> (r: bool)
    ensures
        r == claims_other_dir(records(entries@), sid@, from_cwd@),
{
    let mut i: usize = 0;
    while i < entries.len()
        invariant
            i <= entries@.len(),
            forall|j: int|
                0 <= j < i ==> !((#[trigger] records(entries@)[j]).session_id == sid@ && records(
                    entries@,
                )[j].cwd is Some && records(entries@)[j].cwd->0 != from_cwd@),
        decreases entries@.len() - i,
    {
        assert(records(entries@)[i as int] == entries@[i as int]@);
        let elsewhere = match &entries[i].cwd {
            Some(c) => !same(c.as_str(), from_cwd),
            None => false,
        };
        if elsewhere && same(entries[i].session_id.as_str(), sid) {
            return true;
        }
        i = i + 1;
    }
    false
}

/// What a verdict is judged by.
#[derive(Debug, Clone, Copy)]
pub struct Facts<'a> {
    /// The target's canonical directory, if the recipient resolves.
    pub target_cwd: Option<&'a str>,
    /// The pair is in the whitelist.
    pub whitelisted: bool,
    /// The caller may learn precise facts about the target.
    pub reachable: bool,
    /// The target session does not run.
    pub dormant: bool,
}

impl<'a> Default for Facts<'a> {
    fn default() -> (r: Self)
        ensures
            r.target_cwd is None,
            !r.whitelisted,
            !r.reachable,
            !r.dormant,
    {
        Facts { target_cwd: None, whitelisted: false, reachable: false, dormant: false }
    }
}

/// The verdict table.
pub open spec fn verdict(
    kind: KindView,
    resolves: bool,
    whitelisted: bool,
    reachable: bool,
    dormant: bool,
) -> Ack {
    if !resolves {
        if kind is Spawn {
            if reachable {
                Ack::DirectoryNotKnown
            } else {
                Ack::ApprovalNeeded
            }
        } else {
            Ack::RecipientNotFound
        }
    } else if kind is Stop && dormant {
        Ack::AlreadyStopped
    } else if whitelisted {
        Ack::Accepted
    } else {
        Ack::ApprovalNeeded
    }
}

/// Judges one submission from resolved facts.
pub fn classify(kind: &Kind, f: &Facts) -> (r: Ack)
    ensures
        r == verdict(kind@, f.target_cwd is Some, f.whitelisted, f.reachable, f.dormant),
{
    match f.target_cwd {
        None => match kind {
            Kind::Spawn { .. } => if f.reachable {
                Ack::DirectoryNotKnown
            } else {
                Ack::ApprovalNeeded
            },
            _ => Ack::RecipientNotFound,
        },
        Some(_) => {
            let stop = match kind {
                Kind::Stop { .. } => true,
                _ => false,
            };
            if stop && f.dormant {
                Ack::AlreadyStopped
            } else if f.whitelisted {
                Ack::Accepted
            } else {
                Ack::ApprovalNeeded
            }
        },
    }
}

/// The whitelist alone authorizes: for a target that resolves and is not
/// already stopped, every verb is accepted exactly where the pair is
/// whitelisted.
pub proof fn law_whitelist_is_the_only_axis(
    a: KindView,
    b: KindView,
    whitelisted: bool,
    reach_a: bool,
    reach_b: bool,
)
    ensures
        verdict(a, true, whitelisted, reach_a, false) == verdict(
            b,
            true,
            whitelisted,
            reach_b,
            false,
        ),
        verdict(a, true, whitelisted, reach_a, false) == Ack::Accepted <==> whitelisted,
{
}

/// A caller that may not reach a directory hears the same whether it exists or
/// not.
pub proof fn law_no_existence_oracle(kind: KindView, dormant: bool)
    requires
        kind is Spawn,
    ensures
        verdict(kind, true, false, false, dormant) == verdict(kind, false, false, false, dormant),
{
}

/// Nothing that does not resolve is accepted.
pub proof fn law_unresolved_is_never_accepted(
    kind: KindView,
    whitelisted: bool,
    reachable: bool,
    dormant: bool,
)
    ensures
        verdict(kind, false, whitelisted, reachable, dormant) != Ack::Accepted,
{
}

/// A target that resolves is never said to be unknown, whether its session runs
/// or not: the request is accepted where the pair is whitelisted and put to the
/// operator where it is not, but for a stop of a session that does not run, which
/// has nothing left to stop.
pub proof fn law_resolved_target_is_accepted_or_asked_for(
    kind: KindView,
    whitelisted: bool,
    reachable: bool,
    dormant: bool,
)
    ensures
        verdict(kind, true, whitelisted, reachable, dormant) != Ack::RecipientNotFound,
        verdict(kind, true, whitelisted, reachable, dormant) != Ack::DirectoryNotKnown,
        !(kind is Stop && dormant) ==> verdict(kind, true, whitelisted, reachable, dormant) == (
        if whitelisted {
            Ack::Accepted
        } else {
            Ack::ApprovalNeeded
        }),
        kind is Stop && dormant ==> verdict(kind, true, whitelisted, reachable, dormant)
            == Ack::AlreadyStopped,
{
}

/// Whether the target's session runs makes no difference but to a stop, and
/// whether the caller may reach it makes none once it resolves.
pub proof fn law_only_a_stop_asks_whether_a_session_runs(
    kind: KindView,
    whitelisted: bool,
    reach_a: bool,
    reach_b: bool,
    dormant_a: bool,
    dormant_b: bool,
)
    requires
        kind is Stop ==> dormant_a == dormant_b,
    ensures
        verdict(kind, true, whitelisted, reach_a, dormant_a) == verdict(
            kind,
            true,
            whitelisted,
            reach_b,
            dormant_b,
        ),
{
}

/// A message to, or a stop of, a session that does not resolve is answered that
/// the recipient was not found, and a spawn in a directory that does not resolve
/// that the directory is not known, to a caller that may learn as much. Nothing
/// else of the facts matters.
pub proof fn law_unresolved_target_is_not_found(
    kind: KindView,
    whitelisted: bool,
    reachable: bool,
    dormant: bool,
)
    ensures
        !(kind is Spawn) ==> verdict(kind, false, whitelisted, reachable, dormant)
            == Ack::RecipientNotFound,
        kind is Spawn && reachable ==> verdict(kind, false, whitelisted, reachable, dormant)
            == Ack::DirectoryNotKnown,
        kind is Spawn && !reachable ==> verdict(kind, false, whitelisted, reachable, dormant)
            == Ack::ApprovalNeeded,
{
}

// ---------------------------------------------------------------------------
// The whitelist
// ---------------------------------------------------------------------------
/// Stands between the two directories of a whitelist line.
pub const SEP: &'static str = " -> ";

/// A path that cannot straddle the separator.
pub open spec fn can_be_listed(path: Seq<char>) -> bool {
    !has_infix(path, " -> "@)
}

/// A whitelist line grants a pair.
pub open spec fn line_grants(line: Seq<char>, from: Seq<char>, target: Seq<char>) -> bool {
    match cut(line, " -> "@) {
        Some(x) => trimmed(x.0) == from && trimmed(x.1) == target,
        None => false,
    }
}

/// Some of the lines grants a pair.
pub open spec fn some_line_grants(ls: Seq<Seq<char>>, from: Seq<char>, target: Seq<char>) -> bool {
    exists|i: int| 0 <= i < ls.len() && line_grants(#[trigger] ls[i], from, target)
}

/// A whitelist grants a pair: both paths can be listed, and some line grants
/// it. A missing file grants nothing.
pub open spec fn granted(
    whitelist: Option<Seq<char>>,
    from: Seq<char>,
    target: Seq<char>,
) -> bool {
    match whitelist {
        Some(text) => can_be_listed(from) && can_be_listed(target) && some_line_grants(
            lines(text),
            from,
            target,
        ),
        None => false,
    }
}

/// The line that grants a pair.
pub open spec fn grant_line(from: Seq<char>, target: Seq<char>) -> Seq<char> {
    from + " -> "@ + target
}

/// Whether a path may appear in the whitelist.
pub fn representable(path: &str) -> (r: bool)
    ensures
        r == can_be_listed(path@),
{
    !contains(path, SEP)
}

/// Whether some line of a text grants a pair.
pub(crate) fn lists(text: &str, from: &str, target: &str) -> (r: bool)
    ensures
        r == some_line_grants(lines(text@), from@, target@),
{
    let ls = split_lines(text);
    let mut i: usize = 0;
    while i < ls.len()
        invariant
            i <= ls@.len(),
            texts(ls@) == lines(text@),
            forall|j: int|
                0 <= j < i ==> !line_grants(#[trigger] lines(text@)[j], from@, target@),
        decreases ls@.len() - i,
    {
        assert(ls@[i as int]@ == texts(ls@)[i as int]);
        match split_once(ls[i].as_str(), SEP) {
            Some(x) => {
                if same(trim(x.0.as_str()).as_str(), from) && same(
                    trim(x.1.as_str()).as_str(),
                    target,
                ) {
                    assert(line_grants(lines(text@)[i as int], from@, target@));
                    return true;
                }
            },
            None => {},
        }
        i = i + 1;
    }
    false
}

/// Whether a pair of directories is authorized, given the whitelist's text.
pub fn is_whitelisted(whitelist: Option<&str>, from: &str, target: &str) -> (r: bool)
    ensures
        r == granted(opt_str(whitelist), from@, target@),
{
    if !representable(from) || !representable(target) {
        return false;
    }
    match whitelist {
        Some(text) => lists(text, from, target),
        None => false,
    }
}

/// A path as a whitelist line can give it back: without white space around it and
/// without a line feed.
pub open spec fn on_a_line(path: Seq<char>) -> bool {
    trimmed(path) == path && !path.contains('\n')
}

/// A pair that a whitelist line holds unambiguously: neither path can straddle the
/// separator, alone or together with the one that is written behind it, and both
/// are read back as they are.
pub open spec fn listable(from: Seq<char>, target: Seq<char>) -> bool {
    &&& can_be_listed(from)
    &&& can_be_listed(target)
    &&& !has_suffix(from, " ->"@)
    &&& on_a_line(from)
    &&& on_a_line(target)
}

/// The words in which a pair is refused.
pub open spec fn refused_listing(from: Seq<char>, target: Seq<char>) -> Seq<char> {
    if can_be_listed(from) && can_be_listed(target) {
        "path cannot stand on a whitelist line: "@ + grant_line(from, target)
    } else {
        "path contains the whitelist separator \" -> \": "@ + grant_line(from, target)
    }
}

proof fn lemma_line_feed(s: Seq<char>)
    ensures
        has_infix(s, "\n"@) == s.contains('\n'),
{
    reveal_strlit("\n");
    if has_infix(s, "\n"@) {
        let i = choose|i: int| infix_at(s, "\n"@, i);
        assert(s.subrange(i, i + 1)[0] == "\n"@[0]);
        assert(s[i] == '\n');
    }
    if s.contains('\n') {
        let i = choose|i: int| 0 <= i < s.len() && s[i] == '\n';
        assert(s.subrange(i, i + 1) =~= "\n"@);
        assert(infix_at(s, "\n"@, i));
    }
}

/// Whether a path can stand on a whitelist line as it is.
fn stands_on_a_line(path: &str) -> (r: bool)
    ensures
        r == on_a_line(path@),
{
    proof {
        lemma_line_feed(path@);
    }
    same(trim(path).as_str(), path) && !contains(path, "\n")
}

/// What is appended to the whitelist to grant a pair: one line. A pair that a
/// line cannot hold unambiguously is refused, so that no line is read back as
/// another pair.
pub fn whitelist_add(from: &str, target: &str) -> (r: Result<String, String>)
    ensures
        r is Ok == listable(from@, target@),
        r matches Ok(line) ==> line@ == grant_line(from@, target@) + "\n"@,
        r matches Err(e) ==> e@ == refused_listing(from@, target@),
{
    let mut line = cat3(from, SEP, target);
    if !representable(from) || !representable(target) {
        return Err(cat("path contains the whitelist separator \" -> \": ", line.as_str()));
    }
    if ends_with(from, " ->") || !stands_on_a_line(from) || !stands_on_a_line(target) {
        return Err(cat("path cannot stand on a whitelist line: ", line.as_str()));
    }
    line.append("\n");
    Ok(line)
}

/// The whitelist's text once a pair was added behind whole lines.
pub open spec fn with_grant(text: Seq<char>, from: Seq<char>, target: Seq<char>) -> Seq<char> {
    text + grant_line(from, target) + "\n"@
}

proof fn lemma_trim_ends(s: Seq<char>)
    requires
        s.len() > 0,
        trimmed(s) == s,
    ensures
        s.last() != '\r',
        s.last() != ' ',
        s[0] != ' ',
{
    crate::text::lemma_trimmed_ends(s);
}

proof fn lemma_no_earlier_separator(from: Seq<char>, target: Seq<char>, j: int)
    requires
        can_be_listed(from),
        !has_suffix(from, " ->"@),
        0 <= j < from.len(),
    ensures
        !infix_at(grant_line(from, target), " -> "@, j),
{
    reveal_strlit(" -> ");
    reveal_strlit(" ->");
    let sep = " -> "@;
    let l = grant_line(from, target);
    if infix_at(l, sep, j) {
        let w = l.subrange(j, j + 4);
        assert(w[0] == l[j] && w[1] == l[j + 1] && w[2] == l[j + 2] && w[3] == l[j + 3]);
        if j + 4 <= from.len() {
            assert(from.subrange(j, j + 4) =~= sep);
            assert(infix_at(from, sep, j));
        } else if j + 3 == from.len() {
            assert(from.subrange(from.len() - 3, from.len() as int) =~= " ->"@);
        } else if j + 2 == from.len() {
            assert(l[j + 2] == sep[0]);
        } else {
            assert(l[j + 1] == sep[0]);
        }
    }
}

proof fn lemma_grant_line_cut(from: Seq<char>, target: Seq<char>)
    requires
        can_be_listed(from),
        !has_suffix(from, " ->"@),
    ensures
        cut(grant_line(from, target), " -> "@) == Some((from, target)),
{
    reveal_strlit(" -> ");
    let sep = " -> "@;
    let l = grant_line(from, target);
    let n = from.len() as int;
    assert(l.subrange(n, n + 4) =~= sep);
    assert forall|j: int| 0 <= j < n implies !infix_at(l, sep, j) by {
        lemma_no_earlier_separator(from, target, j);
    }
    lemma_infix_from(l, sep, 0, n);
    assert(l.subrange(0, n) =~= from);
    assert(l.subrange(n + 4, l.len() as int) =~= target);
}

/// Adding a pair that is not refused behind whole lines grants that pair, and no
/// other that was not granted before.
pub proof fn law_grant_is_exact(
    text: Seq<char>,
    from: Seq<char>,
    target: Seq<char>,
    other_from: Seq<char>,
    other_target: Seq<char>,
)
    requires
        text.len() == 0 || text.last() == '\n',
        listable(from, target),
    ensures
        granted(Some(with_grant(text, from, target)), from, target),
        granted(Some(with_grant(text, from, target)), other_from, other_target) == (granted(
            Some(text),
            other_from,
            other_target,
        ) || (other_from == from && other_target == target)),
{
    reveal_strlit(" -> ");
    let l = grant_line(from, target);
    if target.len() > 0 {
        lemma_trim_ends(target);
    }
    assert(!l.contains('\n')) by {
        assert forall|i: int| 0 <= i < l.len() implies l[i] != '\n' by {
            assert(i < from.len() ==> from.contains(l[i]));
            assert(i >= from.len() + 4 ==> target.contains(l[i]));
        }
    }
    assert(l.last() != '\r');
    lemma_lines_append(text, l);
    lemma_grant_line_cut(from, target);
    let new = lines(with_grant(text, from, target));
    let old_lines = lines(text);
    assert(new == old_lines.push(l));
    assert(line_grants(new[old_lines.len() as int], from, target));
    assert forall|f: Seq<char>, t: Seq<char>| #[trigger] granted(
        Some(with_grant(text, from, target)),
        f,
        t,
    ) == (granted(Some(text), f, t) || (f == from && t == target)) by {
        if granted(Some(text), f, t) {
            let i = choose|i: int| 0 <= i < old_lines.len() && line_grants(#[trigger] old_lines[i], f, t);
            assert(new[i] == old_lines[i]);
        }
        if granted(Some(with_grant(text, from, target)), f, t) {
            let i = choose|i: int| 0 <= i < new.len() && line_grants(#[trigger] new[i], f, t);
            if i < old_lines.len() {
                assert(new[i] == old_lines[i]);
            }
        }
    }
}

// ---------------------------------------------------------------------------
// Authorization
// ---------------------------------------------------------------------------
/// The canonical directory of a target: that of a spawn is what its path was
/// resolved to, that of a session is its record's.
pub open spec fn target_dir(
    target: TargetView,
    entries: Seq<RecordView>,
    canonical: Option<Seq<char>>,
) -> Option<Seq<char>> {
    match target {
        TargetView::Dir(_) => canonical,
        TargetView::Session(sid) => match record_for(entries, sid) {
            Some(e) => e.cwd,
            None => None,
        },
    }
}

/// The caller may learn precise facts about a directory.
pub open spec fn may_reach(
    whitelist: Option<Seq<char>>,
    from: Seq<char>,
    target: Seq<char>,
) -> bool {
    target == from || granted(whitelist, from, target)
}

/// The verdict on a submission.
pub open spec fn judged(
    whitelist: Option<Seq<char>>,
    sub: SubmissionView,
    entries: Seq<RecordView>,
    canonical: Option<Seq<char>>,
) -> Ack {
    let target = sub.kind.target();
    let cwd = target_dir(target, entries, canonical);
    let probe = match (cwd, target) {
        (Some(c), _) => Some(c),
        (None, TargetView::Dir(d)) => Some(d),
        (None, TargetView::Session(_)) => None,
    };
    verdict(
        sub.kind,
        cwd is Some,
        cwd is Some && granted(whitelist, sub.from_cwd, cwd->0),
        probe is Some && may_reach(whitelist, sub.from_cwd, probe->0),
        match target {
            TargetView::Session(sid) => match record_for(entries, sid) {
                Some(e) => e.socket is None,
                None => false,
            },
            TargetView::Dir(_) => false,
        },
    )
}

/// Authenticates a target into the directory that authorization is keyed on.
/// `canonical` is the real path of a spawn's directory, where it is one.
pub fn authenticate(target: &Target, entries: &Vec<RegistryEntry>, canonical: Option<&str>) -> (r:
    Option<String>)
    ensures
        opt_text(r) == target_dir(target@, records(entries@), opt_str(canonical)),
{
    match target {
        Target::Dir(_) => match canonical {
            Some(c) => Some(c.to_owned()),
            None => None,
        },
        Target::Session(sid) => match find_record(entries, sid.as_str()) {
            Some(e) => copy_opt_string(&e.cwd),
            None => None,
        },
    }
}

/// Whether the caller may learn precise facts about a directory.
pub fn reachable(whitelist: Option<&str>, from_cwd: &str, target_cwd: &str) -> (r: bool)
    ensures
        r == may_reach(opt_str(whitelist), from_cwd@, target_cwd@),
{
    same(target_cwd, from_cwd) || is_whitelisted(whitelist, from_cwd, target_cwd)
}

/// The one authorization step: resolves the target, reads the whitelist,
/// judges. Gives the target's directory and the verdict.
pub fn authorize(
    whitelist: Option<&str>,
    sub: &Submission,
    entries: &Vec<RegistryEntry>,
    canonical: Option<&str>,
) -> (r: (Option<String>, Ack))
    ensures
        opt_text(r.0) == target_dir(sub@.kind.target(), records(entries@), opt_str(canonical)),
        r.1 == judged(opt_str(whitelist), sub@, records(entries@), opt_str(canonical)),
{
    let target = sub.target();
    let target_cwd = authenticate(&target, entries, canonical);
    let from = sub.from_cwd.as_str();
    let whitelisted = match &target_cwd {
        Some(t) => is_whitelisted(whitelist, from, t.as_str()),
        None => false,
    };
    let reach = match &target_cwd {
        Some(t) => reachable(whitelist, from, t.as_str()),
        None => match &target {
            Target::Dir(d) => reachable(whitelist, from, d.as_str()),
            Target::Session(_) => false,
        },
    };
    let dormant = match &target {
        Target::Session(sid) => match find_record(entries, sid.as_str()) {
            Some(e) => e.socket.is_none(),
            None => false,
        },
        Target::Dir(_) => false,
    };
    let ack = {
        let facts = Facts {
            target_cwd: match &target_cwd {
                Some(t) => Some(t.as_str()),
                None => None,
            },
            whitelisted,
            reachable: reach,
            dormant,
        };
        classify(&sub.kind, &facts)
    };
    (target_cwd, ack)
}

// ---------------------------------------------------------------------------
// Reading requests
// ---------------------------------------------------------------------------
/// The verb that a JSON value describes.
pub open spec fn kind_of(v: JsonView) -> Option<KindView> {
    let op = v.str_at("op"@);
    if op == Some("message"@) {
        match (v.str_at("targetSession"@), v.str_at("message"@)) {
            (Some(session), Some(text)) => Some(KindView::Message { session, text }),
            _ => None,
        }
    } else if op == Some("spawn"@) {
        match (v.str_at("cwd"@), v.str_at("task"@)) {
            (Some(dir), Some(task)) => Some(
                KindView::Spawn {
                    dir,
                    task,
                    label: v.str_at("label"@),
                    hidden: !(v.get("hidden"@) == Some(JsonView::Bool(false))),
                },
            ),
            _ => None,
        }
    } else if op == Some("stop"@) {
        match v.str_at("targetSession"@) {
            Some(session) => Some(KindView::Stop { session }),
            None => None,
        }
    } else {
        None
    }
}

/// The submission that a JSON value describes. The target's directory is left
/// empty.
pub open spec fn submission_of(v: JsonView) -> Option<SubmissionView> {
    match (kind_of(v), v.str_at("id"@)) {
        (Some(kind), Some(id)) => Some(
            SubmissionView {
                id,
                from_cwd: match v.str_at("fromCwd"@) {
                    Some(c) => c,
                    None => Seq::empty(),
                },
                target_cwd: Seq::empty(),
                from_session: v.str_at("fromSession"@),
                kind,
            },
        ),
        _ => None,
    }
}

/// The submission that a document describes.
pub open spec fn submission_text(text: Seq<char>) -> Option<SubmissionView> {
    match json_parse(text) {
        Some(v) => submission_of(v),
        None => None,
    }
}

fn kind_from(v: &Json) -> (r: Option<Kind>)
    ensures
        r is Some == kind_of(v@) is Some,
        r matches Some(k) ==> kind_of(v@) == Some(k@),
{
    let op = match v.str_at("op") {
        Some(o) => o,
        None => {
            return None;
        },
    };
    proof {
        reveal_strlit("message");
        reveal_strlit("spawn");
        reveal_strlit("stop");
        assert("message"@.len() == 7 && "spawn"@.len() == 5 && "stop"@.len() == 4);
    }
    if same(op.as_str(), "message") {
        match (v.str_at("targetSession"), v.str_at("message")) {
            (Some(session), Some(text)) => Some(Kind::Message { session, text }),
            _ => None,
        }
    } else if same(op.as_str(), "spawn") {
        let hidden = match v.get("hidden") {
            Some(Json::Bool(b)) => *b,
            _ => true,
        };
        match (v.str_at("cwd"), v.str_at("task")) {
            (Some(dir), Some(task)) => Some(
                Kind::Spawn { dir, task, label: v.str_at("label"), hidden },
            ),
            _ => None,
        }
    } else if same(op.as_str(), "stop") {
        match v.str_at("targetSession") {
            Some(session) => Some(Kind::Stop { session }),
            None => None,
        }
    } else {
        None
    }
}

/// Reads a submission out of a JSON value.
pub fn submission_from(v: &Json) -> (r: Option<Submission>)
    ensures
        r is Some == submission_of(v@) is Some,
        r matches Some(s) ==> submission_of(v@) == Some(s@),
{
    match (kind_from(v), v.str_at("id")) {
        (Some(kind), Some(id)) => {
            let from_cwd = match v.str_at("fromCwd") {
                Some(c) => c,
                None => String::new(),
            };
            Some(
                Submission {
                    id,
                    from_cwd,
                    target_cwd: String::new(),
                    from_session: v.str_at("fromSession"),
                    kind,
                },
            )
        },
        _ => None,
    }
}

/// Parses one submission document. Each verb requires its own fields.
pub fn parse(text: &str) -> (r: Option<Submission>)
    ensures
        r is Some == submission_text(text@) is Some,
        r matches Some(s) ==> submission_text(text@) == Some(s@),
{
    match crate::json::parse(text) {
        Some(v) => submission_from(&v),
        None => None,
    }
}

/// The path in a submission envelope.
pub fn parse_submit(text: &str) -> (r: Option<String>)
    ensures
        opt_text(r) == (match json_parse(text@) {
            Some(v) => v.str_at("submit"@),
            None => None,
        }),
{
    match crate::json::parse(text) {
        Some(v) => v.str_at("submit"),
        None => None,
    }
}

/// The document asks for the roster.
pub open spec fn asks_list(text: Seq<char>) -> bool {
    match json_parse(text) {
        Some(v) => v.str_at("op"@) == Some("list"@),
        None => false,
    }
}

/// Whether a document asks for the roster.
pub fn is_list(text: &str) -> (r: bool)
    ensures
        r == asks_list(text@),
{
    match crate::json::parse(text) {
        Some(v) => match v.str_at("op") {
            Some(o) => same(o.as_str(), "list"),
            None => false,
        },
        None => false,
    }
}

// ---------------------------------------------------------------------------
// The roster
// ---------------------------------------------------------------------------
/// One session in the roster. Title, description and directory are told only of
/// a session that the caller may reach.
#[derive(Debug, PartialEq, Eq)]
pub struct RosterEntry {
    pub kind: String,
    pub title: Option<String>,
    pub description: Option<String>,
    pub cwd: Option<String>,
    pub session_id: String,
    pub live: bool,
}

#[verifier::ext_equal]
pub struct RosterView {
    pub kind: Seq<char>,
    pub title: Option<Seq<char>>,
    pub description: Option<Seq<char>>,
    pub cwd: Option<Seq<char>>,
    pub session_id: Seq<char>,
    pub live: bool,
}

impl View for RosterEntry {
    type V = RosterView;

    open spec fn view(&self) -> RosterView {
        RosterView {
            kind: self.kind@,
            title: opt_text(self.title),
            description: opt_text(self.description),
            cwd: opt_text(self.cwd),
            session_id: self.session_id@,
            live: self.live,
        }
    }
}

pub open spec fn roster_views(v: Seq<RosterEntry>) -> Seq<RosterView> {
    Seq::new(v.len(), |i: int| v[i]@)
}

/// The roster entry of a record, for a caller that may or may not reach it.
pub open spec fn roster_entry(e: RecordView, reach: bool) -> RosterView {
    RosterView {
        kind: match e.label {
            Some(l) => l,
            None => "agent"@,
        },
        title: if reach {
            e.title
        } else {
            None
        },
        description: if reach {
            e.description
        } else {
            None
        },
        cwd: if reach {
            e.cwd
        } else {
            None
        },
        session_id: e.session_id,
        live: e.socket is Some,
    }
}

/// The roster for a caller that may reach the directories of which `visible`
/// holds.
pub open spec fn roster_of(entries: Seq<RecordView>, visible: spec_fn(Seq<char>) -> bool) -> Seq<
    RosterView,
> {
    entries.map_values(|e: RecordView| roster_entry(e, e.cwd is Some && visible(e.cwd->0)))
}

/// Builds the roster for a caller. `visible` reports whether the caller may
/// reach a directory.
pub fn build_roster<F: Fn(&str) -> bool>(entries: &Vec<RegistryEntry>, visible: F) -> (r: Vec<
    RosterEntry,
>)
    requires
        forall|s: &str| call_requires(visible, (s,)),
    ensures
        r@.len() == entries@.len(),
        forall|i: int|
            #![trigger r@[i]]
            0 <= i < r@.len() ==> (r@[i]@ == roster_entry(entries@[i]@, true) || r@[i]@
                == roster_entry(entries@[i]@, false)),
        forall|p: spec_fn(Seq<char>) -> bool| #[trigger]
            decides(visible, p) ==> roster_views(r@) == roster_of(records(entries@), p),
{
    let mut out: Vec<RosterEntry> = Vec::new();
    let mut i: usize = 0;
    while i < entries.len()
        invariant
            i <= entries@.len(),
            out@.len() == i,
            forall|s: &str| call_requires(visible, (s,)),
            forall|j: int|
                #![trigger out@[j]]
                0 <= j < i ==> (out@[j]@ == roster_entry(entries@[j]@, true) || out@[j]@
                    == roster_entry(entries@[j]@, false)),
            forall|p: spec_fn(Seq<char>) -> bool, j: int|
                #![trigger decides(visible, p), out@[j]]
                decides(visible, p) && 0 <= j
                    < i ==> out@[j]@ == roster_entry(
                    entries@[j]@,
                    entries@[j]@.cwd is Some && p(entries@[j]@.cwd->0),
                ),
        decreases entries@.len() - i,
    {
        let e = &entries[i];
        let mut reach = false;
        if let Some(c) = &e.cwd {
            let dir = c.as_str();
            reach = visible(dir);
            assert(call_ensures(visible, (dir,), reach));
            assert(dir@ == e@.cwd->0);
        }
        assert forall|p: spec_fn(Seq<char>) -> bool|
            #[trigger] decides(visible, p) implies reach
            == (e@.cwd is Some && p(e@.cwd->0)) by {}
        let kind = match &e.label {
            Some(l) => l.clone(),
            None => "agent".to_owned(),
        };
        let (title, description, cwd) = if reach {
            (copy_opt_string(&e.title), copy_opt_string(&e.description), copy_opt_string(&e.cwd))
        } else {
            (None, None, None)
        };
        let item = RosterEntry {
            kind,
            title,
            description,
            cwd,
            session_id: e.session_id.clone(),
            live: e.socket.is_some(),
        };
        assert(item@ =~= roster_entry(e@, reach));
        out.push(item);
        assert forall|p: spec_fn(Seq<char>) -> bool, j: int|
            #![trigger decides(visible, p), out@[j]]
            decides(visible, p) && 0 <= j < i
                + 1 implies out@[j]@ == roster_entry(
            entries@[j]@,
            entries@[j]@.cwd is Some && p(entries@[j]@.cwd->0),
        ) by {}
        i = i + 1;
    }
    proof {
        assert forall|p: spec_fn(Seq<char>) -> bool| #[trigger] decides(visible, p) implies roster_views(
            out@,
        ) == roster_of(records(entries@), p) by {
            assert forall|j: int| 0 <= j < out@.len() implies roster_views(out@)[j] == roster_of(
                records(entries@),
                p,
            )[j] by {
                assert(out@[j]@ == roster_views(out@)[j]);
            }
            assert(roster_views(out@) =~= roster_of(records(entries@), p));
        }
    }
    out
}

/// A caller learns neither title nor description nor directory of a session
/// that it may not reach, and can still address it.
pub proof fn law_roster_hides_the_unreachable(
    entries: Seq<RecordView>,
    visible: spec_fn(Seq<char>) -> bool,
    i: int,
)
    requires
        0 <= i < entries.len(),
        entries[i].cwd is Some ==> !visible(entries[i].cwd->0),
    ensures
        roster_of(entries, visible)[i].title is None,
        roster_of(entries, visible)[i].description is None,
        roster_of(entries, visible)[i].cwd is None,
        roster_of(entries, visible)[i].session_id == entries[i].session_id,
{
}

/// A roster entry as a JSON value.
pub open spec fn roster_value(r: RosterView) -> JsonView {
    let a = Map::<Seq<char>, JsonView>::empty().insert("kind"@, JsonView::Str(r.kind));
    let b = match r.title {
        Some(t) => a.insert("title"@, JsonView::Str(t)),
        None => a,
    };
    let c = match r.description {
        Some(t) => b.insert("description"@, JsonView::Str(t)),
        None => b,
    };
    let d = match r.cwd {
        Some(t) => c.insert("cwd"@, JsonView::Str(t)),
        None => c,
    };
    JsonView::Object(
        d.insert("sessionId"@, JsonView::Str(r.session_id)).insert("live"@, JsonView::Bool(r.live)),
    )
}

/// The reply that holds a roster.
pub open spec fn roster_reply(r: Seq<RosterView>) -> JsonView {
    JsonView::Object(
        Map::<Seq<char>, JsonView>::empty().insert("status"@, JsonView::Str("ok"@)).insert(
            "agents"@,
            JsonView::Array(r.map_values(|x: RosterView| roster_value(x))),
        ),
    )
}

fn put_opt(b: &mut ObjectBuilder, key: &str, v: &Option<String>)
    ensures
        final(b)@ == (match opt_text(*v) {
            Some(t) => old(b)@.insert(key@, JsonView::Str(t)),
            None => old(b)@,
        }),
{
    match v {
        Some(t) => b.put(key, Json::of_str(t.as_str())),
        None => {},
    }
}

fn roster_item(r: &RosterEntry) -> (v: Json)
    ensures
        v@ == roster_value(r@),
{
    let mut b = ObjectBuilder::new();
    b.put("kind", Json::of_str(r.kind.as_str()));
    put_opt(&mut b, "title", &r.title);
    put_opt(&mut b, "description", &r.description);
    put_opt(&mut b, "cwd", &r.cwd);
    b.put("sessionId", Json::of_str(r.session_id.as_str()));
    b.put("live", Json::Bool(r.live));
    b.build()
}

proof fn lemma_roster_storable(r: Seq<RosterView>)
    ensures
        storable(roster_reply(r), 127),
{
    let a = r.map_values(|x: RosterView| roster_value(x));
    assert forall|i: int| 0 <= i < a.len() implies storable(#[trigger] a[i], 125) by {
        assert(a[i] == roster_value(r[i]));
        if let JsonView::Object(m) = a[i] {
            assert forall|k: Seq<char>| #[trigger] m.dom().contains(k) implies storable(m[k], 124) by {}
        }
    }
    assert(storable(JsonView::Array(a), 126));
    if let JsonView::Object(m) = roster_reply(r) {
        assert forall|k: Seq<char>| #[trigger] m.dom().contains(k) implies storable(m[k], 126) by {}
    }
}

/// The reply line that holds a roster, without its line feed.
pub fn roster_json(roster: &Vec<RosterEntry>) -> (r: String)
    ensures
        r@ == json_print(roster_reply(roster_views(roster@))),
        json_parse(r@) == Some(roster_reply(roster_views(roster@))),
        !r@.contains('\n'),
{
    let mut a: Vec<Json> = Vec::new();
    let mut i: usize = 0;
    while i < roster.len()
        invariant
            i <= roster@.len(),
            a@.len() == i,
            forall|j: int| 0 <= j < i ==> (#[trigger] a@[j])@ == roster_value(roster@[j]@),
        decreases roster@.len() - i,
    {
        a.push(roster_item(&roster[i]));
        i = i + 1;
    }
    let agents = Json::Array(a);
    proof {
        lemma_array_view(&agents);
        assert(json_views(a@) =~= roster_views(roster@).map_values(
            |x: RosterView| roster_value(x),
        ));
        lemma_roster_storable(roster_views(roster@));
    }
    let mut b = ObjectBuilder::new();
    b.put("status", Json::of_str("ok"));
    b.put("agents", agents);
    print(&b.build())
}

/// A request says what it is for: a message or a stop names its session and
/// a spawn its directory, and each is taken as it was written. A spawn is hidden
/// unless it says otherwise. What misses a part, or asks for anything else, is no
/// request.
pub proof fn law_request_is_taken_as_it_was_written(
    v: JsonView,
    x: Seq<char>,
    y: Seq<char>,
)
    ensures
        v.get("op"@) == Some(JsonView::Str("message"@)) ==> (kind_of(v) == Some(
            KindView::Message { session: x, text: y },
        ) <==> v.get("targetSession"@) == Some(JsonView::Str(x)) && v.get("message"@) == Some(
            JsonView::Str(y),
        )),
        v.get("op"@) == Some(JsonView::Str("stop"@)) ==> (kind_of(v) == Some(
            KindView::Stop { session: x },
        ) <==> v.get("targetSession"@) == Some(JsonView::Str(x))),
        v.get("op"@) == Some(JsonView::Str("spawn"@)) ==> {
            &&& kind_of(v) is Some <==> (v.get("cwd"@) matches Some(JsonView::Str(_))) && (v.get(
                "task"@,
            ) matches Some(JsonView::Str(_)))
            &&& kind_of(v) matches Some(k) ==> (k matches KindView::Spawn { dir, task, label, hidden } && {
                &&& v.get("cwd"@) == Some(JsonView::Str(dir))
                &&& v.get("task"@) == Some(JsonView::Str(task))
                &&& (label == Some(x) <==> v.get("label"@) == Some(JsonView::Str(x)))
                &&& (!hidden <==> v.get("hidden"@) == Some(JsonView::Bool(false)))
            })
        },
        kind_of(v) is Some ==> (kind_of(v)->0 is Message <==> v.get("op"@) == Some(
            JsonView::Str("message"@),
        )) && (kind_of(v)->0 is Spawn <==> v.get("op"@) == Some(JsonView::Str("spawn"@))) && (kind_of(
            v,
        )->0 is Stop <==> v.get("op"@) == Some(JsonView::Str("stop"@))),
        submission_of(v) is Some <==> kind_of(v) is Some && (v.get("id"@) matches Some(
            JsonView::Str(_),
        )),
        submission_of(v) matches Some(s) ==> {
            &&& kind_of(v) == Some(s.kind)
            &&& v.get("id"@) == Some(JsonView::Str(s.id))
            &&& (s.from_session == Some(x) <==> v.get("fromSession"@) == Some(JsonView::Str(x)))
            &&& s.target_cwd.len() == 0
        },
{
    reveal_strlit("message");
    reveal_strlit("stop");
    reveal_strlit("spawn");
    assert("message"@.len() == 7);
    assert("stop"@.len() == 4);
    assert("spawn"@.len() == 5);
}

/// A message and a stop are for their session and a spawn for its directory, and
/// what is handed over is the text of a message, the task of a spawn, and nothing
/// of a stop.
pub proof fn law_request_is_for_its_target(session: Seq<char>, text: Seq<char>, dir: Seq<char>, label: Option<Seq<char>>, hidden: bool)
    ensures
        (KindView::Message { session, text }).target() == TargetView::Session(session),
        (KindView::Stop { session }).target() == TargetView::Session(session),
        (KindView::Spawn { dir, task: text, label, hidden }).target() == TargetView::Dir(dir),
        (KindView::Message { session, text }).body() == text,
        (KindView::Spawn { dir, task: text, label, hidden }).body() == text,
        (KindView::Stop { session }).body().len() == 0,
{
}

/// The tag names the sender's directory, and the sender's session exactly where
/// it can be replied to; the target is told by its directory, and by its session
/// where it is one.
pub proof fn law_tag_names_the_sender(s: SubmissionView, sid: Seq<char>)
    ensures
        has_infix(s.tag(), on_one_line(leaf(s.from_cwd))),
        s.from_session == Some(sid) && !sid.contains('\n') ==> s.reply_handle() == Some(sid)
            && has_infix(s.tag(), "(session "@ + sid + ")"@),
        s.from_session is None || s.from_session->0.contains('\n') ==> s.reply_handle() is None
            && s.tag().len() == on_one_line(leaf(s.from_cwd)).len() + 7,
        s.kind is Spawn ==> s.target_label() == s.target_cwd && s.target_label_short() == leaf(
            s.target_cwd,
        ),
        s.kind.target() == TargetView::Session(sid) ==> s.target_label() == s.target_cwd
            + " (session "@ + sid + ")"@ && s.target_label_short() == leaf(s.target_cwd)
            + " (session "@ + sid + ")"@,
{
    reveal_strlit("[from ");
    reveal_strlit(" (session ");
    reveal_strlit("(session ");
    reveal_strlit(")]");
    reveal_strlit(")");
    reveal_strlit("]");
    let from = on_one_line(leaf(s.from_cwd));
    let t = s.tag();
    assert(t.subrange(6, 6int + from.len()) =~= from);
    assert(infix_at(t, from, 6));
    if s.from_session == Some(sid) && !sid.contains('\n') {
        let h = "(session "@ + sid + ")"@;
        let k: int = 6int + from.len() + 1;
        assert(t.subrange(k, k + h.len()) =~= h);
        assert(infix_at(t, h, k));
    }
}

/// The answers are told apart by their words.
pub proof fn law_answers_are_told_apart(a: Ack, b: Ack)
    requires
        a.word() == b.word(),
    ensures
        a == b,
        Ack::Accepted.word() == "accepted"@,
        Ack::ApprovalNeeded.word() == "approval_needed"@,
        Ack::RecipientNotFound.word() == "recipient_not_found"@,
        Ack::DirectoryNotKnown.word() == "directory_not_known"@,
        Ack::AlreadyStopped.word() == "already_stopped"@,
{
    reveal_strlit("accepted");
    reveal_strlit("approval_needed");
    reveal_strlit("recipient_not_found");
    reveal_strlit("directory_not_known");
    reveal_strlit("already_stopped");
    assert("accepted"@[1] == 'c');
    assert("approval_needed"@.len() == 15);
    assert("recipient_not_found"@[0] == 'r');
    assert("directory_not_known"@[0] == 'd');
    assert("already_stopped"@[1] == 'l');
    assert("approval_needed"@[1] == 'p');
    assert("accepted"@[0] == 'a' && "approval_needed"@[0] == 'a' && "already_stopped"@[0] == 'a');
}

/// A request to a session that the registry knows, in a directory, is accepted
/// where the sender's directory may send there and put to the operator where it
/// may not, whether the session runs or not; only a stop of one that does not run
/// is answered that it is stopped. A session that the registry does not know is
/// not found.
pub proof fn law_known_session_is_judged_by_the_whitelist(
    whitelist: Option<Seq<char>>,
    sub: SubmissionView,
    entries: Seq<RecordView>,
    canonical: Option<Seq<char>>,
    sid: Seq<char>,
    cwd: Seq<char>,
    k: int,
)
    requires
        sub.kind.target() == TargetView::Session(sid),
    ensures
        0 <= k < entries.len() && entries[k].session_id == sid && (forall|i: int|
            0 <= i < k ==> (#[trigger] entries[i]).session_id != sid) && entries[k].cwd == Some(cwd)
            ==> judged(whitelist, sub, entries, canonical) == (if sub.kind is Stop
            && entries[k].socket is None {
            Ack::AlreadyStopped
        } else if granted(whitelist, sub.from_cwd, cwd) {
            Ack::Accepted
        } else {
            Ack::ApprovalNeeded
        }),
        (forall|i: int| 0 <= i < entries.len() ==> (#[trigger] entries[i]).session_id != sid)
            ==> judged(whitelist, sub, entries, canonical) == Ack::RecipientNotFound,
{
    law_first_record_speaks_for_a_session(entries, sid, k);
}

/// A spawn in a directory that is there is accepted where the sender may send
/// there and put to the operator where it may not. Of one that is not there the
/// sender learns only where it is its own or one that it may send to; any other
/// is put to the operator, as if it were there.
pub proof fn law_spawn_is_judged_by_the_whitelist(
    whitelist: Option<Seq<char>>,
    sub: SubmissionView,
    entries: Seq<RecordView>,
    canonical: Option<Seq<char>>,
    dir: Seq<char>,
)
    requires
        sub.kind.target() == TargetView::Dir(dir),
    ensures
        canonical matches Some(c) ==> judged(whitelist, sub, entries, canonical) == (if granted(
            whitelist,
            sub.from_cwd,
            c,
        ) {
            Ack::Accepted
        } else {
            Ack::ApprovalNeeded
        }),
        canonical is None ==> judged(whitelist, sub, entries, canonical) == (if dir == sub.from_cwd
            || granted(whitelist, sub.from_cwd, dir) {
            Ack::DirectoryNotKnown
        } else {
            Ack::ApprovalNeeded
        }),
{
}

/// A missing or empty whitelist grants nothing, but a sender reaches its own
/// directory whatever it says.
pub proof fn law_nothing_is_granted_unasked(
    whitelist: Option<Seq<char>>,
    from: Seq<char>,
    target: Seq<char>,
)
    ensures
        !granted(None, from, target),
        !granted(Some(Seq::empty()), from, target),
        may_reach(whitelist, from, from),
        from != target ==> may_reach(whitelist, from, target) == granted(whitelist, from, target),
{
    assert(split(Seq::<char>::empty(), '\n') =~= seq![Seq::<char>::empty()]);
    assert(lines(Seq::<char>::empty()).len() == 0);
}

/// The roster has each session once, in order, with its kind and whether it
/// runs; a caller that may reach it sees its title, description and directory
/// too.
pub proof fn law_roster_shows_the_reachable(
    entries: Seq<RecordView>,
    visible: spec_fn(Seq<char>) -> bool,
    i: int,
)
    requires
        0 <= i < entries.len(),
    ensures
        roster_of(entries, visible).len() == entries.len(),
        roster_of(entries, visible)[i].session_id == entries[i].session_id,
        roster_of(entries, visible)[i].live <==> entries[i].socket is Some,
        entries[i].label matches Some(l) ==> roster_of(entries, visible)[i].kind == l,
        entries[i].label is None ==> roster_of(entries, visible)[i].kind == "agent"@,
        entries[i].cwd matches Some(c) ==> (visible(c) ==> {
            &&& roster_of(entries, visible)[i].cwd == Some(c)
            &&& roster_of(entries, visible)[i].title == entries[i].title
            &&& roster_of(entries, visible)[i].description == entries[i].description
        }),
{
}

/// What is sent of a roster entry can be read back from it, and holds nothing
/// that the entry does not.
pub proof fn law_roster_entry_is_read_back(r: RosterView)
    ensures
        roster_value(r).str_at("kind"@) == Some(r.kind),
        roster_value(r).str_at("title"@) == r.title,
        roster_value(r).str_at("description"@) == r.description,
        roster_value(r).str_at("cwd"@) == r.cwd,
        roster_value(r).str_at("sessionId"@) == Some(r.session_id),
        roster_value(r).get("live"@) == Some(JsonView::Bool(r.live)),
        r.title is None ==> roster_value(r).get("title"@) is None,
        r.description is None ==> roster_value(r).get("description"@) is None,
        r.cwd is None ==> roster_value(r).get("cwd"@) is None,
{
    reveal_strlit("kind");
    reveal_strlit("title");
    reveal_strlit("description");
    reveal_strlit("cwd");
    reveal_strlit("sessionId");
    reveal_strlit("live");
    assert("kind"@.len() == 4 && "kind"@[0] == 'k');
    assert("live"@.len() == 4 && "live"@[0] == 'l');
    assert("title"@.len() == 5);
    assert("description"@.len() == 11);
    assert("cwd"@.len() == 3);
    assert("sessionId"@.len() == 9);
}

/// A roster is answered as a list of its entries, in order, under the word that
/// all is well.
pub proof fn law_roster_is_answered_entry_by_entry(rs: Seq<RosterView>, i: int)
    ensures
        roster_reply(rs).str_at("status"@) == Some("ok"@),
        roster_reply(rs).get("agents"@) matches Some(JsonView::Array(a)) && a.len() == rs.len() && (0
            <= i < rs.len() ==> a[i] == roster_value(rs[i])),
{
    reveal_strlit("status");
    reveal_strlit("agents");
    assert("status"@[0] != "agents"@[0]);
}

} // verus!
