//! What the operator is told, and when: each waiting submission once by a
//! notification, the first of them on the tray, and the kind that waits to be
//! registered.
use vstd::prelude::*;

use crate::approved_commands::{Template};
use crate::daemon::curator::{describe, description_parts};
use crate::daemon::mailbox::{basename, Kind, KindView, Submission, SubmissionView};
use crate::daemon::router::{has_id, waiting, ApprovalAction, Pending};
use crate::daemon::tray::opt_pair;
use crate::palette::leaf;
use crate::text::{cat3, contains_text, has_prefix, has_suffix, joined, opt_text, same, texts};

verus! {

/// The tray's summary of a submission: who, which verb, to whom.
pub open spec fn summary(s: SubmissionView) -> Seq<char> {
    leaf(s.from_cwd) + " → "@ + (match s.kind {
        KindView::Stop { .. } => "stop "@,
        KindView::Spawn { .. } => "spawn in "@,
        KindView::Message { .. } => ""@,
    }) + s.target_label_short()
}

/// The tray's summary of a submission. The verb stands in front of the target,
/// so that a kill or a new agent is not taken for a message.
pub fn summarize(s: &Submission) -> (r: String)
    ensures
        r@ == summary(s@),
{
    let verb = match &s.kind {
        Kind::Stop { .. } => "stop ",
        Kind::Spawn { .. } => "spawn in ",
        Kind::Message { .. } => "",
    };
    let mut t = cat3(basename(s.from_cwd.as_str()), " → ", verb);
    let label = s.target_label_short();
    t.append(label.as_str());
    t
}

pub open spec fn action_word(a: ApprovalAction) -> Seq<char> {
    match a {
        ApprovalAction::AllowOnce => "AllowOnce"@,
        ApprovalAction::AllowAlways => "AllowAlways"@,
        ApprovalAction::Deny => "Deny"@,
    }
}

/// The audit line of a decision.
pub fn decision_line(s: &Submission, action: ApprovalAction) -> (r: String)
    ensures
        r@ == "message "@ + action_word(action) + ": "@ + s@.from_cwd + " -> "@
            + s@.target_label(),
        r@ == decision_said(s@, action),
{
    let word = match action {
        ApprovalAction::AllowOnce => "AllowOnce",
        ApprovalAction::AllowAlways => "AllowAlways",
        ApprovalAction::Deny => "Deny",
    };
    let mut t = cat3("message ", word, ": ");
    t.append(s.from_cwd.as_str());
    t.append(" -> ");
    let label = s.target_label();
    t.append(label.as_str());
    t
}

/// A notification to be shown.
#[derive(Debug, PartialEq, Eq)]
pub struct Notice {
    pub id: String,
    pub from: String,
    pub target: String,
    pub body: String,
}

#[verifier::ext_equal]
pub struct NoticeView {
    pub id: Seq<char>,
    pub from: Seq<char>,
    pub target: Seq<char>,
    pub body: Seq<char>,
}

impl View for Notice {
    type V = NoticeView;

    open spec fn view(&self) -> NoticeView {
        NoticeView { id: self.id@, from: self.from@, target: self.target@, body: self.body@ }
    }
}

pub open spec fn notices(v: Seq<Notice>) -> Seq<NoticeView> {
    Seq::new(v.len(), |i: int| v[i]@)
}

pub open spec fn notice_of(s: SubmissionView) -> NoticeView {
    NoticeView {
        id: s.id,
        from: leaf(s.from_cwd),
        target: s.target_label_short(),
        body: s.kind.body(),
    }
}

/// What changed about the kind that waits to be registered.
#[derive(Debug, PartialEq, Eq)]
pub enum RegistrationNews {
    /// Another kind waits: its label and its launch set.
    Show(String, String),
    /// None waits any more.
    Clear,
    /// Nothing new.
    Keep,
}

/// What was announced already.
#[derive(Debug)]
pub struct Announcer {
    announced: Vec<String>,
    tray_shown: Option<String>,
    registration: Option<String>,
}

#[verifier::ext_equal]
pub struct AnnouncerView {
    pub announced: Set<Seq<char>>,
    pub tray_shown: Option<Seq<char>>,
    pub registration: Option<Seq<char>>,
}

impl View for Announcer {
    type V = AnnouncerView;

    closed spec fn view(&self) -> AnnouncerView {
        AnnouncerView {
            announced: texts(self.announced@).to_set(),
            tray_shown: opt_text(self.tray_shown),
            registration: opt_text(self.registration),
        }
    }
}

/// The submissions that were not announced yet, each id once, in order.
pub open spec fn unannounced(
    pending: Seq<SubmissionView>,
    announced: Set<Seq<char>>,
) -> Seq<SubmissionView>
    decreases pending.len(),
{
    if pending.len() == 0 {
        Seq::empty()
    } else {
        let rest = unannounced(pending.drop_last(), announced);
        if announced.contains(pending.last().id) || has_id(pending.drop_last(), pending.last().id) {
            rest
        } else {
            rest.push(pending.last())
        }
    }
}

/// The ids of what waits.
pub open spec fn ids(pending: Seq<SubmissionView>) -> Set<Seq<char>> {
    pending.map_values(|s: SubmissionView| s.id).to_set()
}

impl Announcer {
    pub fn new() -> (r: Self)
        ensures
            r@ == (AnnouncerView {
                announced: Set::empty(),
                tray_shown: None,
                registration: None,
            }),
    {
        let r = Announcer { announced: Vec::new(), tray_shown: None, registration: None };
        assert(r@ =~= (AnnouncerView {
            announced: Set::empty(),
            tray_shown: None,
            registration: None,
        }));
        r
    }

    /// The notifications to show now: one for each waiting submission that has
    /// none yet. What does not wait any more is forgotten, so that it is
    /// announced anew if it comes again.
    pub fn announce(&mut self, pending: &Vec<Pending>) -> (r: Vec<Notice>)
        ensures
            notices(r@) == unannounced(waiting(pending@), old(self)@.announced).map_values(
                |s: SubmissionView| notice_of(s),
            ),
            final(self)@ == (AnnouncerView { announced: ids(waiting(pending@)), ..old(self)@ }),
    {
        let ghost p = waiting(pending@);
        let ghost a = self@.announced;
        let ghost f = |s: SubmissionView| notice_of(s);
        let mut out: Vec<Notice> = Vec::new();
        let mut seen: Vec<String> = Vec::new();
        let mut i: usize = 0;
        proof {
            assert(p.take(0) =~= Seq::empty());
            assert(notices(out@) =~= unannounced(p.take(0), a).map_values(f));
        }
        while i < pending.len()
            invariant
                i <= pending@.len(),
                p == waiting(pending@),
                a == texts(self.announced@).to_set(),
                f == (|s: SubmissionView| notice_of(s)),
                seen@.len() == i,
                forall|j: int| 0 <= j < i ==> (#[trigger] seen@[j])@ == p[j].id,
                notices(out@) == unannounced(p.take(i as int), a).map_values(f),
            decreases pending@.len() - i,
        {
            let s = &pending[i].sub;
            assert(p[i as int] == s@);
            let ghost before = unannounced(p.take(i as int), a);
            proof {
                assert(p.take(i + 1).drop_last() =~= p.take(i as int));
                assert(texts(seen@).contains(s@.id) == has_id(p.take(i as int), s@.id)) by {
                    let t = p.take(i as int);
                    if texts(seen@).contains(s@.id) {
                        let k = choose|k: int| 0 <= k < texts(seen@).len() && texts(seen@)[k] == s@.id;
                        assert(seen@[k]@ == p[k].id);
                        assert(t[k].id == s@.id);
                    }
                    if has_id(t, s@.id) {
                        let k = choose|k: int| 0 <= k < t.len() && (#[trigger] t[k]).id == s@.id;
                        assert(seen@[k]@ == p[k].id);
                        assert(texts(seen@)[k] == s@.id);
                    }
                }
            }
            let ghost prior = out@;
            if !contains_text(&self.announced, s.id.as_str()) && !contains_text(
                &seen,
                s.id.as_str(),
            ) {
                out.push(
                    Notice {
                        id: s.id.clone(),
                        from: basename(s.from_cwd.as_str()).to_owned(),
                        target: s.target_label_short(),
                        body: s.body().to_owned(),
                    },
                );
                assert(notices(out@) =~= notices(prior).push(notice_of(s@)));
                assert(before.push(s@).map_values(f) =~= before.map_values(f).push(notice_of(s@)));
            }
            seen.push(s.id.clone());
            i = i + 1;
        }
        assert(p.take(i as int) =~= p);
        assert(texts(seen@) =~= p.map_values(|s: SubmissionView| s.id));
        self.announced = seen;
        assert(self@ =~= (AnnouncerView { announced: ids(p), ..old(self)@ }));
        out
    }

    /// What the tray is to show, if that changed: the id and the summary of the
    /// first submission that waits, or nothing.
    pub fn tray_head(&mut self, head: Option<&Pending>) -> (r: Option<Option<(String, String)>>)
        ensures
            ({
                let id = match head {
                    Some(p) => Some(p.sub@.id),
                    None => None,
                };
                &&& r is Some == (id != old(self)@.tray_shown)
                &&& r matches Some(x) ==> opt_pair(x) == (match head {
                    Some(p) => Some((p.sub@.id, summary(p.sub@))),
                    None => None,
                })
                &&& final(self)@ == (AnnouncerView { tray_shown: id, ..old(self)@ })
            }),
            opt_news(r) == tray_news(
                old(self)@.tray_shown,
                match head {
                    Some(p) => Some(p.sub@),
                    None => None,
                },
            ),
    {
        let shown = match (head, &self.tray_shown) {
            (Some(p), Some(id)) => same(p.sub.id.as_str(), id.as_str()),
            (None, None) => true,
            _ => false,
        };
        if shown {
            return None;
        }
        match head {
            Some(p) => {
                self.tray_shown = Some(p.sub.id.clone());
                Some(Some((p.sub.id.clone(), summarize(&p.sub))))
            },
            None => {
                self.tray_shown = None;
                Some(None)
            },
        }
    }

    /// What changed about the kind that waits to be registered.
    pub fn registration_news(&mut self, current: Option<&(String, Template)>) -> (r: RegistrationNews)
        ensures
            match current {
                Some(x) => if old(self)@.registration == Some(x.0@) {
                    r is Keep && final(self)@ == old(self)@
                } else {
                    &&& r matches RegistrationNews::Show(l, d) && l@ == x.0@ && d@ == joined(
                        description_parts(x.1@),
                        " "@,
                    )
                    &&& final(self)@ == (AnnouncerView {
                        registration: Some(x.0@),
                        ..old(self)@
                    })
                },
                None => if old(self)@.registration is Some {
                    r is Clear && final(self)@ == (AnnouncerView {
                        registration: None,
                        ..old(self)@
                    })
                } else {
                    r is Keep && final(self)@ == old(self)@
                },
            },
    {
        match current {
            Some(x) => {
                let shown = match &self.registration {
                    Some(l) => same(l.as_str(), x.0.as_str()),
                    None => false,
                };
                if shown {
                    RegistrationNews::Keep
                } else {
                    self.registration = Some(x.0.clone());
                    RegistrationNews::Show(x.0.clone(), describe(&x.1))
                }
            },
            None => if self.registration.is_some() {
                self.registration = None;
                RegistrationNews::Clear
            } else {
                RegistrationNews::Keep
            },
        }
    }

    /// Forgets which kind is shown, once one was decided.
    pub fn registration_decided(&mut self)
        ensures
            final(self)@ == (AnnouncerView { registration: None, ..old(self)@ }),
    {
        self.registration = None;
    }
}

/// Announcing the same submissions again shows nothing.
pub proof fn law_announced_once(pending: Seq<SubmissionView>)
    ensures
        unannounced(pending, ids(pending)).len() == 0,
{
    lemma_all_announced(pending, ids(pending));
}

proof fn lemma_all_announced(pending: Seq<SubmissionView>, announced: Set<Seq<char>>)
    requires
        ids(pending).subset_of(announced),
    ensures
        unannounced(pending, announced).len() == 0,
    decreases pending.len(),
{
    if pending.len() > 0 {
        let f = |s: SubmissionView| s.id;
        let t = pending.drop_last();
        assert(pending.map_values(f)[pending.len() - 1] == pending.last().id);
        assert(ids(pending).contains(pending.last().id));
        assert forall|x: Seq<char>| ids(t).contains(x) implies announced.contains(x) by {
            let k = choose|k: int| 0 <= k < t.map_values(f).len() && t.map_values(f)[k] == x;
            assert(pending.map_values(f)[k] == x);
            assert(ids(pending).contains(x));
        }
        lemma_all_announced(t, announced);
    }
}

/// Every waiting submission whose id was not announced before is announced.
pub proof fn law_new_id_is_announced(
    pending: Seq<SubmissionView>,
    announced: Set<Seq<char>>,
    i: int,
)
    requires
        0 <= i < pending.len(),
        !announced.contains(pending[i].id),
    ensures
        has_id(unannounced(pending, announced), pending[i].id),
    decreases pending.len(),
{
    let t = pending.drop_last();
    let id = pending[i].id;
    let rest = unannounced(t, announced);
    let all = unannounced(pending, announced);
    if has_id(t, id) {
        let k = choose|k: int| 0 <= k < t.len() && (#[trigger] t[k]).id == id;
        law_new_id_is_announced(t, announced, k);
        let j = choose|j: int| 0 <= j < rest.len() && (#[trigger] rest[j]).id == id;
        assert(all[j].id == id);
    } else {
        assert(i == pending.len() - 1) by {
            if i < pending.len() - 1 {
                assert(t[i].id == id);
            }
        }
        assert(all[rest.len() as int].id == id);
    }
}

/// What is announced waits and was not announced before, and tells of itself: its
/// id, its text, and the last components of where it comes from and goes to.
pub proof fn law_announced_submission_waits(
    pending: Seq<SubmissionView>,
    announced: Set<Seq<char>>,
    i: int,
)
    requires
        0 <= i < unannounced(pending, announced).len(),
    ensures
        pending.contains(unannounced(pending, announced)[i]),
        !announced.contains(unannounced(pending, announced)[i].id),
    decreases pending.len(),
{
    let t = pending.drop_last();
    let rest = unannounced(t, announced);
    if i < rest.len() {
        law_announced_submission_waits(t, announced, i);
        let k = choose|k: int| 0 <= k < t.len() && t[k] == rest[i];
        assert(pending[k] == t[k]);
        assert(unannounced(pending, announced)[i] == rest[i]);
    } else {
        assert(pending[pending.len() - 1] == pending.last());
    }
}

/// A notice and a summary tell of their submission: whom it is from and for, and
/// a notice what it says. A stop and a spawn are told apart from a message.
pub proof fn law_notice_tells_of_its_submission(s: SubmissionView)
    ensures
        notice_of(s).id == s.id,
        notice_of(s).body == s.kind.body(),
        notice_of(s).from == leaf(s.from_cwd),
        notice_of(s).target == s.target_label_short(),
        has_prefix(summary(s), leaf(s.from_cwd)),
        has_suffix(summary(s), s.target_label_short()),
        s.kind is Stop ==> has_suffix(summary(s), "stop "@ + s.target_label_short()),
        s.kind is Spawn ==> has_suffix(summary(s), "spawn in "@ + s.target_label_short()),
{
    let m = summary(s);
    let f = leaf(s.from_cwd);
    let t = s.target_label_short();
    reveal_strlit("");
    assert(m.subrange(0, f.len() as int) =~= f);
    assert(m.subrange(m.len() - t.len(), m.len() as int) =~= t);
    if s.kind is Stop {
        let x = "stop "@ + t;
        assert(m.subrange(m.len() - x.len(), m.len() as int) =~= x);
    }
    if s.kind is Spawn {
        let x = "spawn in "@ + t;
        assert(m.subrange(m.len() - x.len(), m.len() as int) =~= x);
    }
}

/// The actions are told apart by their words.
pub proof fn law_actions_are_told_apart(a: ApprovalAction, b: ApprovalAction)
    requires
        action_word(a) == action_word(b),
    ensures
        a == b,
        action_word(ApprovalAction::Deny) == "Deny"@,
{
    reveal_strlit("AllowOnce");
    reveal_strlit("AllowAlways");
    reveal_strlit("Deny");
    assert("AllowOnce"@.len() == 9);
    assert("AllowAlways"@.len() == 11);
    assert("Deny"@.len() == 4);
}

pub open spec fn opt_news(r: Option<Option<(String, String)>>) -> Option<Option<(Seq<char>, Seq<char>)>> {
    match r {
        Some(x) => Some(opt_pair(x)),
        None => None,
    }
}

/// What the tray is told, if it is told anything: what it is to show now.
pub open spec fn tray_news(shown: Option<Seq<char>>, head: Option<SubmissionView>) -> Option<
    Option<(Seq<char>, Seq<char>)>,
> {
    match (shown, head) {
        (None, None) => None,
        (Some(_), None) => Some(None),
        (None, Some(s)) => Some(Some((s.id, summary(s)))),
        (Some(id), Some(s)) => if id == s.id {
            None
        } else {
            Some(Some((s.id, summary(s))))
        },
    }
}

/// The tray is told only what it does not show already: the submission that is
/// first now, under its own id, or that none waits.
pub proof fn law_tray_is_told_what_is_new(shown: Option<Seq<char>>, s: SubmissionView)
    ensures
        tray_news(Some(s.id), Some(s)) is None,
        tray_news(None, None) is None,
        shown != Some(s.id) ==> tray_news(shown, Some(s)) == Some(Some((s.id, summary(s)))),
        shown is Some ==> tray_news(shown, None) == Some(None::<(Seq<char>, Seq<char>)>),
{
}

/// What is put on record of a decision.
pub open spec fn decision_said(s: SubmissionView, action: ApprovalAction) -> Seq<char> {
    "message "@ + action_word(action) + ": "@ + s.from_cwd + " -> "@ + s.target_label()
}

/// What is put on record of a decision says what was decided, and of which
/// directory's submission to whom.
pub proof fn law_decision_is_put_on_record(s: SubmissionView, action: ApprovalAction)
    ensures
        has_prefix(decision_said(s, action), "message "@ + action_word(action)),
        has_suffix(decision_said(s, action), s.from_cwd + " -> "@ + s.target_label()),
{
    let d = decision_said(s, action);
    let p = "message "@ + action_word(action);
    let q = s.from_cwd + " -> "@ + s.target_label();
    assert(d.subrange(0, p.len() as int) =~= p);
    assert(d.subrange(d.len() - q.len(), d.len() as int) =~= q);
}

} // verus!
