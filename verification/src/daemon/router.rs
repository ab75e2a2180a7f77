//! Routing submissions: which are performed, which wait for the operator, and
//! what performing one takes.
use vstd::prelude::*;

use crate::approved_commands::{denormalize, denormalized, filled_in, law_template_is_filled_in};
use crate::daemon::mailbox::{
    grant_line, granted, is_whitelisted, law_grant_is_exact, listable, refused_listing, whitelist_add,
    with_grant, Kind, KindView, Submission, SubmissionView,
};
use crate::discovery::{
    law_record_launches_as_announced, live_socket, records, socket_of, sole_record, unique_session, RecordView, RegistryEntry,
};
use crate::launch::{opt_str, outcome, LaunchMode, LaunchModeView};
use crate::text::{
    cat, cat3, copy_strings, has_infix, infix_at, join, joined, opt_text, same, texts,
};

verus! {

/// What a freshly spawned agent is told before its task: how it is reached, and
/// how it is to work with those who reach it.
pub const CHARTER: &'static str = "You are a coding agent reached through corral, a board that connects independent\nagent sessions running in separate working directories. Another agent spawned you to\ndo a task. You are sandboxed to your own directory and cannot see any other agent's\nscreen, thinking, or transcript.\n\nYour only channel to other agents is corral's tools:\n- corral_message_agent({target_session, message}): message one exact agent, named by\n  the session id in a message's [from <dir> (session <id>)] reply handle.\n- corral_spawn_agent({cwd, task, label?, window?}): start a fresh agent in a directory\n  with that task as its first prompt.\n- corral_list_agents(): see which sessions exist and which you may reach.\n- corral_stop_agent({target_session}): stop an agent you no longer need.\nA message you receive is tagged with its sender's directory and session id; reply by\ncalling corral_message_agent(target_session = that id). Delivery is fire-and-forget: a\nturn that ends without a corral_message_agent call tells the sender nothing.\n\nBefore starting work, confirm the task (task-confirmation handshake): your FIRST turn\nmust message the agent that spawned you (using its session reply handle) with (1) the\ntask in your own words and (2) your clarification questions. Ask generously; assume the\ntask is underspecified. Then end your turn and wait for a go-ahead before working.\n\nKeep routine progress lateral or downward; reach up to your spawner for the handshake,\nblockers you cannot resolve, decisions only it can make, and final results. If you are\ngenuinely unsure, first try to resolve it yourself (read code, use tools); if it is a\njudgment only someone above can make, escalate the question up to your spawner rather\nthan guessing. You cannot reach the human directly; uncertainty flows up the chain.\n\nEvent-driven: you run only when a message arrives. After you act, end your turn and go\nidle; you are re-woken when another agent messages you. Do not poll or busy-wait.";

/// An operator's decision.
#[derive(Debug, Clone, Copy, PartialEq, Eq, Structural)]
pub enum ApprovalAction {
    AllowOnce,
    AllowAlways,
    Deny,
}

/// A submission that waits for the operator.
#[derive(Debug, PartialEq, Eq)]
pub struct Pending {
    pub sub: Submission,
}

/// A submission that is to be routed, and whether the operator allowed it.
#[derive(Debug)]
struct Queued {
    sub: Submission,
    allowed: bool,
}

/// A submission that is to be routed. What the operator allowed is this one
/// submission, once.
#[verifier::ext_equal]
pub struct QueuedView {
    pub sub: SubmissionView,
    pub allowed: bool,
}

impl View for Queued {
    type V = QueuedView;

    closed spec fn view(&self) -> QueuedView {
        QueuedView { sub: self.sub@, allowed: self.allowed }
    }
}

/// The submissions that were accepted, and those that wait.
#[derive(Debug)]
pub struct Router {
    queue: Vec<Queued>,
    pending: Vec<Pending>,
}

/// What a router holds: what is to be routed, and what waits.
#[verifier::ext_equal]
pub struct RouterView {
    pub queue: Seq<QueuedView>,
    pub pending: Seq<SubmissionView>,
}

spec fn queued(v: Seq<Queued>) -> Seq<QueuedView> {
    Seq::new(v.len(), |i: int| v[i]@)
}

pub open spec fn submissions(v: Seq<Submission>) -> Seq<SubmissionView> {
    Seq::new(v.len(), |i: int| v[i]@)
}

pub open spec fn waiting(v: Seq<Pending>) -> Seq<SubmissionView> {
    Seq::new(v.len(), |i: int| v[i].sub@)
}

impl View for Router {
    type V = RouterView;

    closed spec fn view(&self) -> RouterView {
        RouterView {
            queue: queued(self.queue@),
            pending: waiting(self.pending@),
        }
    }
}

// ---------------------------------------------------------------------------
// What routing does
// ---------------------------------------------------------------------------
/// The pair of a submission is whitelisted.
pub open spec fn pair_granted(whitelist: Option<Seq<char>>, s: SubmissionView) -> bool {
    granted(whitelist, s.from_cwd, s.target_cwd)
}

/// Submissions whose pair was whitelisted while they waited.
pub open spec fn released(v: RouterView, whitelist: Option<Seq<char>>) -> Seq<SubmissionView> {
    v.pending.filter(|s: SubmissionView| pair_granted(whitelist, s))
}

/// A submission that the operator has not decided on.
pub open spec fn unasked(s: SubmissionView) -> QueuedView {
    QueuedView { sub: s, allowed: false }
}

/// A submission may be performed: the operator allowed it, or its pair is
/// whitelisted.
pub open spec fn authorized(whitelist: Option<Seq<char>>, q: QueuedView) -> bool {
    q.allowed || pair_granted(whitelist, q.sub)
}

/// Everything to be routed, in order.
pub open spec fn to_route(v: RouterView, whitelist: Option<Seq<char>>) -> Seq<QueuedView> {
    v.queue + released(v, whitelist).map_values(|s: SubmissionView| unasked(s))
}

/// Those of the entries that may be performed, in order.
pub open spec fn authorized_of(q: Seq<QueuedView>, whitelist: Option<Seq<char>>) -> Seq<SubmissionView> {
    q.filter(|e: QueuedView| authorized(whitelist, e)).map_values(|e: QueuedView| e.sub)
}

/// What a pass performs: every authorized submission, in order.
pub open spec fn performed(v: RouterView, whitelist: Option<Seq<char>>) -> Seq<SubmissionView> {
    authorized_of(to_route(v, whitelist), whitelist)
}

/// Some submission has the id.
pub open spec fn has_id(p: Seq<SubmissionView>, id: Seq<char>) -> bool {
    exists|i: int| 0 <= i < p.len() && (#[trigger] p[i]).id == id
}

/// What waits once entries were gone through: each that is not authorized is
/// added unless one with its id waits already.
pub open spec fn parked(
    pending: Seq<SubmissionView>,
    entries: Seq<QueuedView>,
    whitelist: Option<Seq<char>>,
) -> Seq<SubmissionView>
    decreases entries.len(),
{
    if entries.len() == 0 {
        pending
    } else {
        let p = parked(pending, entries.drop_last(), whitelist);
        let e = entries.last();
        if authorized(whitelist, e) || has_id(p, e.sub.id) {
            p
        } else {
            p.push(e.sub)
        }
    }
}

/// The router after a pass: nothing is left to be routed, and no approval is left
/// over.
pub open spec fn after_pass(v: RouterView, whitelist: Option<Seq<char>>) -> RouterView {
    RouterView {
        queue: Seq::empty(),
        pending: parked(
            v.pending.filter(|s: SubmissionView| !pair_granted(whitelist, s)),
            to_route(v, whitelist),
            whitelist,
        ),
    }
}

/// Where the first submission with an id waits.
pub open spec fn waiting_at(p: Seq<SubmissionView>, id: Seq<char>) -> Option<int>
    decreases p.len(),
{
    if p.len() == 0 {
        None
    } else if p[0].id == id {
        Some(0)
    } else {
        match waiting_at(p.drop_first(), id) {
            Some(i) => Some(i + 1),
            None => None,
        }
    }
}

/// The router after a decision. One on an id that does not wait changes
/// nothing.
pub open spec fn after_decision(v: RouterView, id: Seq<char>, action: ApprovalAction) -> RouterView {
    match waiting_at(v.pending, id) {
        None => v,
        Some(i) => match action {
            ApprovalAction::Deny => RouterView { pending: v.pending.remove(i), ..v },
            _ => RouterView {
                queue: v.queue.push(QueuedView { sub: v.pending[i], allowed: true }),
                pending: v.pending.remove(i),
            },
        },
    }
}

proof fn lemma_waiting_at(p: Seq<SubmissionView>, id: Seq<char>)
    ensures
        waiting_at(p, id) matches Some(i) ==> 0 <= i < p.len() && p[i].id == id && forall|j: int|
            0 <= j < i ==> (#[trigger] p[j]).id != id,
        waiting_at(p, id) is None ==> forall|j: int|
            0 <= j < p.len() ==> (#[trigger] p[j]).id != id,
    decreases p.len(),
{
    if p.len() > 0 && p[0].id != id {
        let t = p.drop_first();
        lemma_waiting_at(t, id);
        match waiting_at(t, id) {
            Some(k) => {
                assert forall|j: int| 0 <= j < k + 1 implies (#[trigger] p[j]).id != id by {
                    if j > 0 {
                        assert(t[j - 1] == p[j]);
                    }
                }
            },
            None => {
                assert forall|j: int| 0 <= j < p.len() implies (#[trigger] p[j]).id != id by {
                    if j > 0 {
                        assert(t[j - 1] == p[j]);
                    }
                }
            },
        }
    }
}

impl Router {
    /// A router that holds nothing.
    pub fn new() -> (r: Self)
        ensures
            r@ == (RouterView { queue: Seq::empty(), pending: Seq::empty() }),
    {
        let r = Router { queue: Vec::new(), pending: Vec::new() };
        assert(r@ =~= (RouterView { queue: Seq::empty(), pending: Seq::empty() }));
        r
    }

    /// Accepts a submission for the next pass.
    pub fn enqueue(&mut self, sub: Submission)
        ensures
            final(self)@ == (RouterView {
                queue: old(self)@.queue.push(unasked(sub@)),
                ..old(self)@
            }),
    {
        self.queue.push(Queued { sub, allowed: false });
        assert(self@ =~= (RouterView {
            queue: old(self)@.queue.push(unasked(sub@)),
            ..old(self)@
        }));
    }

    /// The first submission that waits.
    pub fn pending(&self) -> (r: Option<&Pending>)
        ensures
            r is Some == (self@.pending.len() > 0),
            r matches Some(p) ==> p.sub@ == self@.pending[0],
    {
        if self.pending.len() > 0 {
            Some(&self.pending[0])
        } else {
            None
        }
    }

    /// Every submission that waits.
    pub fn pending_messages(&self) -> (r: &Vec<Pending>)
        ensures
            waiting(r@) == self@.pending,
    {
        &self.pending
    }

    fn position(&self, id: &str) -> (r: Option<usize>)
        ensures
            r is Some == waiting_at(self@.pending, id@) is Some,
            r matches Some(i) ==> waiting_at(self@.pending, id@) == Some(i as int) && i
                < self.pending@.len(),
    {
        let ghost p = self@.pending;
        let mut i: usize = 0;
        assert(p.skip(0) =~= p);
        while i < self.pending.len()
            invariant
                i <= self.pending@.len(),
                p == waiting(self.pending@),
                p == self@.pending,
                waiting_at(p.skip(i as int), id@) is Some == waiting_at(p, id@) is Some,
                waiting_at(p.skip(i as int), id@) matches Some(k) ==> waiting_at(p, id@) == Some(
                    k + i,
                ),
            decreases self.pending@.len() - i,
        {
            assert(p.skip(i as int)[0] == self.pending@[i as int].sub@);
            if same(self.pending[i].sub.id.as_str(), id) {
                return Some(i);
            }
            assert(p.skip(i as int).drop_first() =~= p.skip(i + 1));
            i = i + 1;
        }
        None
    }

    /// The submission that waits under an id.
    pub fn pending_by_id(&self, id: &str) -> (r: Option<&Pending>)
        ensures
            r is Some == waiting_at(self@.pending, id@) is Some,
            r matches Some(p) ==> p.sub@ == self@.pending[waiting_at(self@.pending, id@)->0],
    {
        match self.position(id) {
            Some(i) => Some(&self.pending[i]),
            None => None,
        }
    }

    /// Puts back into the queue what was whitelisted while it waited.
    fn release(&mut self, whitelist: Option<&str>)
        ensures
            final(self)@ == (RouterView {
                queue: to_route(old(self)@, opt_str(whitelist)),
                pending: old(self)@.pending.filter(
                    |s: SubmissionView| !pair_granted(opt_str(whitelist), s),
                ),
            }),
    {
        let ghost p = old(self)@.pending;
        let ghost w = opt_str(whitelist);
        let ghost g = |s: SubmissionView| pair_granted(w, s);
        let ghost ng = |s: SubmissionView| !pair_granted(w, s);
        let ghost un = |s: SubmissionView| unasked(s);
        let mut rest: Vec<Pending> = Vec::new();
        std::mem::swap(&mut rest, &mut self.pending);
        let mut kept: Vec<Pending> = Vec::new();
        let ghost mut i: int = 0;
        proof {
            reveal(Seq::filter);
            assert(p.take(0) =~= Seq::empty());
            assert(waiting(kept@) =~= p.take(0).filter(ng));
            assert(self@.queue =~= old(self)@.queue + p.take(0).filter(g).map_values(un));
            assert(p.skip(0) =~= p);
        }
        while rest.len() > 0
            invariant
                0 <= i <= p.len(),
                w == opt_str(whitelist),
                g == (|s: SubmissionView| pair_granted(w, s)),
                ng == (|s: SubmissionView| !pair_granted(w, s)),
                un == (|s: SubmissionView| unasked(s)),
                waiting(rest@) == p.skip(i),
                rest@.len() == p.len() - i,
                waiting(kept@) == p.take(i).filter(ng),
                self@.queue == old(self)@.queue + p.take(i).filter(g).map_values(un),
            decreases rest@.len(),
        {
            let ghost was = rest@;
            let ghost before = p.take(i).filter(g);
            proof {
                reveal(Seq::filter);
                assert(p.take(i + 1).drop_last() =~= p.take(i));
                assert(waiting(rest@)[0] == p[i]);
            }
            let item = rest.remove(0);
            assert(waiting(rest@) =~= p.skip(i + 1)) by {
                assert forall|k: int| 0 <= k < rest@.len() implies waiting(rest@)[k] == p.skip(
                    i + 1,
                )[k] by {
                    assert(waiting(was)[k + 1] == p.skip(i)[k + 1]);
                }
            }
            if is_whitelisted(
                whitelist,
                item.sub.from_cwd.as_str(),
                item.sub.target_cwd.as_str(),
            ) {
                let ghost q = self.queue@;
                self.queue.push(Queued { sub: item.sub, allowed: false });
                proof {
                    assert(queued(self.queue@) =~= queued(q).push(unasked(p[i])));
                    assert(p.take(i + 1).filter(g) =~= before.push(p[i]));
                    assert(before.push(p[i]).map_values(un) =~= before.map_values(un).push(
                        unasked(p[i]),
                    ));
                    assert(self@.queue =~= old(self)@.queue + p.take(i + 1).filter(g).map_values(un));
                }
            } else {
                let ghost k = kept@;
                kept.push(item);
                assert(waiting(kept@) =~= waiting(k).push(p[i]));
            }
            proof {
                i = i + 1;
            }
        }
        assert(p.take(i) =~= p);
        self.pending = kept;
        assert(self@ =~= (RouterView { queue: to_route(old(self)@, w), pending: p.filter(ng) }));
    }

    fn waits(&self, id: &str) -> (r: bool)
        ensures
            r == has_id(self@.pending, id@),
    {
        let mut i: usize = 0;
        while i < self.pending.len()
            invariant
                i <= self.pending@.len(),
                forall|j: int| 0 <= j < i ==> (#[trigger] self@.pending[j]).id != id@,
            decreases self.pending@.len() - i,
        {
            assert(self@.pending[i as int] == self.pending@[i as int].sub@);
            if same(self.pending[i].sub.id.as_str(), id) {
                return true;
            }
            i = i + 1;
        }
        false
    }

    /// Goes through the queue: hands out every authorized submission, in order,
    /// and parks the others without holding up what is behind them.
    pub fn take_authorized(&mut self, whitelist: Option<&str>) -> (r: Vec<Submission>)
        ensures
            final(self)@ == after_pass(old(self)@, opt_str(whitelist)),
            submissions(r@) == performed(old(self)@, opt_str(whitelist)),
    {
        let ghost v = old(self)@;
        let ghost w = opt_str(whitelist);
        self.release(whitelist);
        let ghost q = self@.queue;
        let ghost kept = self@.pending;
        let ghost ok = |e: QueuedView| authorized(w, e);
        let ghost sub_of = |e: QueuedView| e.sub;
        let mut rest: Vec<Queued> = Vec::new();
        std::mem::swap(&mut rest, &mut self.queue);
        let mut out: Vec<Submission> = Vec::new();
        let ghost mut i: int = 0;
        proof {
            reveal(Seq::filter);
            assert(q.take(0) =~= Seq::empty());
            assert(submissions(out@) =~= q.take(0).filter(ok).map_values(sub_of));
            assert(self@.pending =~= kept);
            assert(q.skip(0) =~= q);
        }
        while rest.len() > 0
            invariant
                0 <= i <= q.len(),
                w == opt_str(whitelist),
                ok == (|e: QueuedView| authorized(w, e)),
                sub_of == (|e: QueuedView| e.sub),
                queued(rest@) == q.skip(i),
                rest@.len() == q.len() - i,
                submissions(out@) == q.take(i).filter(ok).map_values(sub_of),
                self.queue@.len() == 0,
                self@.pending == parked(kept, q.take(i), w),
            decreases rest@.len(),
        {
            let ghost was = rest@;
            let ghost before = q.take(i).filter(ok);
            proof {
                reveal(Seq::filter);
                assert(q.take(i + 1).drop_last() =~= q.take(i));
                assert(queued(rest@)[0] == q[i]);
            }
            let entry = rest.remove(0);
            assert(queued(rest@) =~= q.skip(i + 1)) by {
                assert forall|k: int| 0 <= k < rest@.len() implies queued(rest@)[k] == q.skip(i + 1)[k] by {
                    assert(queued(was)[k + 1] == q.skip(i)[k + 1]);
                }
            }
            let allowed = entry.allowed || is_whitelisted(
                whitelist,
                entry.sub.from_cwd.as_str(),
                entry.sub.target_cwd.as_str(),
            );
            assert(allowed == ok(q[i]));
            if allowed {
                let ghost o = out@;
                out.push(entry.sub);
                proof {
                    assert(submissions(out@) =~= submissions(o).push(q[i].sub));
                    assert(before.push(q[i]).map_values(sub_of) =~= before.map_values(sub_of).push(q[i].sub));
                }
            } else if !self.waits(entry.sub.id.as_str()) {
                let ghost pd = self.pending@;
                self.pending.push(Pending { sub: entry.sub });
                assert(self@.pending =~= waiting(pd).push(q[i].sub));
            }
            proof {
                i = i + 1;
            }
        }
        assert(q.take(i) =~= q);
        assert(self@ =~= after_pass(v, w));
        out
    }

    /// Applies an operator's decision to the submission that waits under an id;
    /// one on an id that does not wait changes nothing. What is allowed is that one
    /// submission: the next pass performs it, and then it counts no more. Allowing a
    /// pair always gives the line to append to the whitelist, or why there can be
    /// none; the submission is queued in either case.
    pub fn apply(&mut self, id: &str, action: ApprovalAction) -> (r: Result<Option<String>, String>)
        ensures
            final(self)@ == after_decision(old(self)@, id@, action),
            match waiting_at(old(self)@.pending, id@) {
                Some(i) => if action == ApprovalAction::AllowAlways {
                    let s = old(self)@.pending[i];
                    if listable(s.from_cwd, s.target_cwd) {
                        r matches Ok(Some(l)) && l@ == grant_line(s.from_cwd, s.target_cwd) + "\n"@
                    } else {
                        r matches Err(e) && e@ == refused_listing(s.from_cwd, s.target_cwd)
                    }
                } else {
                    r matches Ok(None)
                },
                None => r matches Ok(None),
            },
            grant_view(r) == grant_to_write(old(self)@, id@, action),
    {
        let pos = match self.position(id) {
            Some(i) => i,
            None => {
                return Ok(None);
            },
        };
        let ghost v = self@;
        proof {
            lemma_waiting_at(v.pending, id@);
        }
        let p = self.pending.remove(pos);
        assert(waiting(self.pending@) =~= v.pending.remove(pos as int));
        match action {
            ApprovalAction::Deny => {
                assert(self@ =~= after_decision(v, id@, action));
                Ok(None)
            },
            _ => {
                let ghost q = self.queue@;
                let line = whitelist_add(p.sub.from_cwd.as_str(), p.sub.target_cwd.as_str());
                self.queue.push(Queued { sub: p.sub, allowed: true });
                proof {
                    assert(queued(self.queue@) =~= queued(q).push(
                        QueuedView { sub: v.pending[pos as int], allowed: true },
                    ));
                    assert(self@ =~= after_decision(v, id@, action));
                }
                if action == ApprovalAction::AllowAlways {
                    match line {
                        Ok(l) => Ok(Some(l)),
                        Err(e) => Err(e),
                    }
                } else {
                    Ok(None)
                }
            },
        }
    }
}

// ---------------------------------------------------------------------------
// What routing promises
// ---------------------------------------------------------------------------
/// A submission is among the authorized entries to be routed.
pub open spec fn routed_with_leave(
    v: RouterView,
    whitelist: Option<Seq<char>>,
    s: SubmissionView,
) -> bool {
    exists|j: int|
        {
            &&& 0 <= j < to_route(v, whitelist).len()
            &&& authorized(whitelist, #[trigger] to_route(v, whitelist)[j])
            &&& to_route(v, whitelist)[j].sub == s
        }
}

/// Only authorized submissions are ever performed, and nothing that was
/// authorized is left waiting behind one that is not.
pub proof fn law_only_authorized_is_performed(v: RouterView, whitelist: Option<Seq<char>>)
    ensures
        forall|i: int|
            0 <= i < performed(v, whitelist).len() ==> routed_with_leave(
                v,
                whitelist,
                #[trigger] performed(v, whitelist)[i],
            ),
        forall|i: int|
            0 <= i < to_route(v, whitelist).len() && authorized(
                whitelist,
                #[trigger] to_route(v, whitelist)[i],
            ) ==> performed(v, whitelist).contains(to_route(v, whitelist)[i].sub),
        after_pass(v, whitelist).queue.len() == 0,
{
    let ok = |e: QueuedView| authorized(whitelist, e);
    let q = to_route(v, whitelist);
    let f = q.filter(ok);
    assert forall|i: int| 0 <= i < performed(v, whitelist).len() implies routed_with_leave(
        v,
        whitelist,
        #[trigger] performed(v, whitelist)[i],
    ) by {
        q.lemma_filter_pred(ok, i);
        q.lemma_filter_contains_rev(ok, f[i]);
        let j = choose|j: int| 0 <= j < q.len() && q[j] == f[i];
        assert(authorized(whitelist, to_route(v, whitelist)[j]));
    }
    assert forall|i: int| 0 <= i < q.len() && authorized(whitelist, #[trigger] q[i]) implies performed(
        v,
        whitelist,
    ).contains(q[i].sub) by {
        q.lemma_filter_contains(ok, i);
        let k = choose|k: int| 0 <= k < f.len() && f[k] == q[i];
        assert(performed(v, whitelist)[k] == q[i].sub);
    }
}

proof fn lemma_parked_keeps(
    pending: Seq<SubmissionView>,
    entries: Seq<QueuedView>,
    whitelist: Option<Seq<char>>,
)
    ensures
        forall|id: Seq<char>|
            has_id(pending, id) ==> #[trigger] has_id(parked(pending, entries, whitelist), id),
        forall|i: int|
            0 <= i < entries.len() && !authorized(whitelist, #[trigger] entries[i]) ==> has_id(
                parked(pending, entries, whitelist),
                entries[i].sub.id,
            ),
        forall|s: SubmissionView|
            pending.contains(s) ==> #[trigger] parked(pending, entries, whitelist).contains(s),
    decreases entries.len(),
{
    if entries.len() > 0 {
        let t = entries.drop_last();
        lemma_parked_keeps(pending, t, whitelist);
        let p = parked(pending, t, whitelist);
        let r = parked(pending, entries, whitelist);
        assert forall|id: Seq<char>| has_id(p, id) implies has_id(r, id) by {
            let k = choose|k: int| 0 <= k < p.len() && (#[trigger] p[k]).id == id;
            assert(r[k].id == id);
        }
        assert forall|id: Seq<char>| has_id(pending, id) implies #[trigger] has_id(r, id) by {
            assert(has_id(p, id));
        }
        assert forall|i: int|
            0 <= i < entries.len() && !authorized(whitelist, #[trigger] entries[i]) implies has_id(
            r,
            entries[i].sub.id,
        ) by {
            if i < t.len() {
                assert(t[i] == entries[i]);
                assert(has_id(p, entries[i].sub.id));
            } else if !has_id(p, entries[i].sub.id) {
                assert(r[p.len() as int].id == entries[i].sub.id);
            }
        }
        assert forall|s: SubmissionView| pending.contains(s) implies #[trigger] r.contains(s) by {
            assert(p.contains(s));
            let k = choose|k: int| 0 <= k < p.len() && p[k] == s;
            assert(r[k] == s);
        }
    }
}

/// A submission that the operator has not allowed and whose pair is not
/// whitelisted waits under its id.
pub proof fn law_unauthorized_waits(v: RouterView, whitelist: Option<Seq<char>>, i: int)
    requires
        0 <= i < v.queue.len(),
        !authorized(whitelist, v.queue[i]),
    ensures
        has_id(after_pass(v, whitelist).pending, v.queue[i].sub.id),
{
    let q = to_route(v, whitelist);
    assert(q[i] == v.queue[i]);
    lemma_parked_keeps(
        v.pending.filter(|s: SubmissionView| !pair_granted(whitelist, s)),
        q,
        whitelist,
    );
}

/// Every submission of a pair that is not whitelisted is put to the operator,
/// whatever was allowed before, under its own id or any other: accepting it has
/// nothing more performed by the next pass, and it waits from then on.
pub proof fn law_new_submission_is_put_to_the_operator(
    v: RouterView,
    s: SubmissionView,
    whitelist: Option<Seq<char>>,
)
    requires
        !pair_granted(whitelist, s),
    ensures
        ({
            let u = RouterView { queue: v.queue.push(unasked(s)), ..v };
            &&& performed(u, whitelist) == performed(v, whitelist)
            &&& has_id(after_pass(u, whitelist).pending, s.id)
            &&& v.queue.len() == 0 && !has_id(v.pending, s.id) ==> after_pass(
                u,
                whitelist,
            ).pending.contains(s)
        }),
{
    let u = RouterView { queue: v.queue.push(unasked(s)), ..v };
    let ok = |e: QueuedView| authorized(whitelist, e);
    let ng = |x: SubmissionView| !pair_granted(whitelist, x);
    let tail = released(v, whitelist).map_values(|x: SubmissionView| unasked(x));
    let one = seq![unasked(s)];
    let kept = v.pending.filter(ng);
    assert(u.queue =~= v.queue + one);
    Seq::filter_distributes_over_add(v.queue + one, tail, ok);
    Seq::filter_distributes_over_add(v.queue, one, ok);
    Seq::filter_distributes_over_add(v.queue, tail, ok);
    assert(one.filter(ok) =~= Seq::<QueuedView>::empty()) by {
        reveal_with_fuel(Seq::filter, 2);
        assert(one.drop_last() =~= Seq::<QueuedView>::empty());
        assert(!ok(one.last()));
    }
    assert(v.queue.filter(ok) + Seq::<QueuedView>::empty() =~= v.queue.filter(ok));
    assert(u.queue[v.queue.len() as int] == unasked(s));
    law_unauthorized_waits(u, whitelist, v.queue.len() as int);
    if v.queue.len() == 0 && !has_id(v.pending, s.id) {
        assert(!has_id(kept, s.id)) by {
            if has_id(kept, s.id) {
                let k = choose|k: int| 0 <= k < kept.len() && (#[trigger] kept[k]).id == s.id;
                v.pending.lemma_filter_contains_rev(ng, kept[k]);
                let j = choose|j: int| 0 <= j < v.pending.len() && v.pending[j] == kept[k];
                assert(v.pending[j].id == s.id);
            }
        }
        assert(v.queue + one =~= one);
        assert(one.drop_last() =~= Seq::<QueuedView>::empty());
        let first = parked(kept, one, whitelist);
        assert(first == kept.push(s)) by {
            reveal_with_fuel(parked, 2);
        }
        assert(first.contains(s)) by {
            assert(first[kept.len() as int] == s);
        }
        lemma_parked_rest(kept, one, tail, whitelist);
        lemma_parked_keeps(first, tail, whitelist);
    }
}

/// Going through entries, and then through more, is going through all of them.
proof fn lemma_parked_rest(
    pending: Seq<SubmissionView>,
    a: Seq<QueuedView>,
    b: Seq<QueuedView>,
    whitelist: Option<Seq<char>>,
)
    ensures
        parked(pending, a + b, whitelist) == parked(parked(pending, a, whitelist), b, whitelist),
    decreases b.len(),
{
    if b.len() == 0 {
        assert(a + b =~= a);
    } else {
        lemma_parked_rest(pending, a, b.drop_last(), whitelist);
        assert((a + b).drop_last() =~= a + b.drop_last());
        assert((a + b).last() == b.last());
    }
}

/// No two of the submissions have one id.
pub open spec fn ids_differ(p: Seq<SubmissionView>) -> bool {
    forall|i: int, j: int| 0 <= i < j < p.len() ==> (#[trigger] p[i]).id != (#[trigger] p[j]).id
}

proof fn lemma_filter_ids_differ(p: Seq<SubmissionView>, keep: spec_fn(SubmissionView) -> bool)
    requires
        ids_differ(p),
    ensures
        ids_differ(p.filter(keep)),
    decreases p.len(),
{
    reveal(Seq::filter);
    if p.len() > 0 {
        let t = p.drop_last();
        assert forall|i: int, j: int| 0 <= i < j < t.len() implies (#[trigger] t[i]).id != (
        #[trigger] t[j]).id by {
            assert(p[i].id != p[j].id);
        }
        lemma_filter_ids_differ(t, keep);
        let f = t.filter(keep);
        let r = p.filter(keep);
        assert forall|i: int, j: int| 0 <= i < j < r.len() implies (#[trigger] r[i]).id != (
        #[trigger] r[j]).id by {
            if j == f.len() {
                assert(r[i] == f[i]);
                t.lemma_filter_contains_rev(keep, f[i]);
                let k = choose|k: int| 0 <= k < t.len() && t[k] == f[i];
                assert(p[k].id != p[p.len() - 1].id);
            } else {
                assert(r[i] == f[i] && r[j] == f[j]);
            }
        }
    }
}

proof fn lemma_parked_ids_differ(
    pending: Seq<SubmissionView>,
    entries: Seq<QueuedView>,
    whitelist: Option<Seq<char>>,
)
    requires
        ids_differ(pending),
    ensures
        ids_differ(parked(pending, entries, whitelist)),
    decreases entries.len(),
{
    if entries.len() > 0 {
        lemma_parked_ids_differ(pending, entries.drop_last(), whitelist);
        let p = parked(pending, entries.drop_last(), whitelist);
        let r = parked(pending, entries, whitelist);
        assert forall|i: int, j: int| 0 <= i < j < r.len() implies (#[trigger] r[i]).id != (
        #[trigger] r[j]).id by {
            if j == p.len() {
                assert(r[i] == p[i]);
                assert(p[i].id != entries.last().sub.id);
            } else {
                assert(r[i] == p[i] && r[j] == p[j]);
            }
        }
    }
}

/// Every id waits once at most: a pass and a decision keep it so, and nothing waits
/// in a new router.
pub proof fn law_ids_wait_once(
    v: RouterView,
    whitelist: Option<Seq<char>>,
    id: Seq<char>,
    action: ApprovalAction,
)
    requires
        ids_differ(v.pending),
    ensures
        ids_differ(after_pass(v, whitelist).pending),
        ids_differ(after_decision(v, id, action).pending),
        ids_differ(Seq::empty()),
{
    let keep = |s: SubmissionView| !pair_granted(whitelist, s);
    lemma_filter_ids_differ(v.pending, keep);
    lemma_parked_ids_differ(v.pending.filter(keep), to_route(v, whitelist), whitelist);
    lemma_waiting_at(v.pending, id);
    if let Some(k) = waiting_at(v.pending, id) {
        let r = v.pending.remove(k);
        assert forall|i: int, j: int| 0 <= i < j < r.len() implies (#[trigger] r[i]).id != (
        #[trigger] r[j]).id by {
            let a = if i < k { i } else { i + 1 };
            let b = if j < k { j } else { j + 1 };
            assert(v.pending[a].id != v.pending[b].id);
        }
    }
}

/// A decision on an id that does not wait changes nothing.
pub proof fn law_stale_decision_is_harmless(v: RouterView, id: Seq<char>, action: ApprovalAction)
    requires
        !has_id(v.pending, id),
    ensures
        after_decision(v, id, action) == v,
{
    lemma_waiting_at(v.pending, id);
    if let Some(i) = waiting_at(v.pending, id) {
        assert(v.pending[i].id == id);
    }
}

/// What was allowed is performed by the next pass, whatever else waits, and exactly
/// once: the pass performs what it would have performed had the submission been
/// denied, and this one submission behind what was queued before it; and it leaves
/// the same behind. Every other submission goes on waiting, in order.
pub proof fn law_allowed_is_performed_once(
    v: RouterView,
    id: Seq<char>,
    action: ApprovalAction,
    whitelist: Option<Seq<char>>,
)
    requires
        has_id(v.pending, id),
        action != ApprovalAction::Deny,
    ensures
        waiting_at(v.pending, id) is Some,
        ({
            let i = waiting_at(v.pending, id)->0;
            let u = after_decision(v, id, action);
            let d = after_decision(v, id, ApprovalAction::Deny);
            let k = authorized_of(v.queue, whitelist).len() as int;
            &&& u.pending == v.pending.remove(i)
            &&& k <= performed(d, whitelist).len()
            &&& performed(u, whitelist) == performed(d, whitelist).insert(k, v.pending[i])
            &&& after_pass(u, whitelist) == after_pass(d, whitelist)
        }),
{
    lemma_waiting_at(v.pending, id);
    let j = choose|j: int| 0 <= j < v.pending.len() && (#[trigger] v.pending[j]).id == id;
    let i = waiting_at(v.pending, id)->0;
    let s = v.pending[i];
    let u = after_decision(v, id, action);
    let d = after_decision(v, id, ApprovalAction::Deny);
    let ok = |e: QueuedView| authorized(whitelist, e);
    let sub_of = |e: QueuedView| e.sub;
    let one = seq![QueuedView { sub: s, allowed: true }];
    let tail = released(d, whitelist).map_values(|x: SubmissionView| unasked(x));
    let kept = d.pending.filter(|x: SubmissionView| !pair_granted(whitelist, x));
    assert(released(u, whitelist) == released(d, whitelist));
    assert(to_route(u, whitelist) =~= v.queue + one + tail);
    assert(to_route(d, whitelist) =~= v.queue + tail);
    Seq::filter_distributes_over_add(v.queue + one, tail, ok);
    Seq::filter_distributes_over_add(v.queue, one, ok);
    Seq::filter_distributes_over_add(v.queue, tail, ok);
    assert(one.filter(ok) =~= one) by {
        reveal_with_fuel(Seq::filter, 2);
        assert(one.drop_last() =~= Seq::<QueuedView>::empty());
        assert(ok(one.last()));
    }
    let (a, c) = (v.queue.filter(ok), tail.filter(ok));
    assert((a + one + c).map_values(sub_of) =~= (a + c).map_values(sub_of).insert(
        a.len() as int,
        s,
    ));
    lemma_parked_rest(kept, v.queue + one, tail, whitelist);
    lemma_parked_rest(kept, v.queue, tail, whitelist);
    assert((v.queue + one).drop_last() =~= v.queue);
    assert((v.queue + one).last() == one[0]);
}

/// An approval covers one submission: once it was performed, another one under the
/// same id is put to the operator unless its pair is listed by now. The next pass
/// hands out what it would without it, and it waits.
pub proof fn law_approval_is_used_up(
    v: RouterView,
    id: Seq<char>,
    action: ApprovalAction,
    first: Option<Seq<char>>,
    s: SubmissionView,
    later: Option<Seq<char>>,
    entries: Seq<RecordView>,
)
    requires
        s.id == id,
        !pair_granted(later, s),
    ensures
        ({
            let u = after_pass(after_decision(v, id, action), first);
            let w = RouterView { queue: u.queue.push(unasked(s)), ..u };
            &&& performed(w, later) == performed(u, later)
            &&& handed_out(w, later, entries) == handed_out(u, later, entries)
            &&& has_id(after_pass(w, later).pending, id)
            &&& !has_id(u.pending, id) ==> after_pass(w, later).pending.contains(s)
        }),
{
    let u = after_pass(after_decision(v, id, action), first);
    law_new_submission_is_put_to_the_operator(u, s, later);
}

/// What was denied is gone: it neither waits nor is it queued by the decision.
pub proof fn law_denied_is_dropped(v: RouterView, id: Seq<char>)
    requires
        has_id(v.pending, id),
    ensures
        after_decision(v, id, ApprovalAction::Deny).pending.len() == v.pending.len() - 1,
        after_decision(v, id, ApprovalAction::Deny).queue == v.queue,
{
    lemma_waiting_at(v.pending, id);
    let k = choose|k: int| 0 <= k < v.pending.len() && (#[trigger] v.pending[k]).id == id;
}

// ---------------------------------------------------------------------------
// Performing a submission
// ---------------------------------------------------------------------------
/// What performing a submission takes next.
#[derive(Debug, PartialEq, Eq)]
pub enum Delivery {
    /// Nothing but to report.
    Report(String),
    /// To find the host's process that a namespace numbers so.
    Find { pid: u32, pid_namespace: u64 },
    /// To kill a process of the host.
    Kill { pid: u32 },
    /// To hand a text to a live agent.
    Prompt { socket: String, text: String },
    /// To launch an agent with a first prompt.
    Launch { cwd: String, command: Vec<String>, message: String, mode: LaunchMode },
}

pub enum DeliveryView {
    Report(Seq<char>),
    Find { pid: u32, pid_namespace: u64 },
    Kill { pid: u32 },
    Prompt { socket: Seq<char>, text: Seq<char> },
    Launch {
        cwd: Seq<char>,
        command: Seq<Seq<char>>,
        message: Seq<char>,
        mode: LaunchModeView,
    },
}

impl View for Delivery {
    type V = DeliveryView;

    open spec fn view(&self) -> DeliveryView {
        match self {
            Delivery::Report(s) => DeliveryView::Report(s@),
            Delivery::Find { pid, pid_namespace } => DeliveryView::Find {
                pid: *pid,
                pid_namespace: *pid_namespace,
            },
            Delivery::Kill { pid } => DeliveryView::Kill { pid: *pid },
            Delivery::Prompt { socket, text } => DeliveryView::Prompt {
                socket: socket@,
                text: text@,
            },
            Delivery::Launch { cwd, command, message, mode } => DeliveryView::Launch {
                cwd: cwd@,
                command: texts(command@),
                message: message@,
                mode: mode@,
            },
        }
    }
}

/// The first record of which `p` holds that has a spawn command.
pub open spec fn spawn_source(
    entries: Seq<RecordView>,
    p: spec_fn(RecordView) -> bool,
) -> Option<RecordView>
    decreases entries.len(),
{
    if entries.len() == 0 {
        None
    } else if p(entries[0]) && entries[0].spawn_command is Some {
        Some(entries[0])
    } else {
        spawn_source(entries.drop_first(), p)
    }
}

pub open spec fn source_for_dir(entries: Seq<RecordView>, dir: Seq<char>) -> Option<RecordView> {
    spawn_source(entries, |e: RecordView| e.cwd == Some(dir))
}

pub open spec fn source_for_label(entries: Seq<RecordView>, label: Seq<char>) -> Option<RecordView> {
    spawn_source(entries, |e: RecordView| e.label == Some(label))
}

/// A spawn command that a record of the directory announced, with its launch
/// mode.
pub fn spawn_command_for_dir(entries: &Vec<RegistryEntry>, dir: &str) -> (r: Option<
    (Vec<String>, LaunchMode),
>)
    ensures
        r is Some == source_for_dir(records(entries@), dir@) is Some,
        r matches Some(x) ==> source_for_dir(records(entries@), dir@)->0.spawn_command == Some(
            texts(x.0@),
        ) && x.1@ == source_for_dir(records(entries@), dir@)->0.launch_mode(),
{
    let ghost s = records(entries@);
    let ghost p = |e: RecordView| e.cwd == Some(dir@);
    let mut i: usize = 0;
    assert(s.skip(0) =~= s);
    while i < entries.len()
        invariant
            i <= entries@.len(),
            s == records(entries@),
            p == (|e: RecordView| e.cwd == Some(dir@)),
            spawn_source(s, p) == spawn_source(s.skip(i as int), p),
        decreases entries@.len() - i,
    {
        assert(s.skip(i as int)[0] == entries@[i as int]@);
        let here = match &entries[i].cwd {
            Some(c) => same(c.as_str(), dir),
            None => false,
        };
        if here {
            match &entries[i].spawn_command {
                Some(c) => {
                    return Some((copy_strings(c), entries[i].launch_mode()));
                },
                None => {},
            }
        }
        assert(s.skip(i as int).drop_first() =~= s.skip(i + 1));
        i = i + 1;
    }
    None
}

/// A spawn command that a record of the kind announced, in whatever directory,
/// with its launch mode.
pub fn spawn_command_for_label(entries: &Vec<RegistryEntry>, label: &str) -> (r: Option<
    (Vec<String>, LaunchMode),
>)
    ensures
        r is Some == source_for_label(records(entries@), label@) is Some,
        r matches Some(x) ==> source_for_label(records(entries@), label@)->0.spawn_command == Some(
            texts(x.0@),
        ) && x.1@ == source_for_label(records(entries@), label@)->0.launch_mode(),
{
    let ghost s = records(entries@);
    let ghost p = |e: RecordView| e.label == Some(label@);
    let mut i: usize = 0;
    assert(s.skip(0) =~= s);
    while i < entries.len()
        invariant
            i <= entries@.len(),
            s == records(entries@),
            p == (|e: RecordView| e.label == Some(label@)),
            spawn_source(s, p) == spawn_source(s.skip(i as int), p),
        decreases entries@.len() - i,
    {
        assert(s.skip(i as int)[0] == entries@[i as int]@);
        let of_kind = match &entries[i].label {
            Some(c) => same(c.as_str(), label),
            None => false,
        };
        if of_kind {
            match &entries[i].spawn_command {
                Some(c) => {
                    return Some((copy_strings(c), entries[i].launch_mode()));
                },
                None => {},
            }
        }
        assert(s.skip(i as int).drop_first() =~= s.skip(i + 1));
        i = i + 1;
    }
    None
}

/// What killing a process takes: none that is not known, and one that a namespace
/// numbers is found on the host first.
pub open spec fn kill_step(
    sub: SubmissionView,
    pid: Option<u32>,
    pid_namespace: Option<u64>,
) -> DeliveryView {
    match (pid, pid_namespace) {
        (None, _) => DeliveryView::Report(kill_report(sub, None)),
        (Some(pid), None) => DeliveryView::Kill { pid },
        (Some(pid), Some(pid_namespace)) => DeliveryView::Find { pid, pid_namespace },
    }
}

/// What a stop takes.
pub open spec fn stop_step(sub: SubmissionView, sid: Seq<char>, entries: Seq<RecordView>) -> DeliveryView {
    match sole_record(entries, sid) {
        None => DeliveryView::Report("stop: session "@ + sid + " gone or ambiguous"@),
        Some(e) => match socket_of(e) {
            Some(s) => kill_step(sub, s.pid, s.pid_namespace),
            None => DeliveryView::Report("stop: "@ + sub.target_label() + " already dormant"@),
        },
    }
}

/// What resuming a session with a message takes.
pub open spec fn resume_step(sub: SubmissionView, sid: Seq<char>, e: RecordView) -> DeliveryView {
    match (e.cwd, e.resume_argv()) {
        (Some(cwd), Some(command)) => DeliveryView::Launch {
            cwd,
            command,
            message: sub.tagged(),
            mode: e.launch_mode(),
        },
        _ => DeliveryView::Report("route: session "@ + sid + " not resumable"@),
    }
}

/// What a message takes.
pub open spec fn message_step(sub: SubmissionView, sid: Seq<char>, entries: Seq<RecordView>) -> DeliveryView {
    match sole_record(entries, sid) {
        None => DeliveryView::Report("route: session "@ + sid + " not found or ambiguous"@),
        Some(e) => match e.socket {
            Some(s) => DeliveryView::Prompt { socket: s, text: sub.tagged() },
            None => resume_step(sub, sid, e),
        },
    }
}

/// What a spawn takes: the command of the chosen kind, or of one that the
/// directory has known, started in the authenticated directory with the
/// charter before the task.
pub open spec fn spawn_step(
    sub: SubmissionView,
    label: Option<Seq<char>>,
    hidden: bool,
    entries: Seq<RecordView>,
) -> DeliveryView {
    let dir = sub.target_cwd;
    let source = match label {
        Some(l) => source_for_label(entries, l),
        None => source_for_dir(entries, dir),
    };
    match source {
        None => DeliveryView::Report(
            match label {
                Some(l) => "route spawn: unknown label "@ + l,
                None => "route: no known agent kind for "@ + dir + " (never announced there)"@,
            },
        ),
        Some(e) => DeliveryView::Launch {
            cwd: dir,
            command: denormalized(e.spawn_command->0, Seq::empty(), Some(dir)),
            message: CHARTER@ + "\n\n"@ + sub.tagged(),
            mode: LaunchModeView { hidden, ..e.launch_mode() },
        },
    }
}

/// What performing a submission takes first.
pub open spec fn first_step(sub: SubmissionView, entries: Seq<RecordView>) -> DeliveryView {
    match sub.kind {
        KindView::Stop { session } => stop_step(sub, session, entries),
        KindView::Message { session, .. } => message_step(sub, session, entries),
        KindView::Spawn { label, hidden, .. } => spawn_step(sub, label, hidden, entries),
    }
}

/// What is left where a live agent does not take the text: its socket is that of a
/// crashed session, which is resumed.
pub open spec fn later_step(sub: SubmissionView, entries: Seq<RecordView>) -> Option<DeliveryView> {
    match sub.kind {
        KindView::Message { session, .. } => match sole_record(entries, session) {
            Some(e) => if e.socket is Some {
                Some(resume_step(sub, session, e))
            } else {
                None
            },
            None => None,
        },
        _ => None,
    }
}

/// What is reported of a launch.
pub open spec fn launch_report(sub: SubmissionView, outcome: Result<(), Seq<char>>) -> Seq<char> {
    let spawned = sub.kind is Spawn;
    match outcome {
        Ok(_) => "routed to "@ + sub.target_label() + (if spawned {
            " (spawned)"@
        } else {
            " (resumed)"@
        }),
        Err(e) => (if spawned {
            "route spawn: "@
        } else {
            "route resume: "@
        }) + e,
    }
}

/// What is reported of a kill; without a host's process there was none.
pub open spec fn kill_report(
    sub: SubmissionView,
    outcome: Option<Result<(), Seq<char>>>,
) -> Seq<char> {
    match outcome {
        Some(Ok(_)) => "stopped "@ + sub.target_label(),
        Some(Err(e)) => "stop kill: "@ + e,
        None => "stop: "@ + sub.target_label() + " has no correlatable host pid"@,
    }
}

fn deliver_stop(sub: &Submission, sid: &str, entries: &Vec<RegistryEntry>) -> (r: Delivery)
    ensures
        r@ == stop_step(sub@, sid@, records(entries@)),
{
    match unique_session(entries, sid) {
        None => Delivery::Report(cat3("stop: session ", sid, " gone or ambiguous")),
        Some(e) => match live_socket(e) {
            Some(s) => match (s.pid, s.pid_namespace) {
                (None, _) => Delivery::Report(report_kill(sub, &None)),
                (Some(pid), None) => Delivery::Kill { pid },
                (Some(pid), Some(pid_namespace)) => Delivery::Find { pid, pid_namespace },
            },
            None => {
                let label = sub.target_label();
                Delivery::Report(cat3("stop: ", label.as_str(), " already dormant"))
            },
        },
    }
}

fn resume(sub: &Submission, sid: &str, e: &RegistryEntry) -> (r: Delivery)
    ensures
        r@ == resume_step(sub@, sid@, e@),
{
    match (&e.cwd, e.resume_argv()) {
        (Some(cwd), Some(command)) => Delivery::Launch {
            cwd: cwd.clone(),
            command,
            message: sub.tagged(),
            mode: e.launch_mode(),
        },
        _ => Delivery::Report(cat3("route: session ", sid, " not resumable")),
    }
}

fn deliver_session(sub: &Submission, sid: &str, entries: &Vec<RegistryEntry>) -> (r: (
    Delivery,
    Option<Delivery>,
))
    ensures
        r.0@ == message_step(sub@, sid@, records(entries@)),
        opt_delivery(r.1) == (match sole_record(records(entries@), sid@) {
            Some(e) => if e.socket is Some {
                Some(resume_step(sub@, sid@, e))
            } else {
                None
            },
            None => None,
        }),
{
    match unique_session(entries, sid) {
        None => (
            Delivery::Report(cat3("route: session ", sid, " not found or ambiguous")),
            None,
        ),
        Some(e) => match &e.socket {
            Some(s) => (
                Delivery::Prompt { socket: s.clone(), text: sub.tagged() },
                Some(resume(sub, sid, e)),
            ),
            None => (resume(sub, sid, e), None),
        },
    }
}

fn spawn(sub: &Submission, label: &Option<String>, hidden: bool, entries: &Vec<RegistryEntry>) -> (r:
    Delivery)
    ensures
        r@ == spawn_step(sub@, opt_text(*label), hidden, records(entries@)),
{
    let dir = sub.target_cwd.as_str();
    let source = match label {
        Some(l) => spawn_command_for_label(entries, l.as_str()),
        None => spawn_command_for_dir(entries, dir),
    };
    match source {
        None => match label {
            Some(l) => Delivery::Report(cat("route spawn: unknown label ", l.as_str())),
            None => Delivery::Report(
                cat3("route: no known agent kind for ", dir, " (never announced there)"),
            ),
        },
        Some(x) => {
            let (command, mode) = x;
            let launch_mode = LaunchMode {
                gui: mode.gui,
                message_flag: mode.message_flag,
                hidden,
            };
            let tagged = sub.tagged();
            proof {
                reveal_strlit("");
                assert(""@ =~= Seq::<char>::empty());
            }
            Delivery::Launch {
                cwd: dir.to_owned(),
                command: denormalize(&command, "", Some(dir)),
                message: cat3(CHARTER, "\n\n", tagged.as_str()),
                mode: launch_mode,
            }
        },
    }
}

/// A submission on its way: the step that it takes now, and the one that is left
/// where a live agent does not take its text.
#[derive(Debug)]
pub struct Job {
    sub: Submission,
    step: Delivery,
    later: Option<Delivery>,
}

#[verifier::ext_equal]
pub struct JobView {
    pub sub: SubmissionView,
    pub step: DeliveryView,
    pub later: Option<DeliveryView>,
}

pub open spec fn opt_delivery(d: Option<Delivery>) -> Option<DeliveryView> {
    match d {
        Some(x) => Some(x@),
        None => None,
    }
}

impl View for Job {
    type V = JobView;

    closed spec fn view(&self) -> JobView {
        JobView { sub: self.sub@, step: self.step@, later: opt_delivery(self.later) }
    }
}

/// The jobs, by their views.
pub open spec fn jobs(v: Seq<Job>) -> Seq<JobView> {
    Seq::new(v.len(), |i: int| v[i]@)
}

/// How an authorized submission is performed.
pub open spec fn job_of(sub: SubmissionView, entries: Seq<RecordView>) -> JobView {
    JobView { sub, step: first_step(sub, entries), later: later_step(sub, entries) }
}

/// How an authorized submission is performed.
pub fn deliver(sub: Submission, entries: &Vec<RegistryEntry>) -> (r: Job)
    ensures
        r@ == job_of(sub@, records(entries@)),
{
    let (step, later) = match &sub.kind {
        Kind::Stop { session } => (deliver_stop(&sub, session.as_str(), entries), None),
        Kind::Message { session, .. } => deliver_session(&sub, session.as_str(), entries),
        Kind::Spawn { label, hidden, .. } => (spawn(&sub, label, *hidden, entries), None),
    };
    Job { sub, step, later }
}

/// What is reported of a launch.
pub fn report_launch(sub: &Submission, result: &Result<(), String>) -> (r: String)
    ensures
        r@ == launch_report(sub@, outcome(*result)),
{
    let spawned = match &sub.kind {
        Kind::Spawn { .. } => true,
        _ => false,
    };
    match result {
        Ok(_) => {
            let label = sub.target_label();
            if spawned {
                cat3("routed to ", label.as_str(), " (spawned)")
            } else {
                cat3("routed to ", label.as_str(), " (resumed)")
            }
        },
        Err(e) => if spawned {
            cat("route spawn: ", e.as_str())
        } else {
            cat("route resume: ", e.as_str())
        },
    }
}

pub open spec fn opt_outcome(r: Option<Result<(), String>>) -> Option<Result<(), Seq<char>>> {
    match r {
        Some(x) => Some(outcome(x)),
        None => None,
    }
}

/// What is reported of a kill; `None` where no process of the host could be
/// told.
pub fn report_kill(sub: &Submission, result: &Option<Result<(), String>>) -> (r: String)
    ensures
        r@ == kill_report(sub@, opt_outcome(*result)),
{
    let label = sub.target_label();
    match result {
        Some(Ok(_)) => cat("stopped ", label.as_str()),
        Some(Err(e)) => cat("stop kill: ", e.as_str()),
        None => cat3("stop: ", label.as_str(), " has no correlatable host pid"),
    }
}

/// What came of a step.
#[derive(Debug)]
pub enum Answer {
    /// The host's process that was looked for.
    Found(Option<u32>),
    /// Whether a live agent took a text.
    Sent(bool),
    /// How a kill or a launch ended.
    Done(Result<(), String>),
}

pub enum AnswerView {
    Found(Option<u32>),
    Sent(bool),
    Done(Result<(), Seq<char>>),
}

impl View for Answer {
    type V = AnswerView;

    open spec fn view(&self) -> AnswerView {
        match self {
            Answer::Found(h) => AnswerView::Found(*h),
            Answer::Sent(b) => AnswerView::Sent(*b),
            Answer::Done(r) => AnswerView::Done(outcome(*r)),
        }
    }
}

/// An answer is one to that step.
pub open spec fn answers(step: DeliveryView, a: AnswerView) -> bool {
    match step {
        DeliveryView::Report(_) => false,
        DeliveryView::Find { .. } => a is Found,
        DeliveryView::Prompt { .. } => a is Sent,
        DeliveryView::Kill { .. } | DeliveryView::Launch { .. } => a is Done,
    }
}

/// A job once its step was answered. A report is its end, and an answer to another
/// step changes nothing.
pub open spec fn advanced(j: JobView, a: AnswerView) -> JobView {
    match (j.step, a) {
        (DeliveryView::Find { .. }, AnswerView::Found(Some(pid))) => JobView {
            step: DeliveryView::Kill { pid },
            ..j
        },
        (DeliveryView::Find { .. }, AnswerView::Found(None)) => JobView {
            step: DeliveryView::Report(kill_report(j.sub, None)),
            ..j
        },
        (DeliveryView::Kill { .. }, AnswerView::Done(r)) => JobView {
            step: DeliveryView::Report(kill_report(j.sub, Some(r))),
            ..j
        },
        (DeliveryView::Launch { .. }, AnswerView::Done(r)) => JobView {
            step: DeliveryView::Report(launch_report(j.sub, r)),
            ..j
        },
        (DeliveryView::Prompt { .. }, AnswerView::Sent(true)) => JobView {
            step: DeliveryView::Report("routed to "@ + j.sub.target_label()),
            ..j
        },
        (DeliveryView::Prompt { .. }, AnswerView::Sent(false)) => match j.later {
            Some(d) => JobView { step: d, later: None, ..j },
            None => j,
        },
        _ => j,
    }
}

impl Job {
    /// What the submission takes now.
    pub fn step(&self) -> (r: &Delivery)
        ensures
            r@ == self@.step,
    {
        &self.step
    }

    /// Takes in what came of the step.
    pub fn take(&mut self, a: Answer)
        ensures
            final(self)@ == advanced(old(self)@, a@),
    {
        let next = match (&self.step, a) {
            (Delivery::Find { .. }, Answer::Found(Some(pid))) => Delivery::Kill { pid },
            (Delivery::Find { .. }, Answer::Found(None)) => Delivery::Report(
                report_kill(&self.sub, &None),
            ),
            (Delivery::Kill { .. }, Answer::Done(r)) => {
                let done = Some(r);
                Delivery::Report(report_kill(&self.sub, &done))
            },
            (Delivery::Launch { .. }, Answer::Done(r)) => Delivery::Report(
                report_launch(&self.sub, &r),
            ),
            (Delivery::Prompt { .. }, Answer::Sent(true)) => {
                let label = self.sub.target_label();
                Delivery::Report(cat("routed to ", label.as_str()))
            },
            (Delivery::Prompt { .. }, Answer::Sent(false)) => {
                let mut later: Option<Delivery> = None;
                std::mem::swap(&mut later, &mut self.later);
                match later {
                    Some(d) => d,
                    None => {
                        return;
                    },
                }
            },
            _ => {
                return;
            },
        };
        self.step = next;
    }
}

/// What a pass hands out: how each authorized submission is performed, in order.
pub open spec fn handed_out(
    v: RouterView,
    whitelist: Option<Seq<char>>,
    entries: Seq<RecordView>,
) -> Seq<JobView> {
    performed(v, whitelist).map_values(|s: SubmissionView| job_of(s, entries))
}

impl Router {
    /// Routes the queue: hands out every authorized submission, in order, with what
    /// it takes to perform it, and parks the others.
    pub fn poll(&mut self, whitelist: Option<&str>, entries: &Vec<RegistryEntry>) -> (r: Vec<Job>)
        ensures
            final(self)@ == after_pass(old(self)@, opt_str(whitelist)),
            jobs(r@) == handed_out(old(self)@, opt_str(whitelist), records(entries@)),
    {
        let ghost f = |s: SubmissionView| job_of(s, records(entries@));
        let mut rest = self.take_authorized(whitelist);
        let ghost all = submissions(rest@);
        let mut out: Vec<Job> = Vec::new();
        let ghost mut i: int = 0;
        assert(all.skip(0) =~= all);
        while rest.len() > 0
            invariant
                0 <= i <= all.len(),
                f == (|s: SubmissionView| job_of(s, records(entries@))),
                submissions(rest@) == all.skip(i),
                rest@.len() == all.len() - i,
                jobs(out@) =~= all.take(i).map_values(f),
            decreases rest@.len(),
        {
            let ghost was = rest@;
            assert(submissions(was)[0] == all[i]);
            let sub = rest.remove(0);
            assert(submissions(rest@) =~= all.skip(i + 1)) by {
                assert forall|k: int| 0 <= k < rest@.len() implies submissions(rest@)[k] == all.skip(
                    i + 1,
                )[k] by {
                    assert(submissions(was)[k + 1] == all.skip(i)[k + 1]);
                }
            }
            let ghost prior = out@;
            out.push(deliver(sub, entries));
            proof {
                assert(jobs(out@) =~= jobs(prior).push(f(all[i])));
                assert(all.take(i + 1).map_values(f) =~= all.take(i).map_values(f).push(f(all[i])));
                i = i + 1;
            }
        }
        assert(all.take(i) =~= all);
        out
    }
}

/// What is told of a pass, from the reports of its jobs: nothing where there was
/// none.
pub fn status(reports: &Vec<String>) -> (r: Option<String>)
    ensures
        r is Some == (reports@.len() > 0),
        r matches Some(s) ==> s@ == joined(texts(reports@), "; "@),
{
    if reports.len() == 0 {
        None
    } else {
        Some(join(reports, "; "))
    }
}

/// A pass hands out one job for each authorized submission that is queued or
/// released, in order, and none for any other.
pub proof fn law_only_the_authorized_is_handed_out(
    v: RouterView,
    whitelist: Option<Seq<char>>,
    entries: Seq<RecordView>,
)
    ensures
        handed_out(v, whitelist, entries).len() == performed(v, whitelist).len(),
        forall|i: int|
            0 <= i < handed_out(v, whitelist, entries).len() ==> {
                let j = #[trigger] handed_out(v, whitelist, entries)[i];
                &&& routed_with_leave(v, whitelist, j.sub)
                &&& j == job_of(performed(v, whitelist)[i], entries)
            },
{
    law_only_authorized_is_performed(v, whitelist);
    assert forall|i: int| 0 <= i < handed_out(v, whitelist, entries).len() implies {
        let j = #[trigger] handed_out(v, whitelist, entries)[i];
        &&& routed_with_leave(v, whitelist, j.sub)
        &&& j == job_of(performed(v, whitelist)[i], entries)
    } by {
        assert(routed_with_leave(v, whitelist, performed(v, whitelist)[i]));
    }
}

/// A job is done after two answers at most, and takes each step once: a kill and a
/// launch are followed by the report, the search for a process by the kill of what
/// was found or the report, and a prompt by the report where it was taken and by
/// the launch that resumes the session, or the report that it cannot be resumed,
/// where it was not. A stop launches and prompts nothing, and only a stop kills.
pub proof fn law_job_takes_each_step_once(
    sub: SubmissionView,
    entries: Seq<RecordView>,
    a: AnswerView,
    b: AnswerView,
)
    requires
        answers(job_of(sub, entries).step, a),
    ensures
        ({
            let j = job_of(sub, entries);
            let k = advanced(j, a);
            &&& j.step is Kill || j.step is Launch ==> k.step is Report
            &&& j.step is Find ==> k.step is Kill || k.step is Report
            &&& j.step is Prompt ==> k.step is Launch || k.step is Report
            &&& answers(k.step, b) ==> advanced(k, b).step is Report
            &&& k.step is Report ==> advanced(k, b) == k
            &&& j.step is Kill || j.step is Find <==> sub.kind is Stop
            &&& k.step is Kill ==> sub.kind is Stop
        }),
{
}

/// A launch of a command in a directory with a first prompt.
pub open spec fn starts(
    d: DeliveryView,
    dir: Seq<char>,
    template: Seq<Seq<char>>,
    id: Seq<char>,
    prompt: Seq<char>,
    mode: LaunchModeView,
) -> bool {
    d matches DeliveryView::Launch { cwd, command, message, mode: m } && {
        &&& cwd == dir
        &&& filled_in(command, template, id, dir)
        &&& message == prompt
        &&& m == mode
    }
}

/// A message goes to the session that it names and to no other: over its socket
/// where it runs, and as the first prompt of its resumed session, in its own
/// directory, where it does not. What arrives is the tagged text. A session that
/// no record or more than one claims, or that cannot be resumed, gets nothing.
pub proof fn law_message_goes_to_its_session(
    sub: SubmissionView,
    sid: Seq<char>,
    text: Seq<char>,
    entries: Seq<RecordView>,
)
    requires
        sub.kind == (KindView::Message { session: sid, text }),
    ensures
        sole_record(entries, sid) is None ==> job_of(sub, entries).step is Report && job_of(
            sub,
            entries,
        ).later is None,
        sole_record(entries, sid) matches Some(e) ==> {
            &&& e.socket matches Some(s) ==> job_of(sub, entries).step == (DeliveryView::Prompt {
                socket: s,
                text: sub.tagged(),
            })
            &&& e.socket is None && (e.cwd is None || e.resume_command is None) ==> job_of(
                sub,
                entries,
            ).step is Report
            &&& e.socket is None && e.cwd is Some && e.resume_command is Some ==> starts(
                job_of(sub, entries).step,
                e.cwd->0,
                e.resume_command->0,
                e.session_id,
                sub.tagged(),
                LaunchModeView { gui: e.gui, message_flag: e.message_flag, hidden: e.hidden },
            )
        },
{
    if sole_record(entries, sid) is Some {
        law_record_launches_as_announced(sole_record(entries, sid)->0, None);
    }
}

/// A live session that does not take its message is resumed with it, as one that
/// does not run is; one that takes it gets it once.
pub proof fn law_untaken_message_resumes_its_session(
    sub: SubmissionView,
    sid: Seq<char>,
    text: Seq<char>,
    entries: Seq<RecordView>,
    e: RecordView,
    taken: bool,
)
    requires
        sub.kind == (KindView::Message { session: sid, text }),
        sole_record(entries, sid) == Some(e),
        e.socket is Some,
    ensures
        ({
            let j = advanced(job_of(sub, entries), AnswerView::Sent(taken));
            &&& taken ==> j.step is Report
            &&& !taken && e.cwd is Some && e.resume_command is Some ==> starts(
                j.step,
                e.cwd->0,
                e.resume_command->0,
                e.session_id,
                sub.tagged(),
                LaunchModeView { gui: e.gui, message_flag: e.message_flag, hidden: e.hidden },
            )
            &&& !taken && !(e.cwd is Some && e.resume_command is Some) ==> j.step is Report
        }),
{
    law_record_launches_as_announced(e, None);
}

/// A stop ends the process of the session that it names and of no other: the one
/// that its socket tells, as the host numbers it, looked up first where the number
/// is that of a namespace. A session that does not run, that no record or more
/// than one claims, or whose process is not known is left alone.
pub proof fn law_stop_ends_its_session(
    sub: SubmissionView,
    sid: Seq<char>,
    entries: Seq<RecordView>,
    found: Option<u32>,
)
    requires
        sub.kind == (KindView::Stop { session: sid }),
    ensures
        job_of(sub, entries).later is None,
        sole_record(entries, sid) is None ==> job_of(sub, entries).step is Report,
        sole_record(entries, sid) matches Some(e) ==> {
            &&& e.socket is None ==> job_of(sub, entries).step is Report
            &&& socket_of(e) matches Some(s) ==> {
                &&& s.pid is None ==> job_of(sub, entries).step is Report
                &&& s.pid matches Some(pid) ==> {
                    &&& e.pid_namespace is None ==> job_of(sub, entries).step == (
                    DeliveryView::Kill { pid })
                    &&& e.pid_namespace matches Some(pid_namespace) ==> {
                        &&& job_of(sub, entries).step == (DeliveryView::Find { pid, pid_namespace })
                        &&& found matches Some(host) ==> advanced(
                            job_of(sub, entries),
                            AnswerView::Found(found),
                        ).step == (DeliveryView::Kill { pid: host })
                        &&& found is None ==> advanced(
                            job_of(sub, entries),
                            AnswerView::Found(found),
                        ).step is Report
                    }
                }
            }
        },
{
}

/// A spawn starts a fresh agent in the directory that was authorized, of the
/// kind that was asked for by its label, else of the first kind that was
/// announced there: with that kind's spawn command and launch options, hidden as
/// the request says, and with the tagged task behind the charter. A kind that
/// nobody announced is not started.
pub proof fn law_spawn_starts_a_known_kind(
    sub: SubmissionView,
    dir: Seq<char>,
    task: Seq<char>,
    label: Option<Seq<char>>,
    hidden: bool,
    entries: Seq<RecordView>,
    k: int,
)
    requires
        sub.kind == (KindView::Spawn { dir, task, label, hidden }),
    ensures
        job_of(sub, entries).later is None,
        0 <= k < entries.len() && of_the_kind(entries[k], label, sub.target_cwd) && (forall|i: int|
            0 <= i < k ==> !of_the_kind(#[trigger] entries[i], label, sub.target_cwd)) ==> starts(
            job_of(sub, entries).step,
            sub.target_cwd,
            entries[k].spawn_command->0,
            Seq::empty(),
            CHARTER@ + "\n\n"@ + sub.tagged(),
            LaunchModeView {
                gui: entries[k].gui,
                message_flag: entries[k].message_flag,
                hidden,
            },
        ),
        (forall|i: int|
            0 <= i < entries.len() ==> !of_the_kind(#[trigger] entries[i], label, sub.target_cwd))
            ==> job_of(sub, entries).step is Report,
{
    let p = match label {
        Some(l) => |e: RecordView| e.label == Some(l),
        None => |e: RecordView| e.cwd == Some(sub.target_cwd),
    };
    lemma_spawn_source(entries, p, k);
    assert forall|i: int| 0 <= i < entries.len() implies of_the_kind(
        #[trigger] entries[i],
        label,
        sub.target_cwd,
    ) == (p(entries[i]) && entries[i].spawn_command is Some) by {}
    if 0 <= k < entries.len() && of_the_kind(entries[k], label, sub.target_cwd) {
        law_template_is_filled_in(
            entries[k].spawn_command->0,
            Seq::empty(),
            Some(sub.target_cwd),
        );
    }
}

/// A record tells how an agent is started of the kind that is asked for: the
/// kind of that label, or any kind of that directory.
pub open spec fn of_the_kind(e: RecordView, label: Option<Seq<char>>, dir: Seq<char>) -> bool {
    &&& e.spawn_command is Some
    &&& label is Some ==> e.label == label
    &&& label is None ==> e.cwd == Some(dir)
}

proof fn lemma_spawn_source(entries: Seq<RecordView>, p: spec_fn(RecordView) -> bool, k: int)
    ensures
        0 <= k < entries.len() && p(entries[k]) && entries[k].spawn_command is Some && (forall|i: int|
            0 <= i < k ==> !(p(#[trigger] entries[i]) && entries[i].spawn_command is Some))
            ==> spawn_source(entries, p) == Some(entries[k]),
        (forall|i: int|
            0 <= i < entries.len() ==> !(p(#[trigger] entries[i]) && entries[i].spawn_command is Some))
            ==> spawn_source(entries, p) is None,
    decreases entries.len(),
{
    if entries.len() > 0 {
        let t = entries.drop_first();
        assert forall|i: int| 0 <= i < t.len() implies t[i] == entries[i + 1] by {}
        lemma_spawn_source(t, p, k - 1);
        if 0 < k < entries.len() {
            assert(t[k - 1] == entries[k]);
        }
    }
}

/// A decision is about the first submission of that id that waits, and leaves
/// every other waiting; an allowed one goes to the queue with leave, after those
/// that are there, and a denied one goes nowhere.
pub proof fn law_decision_is_about_its_submission(
    v: RouterView,
    id: Seq<char>,
    action: ApprovalAction,
    k: int,
    other: Seq<char>,
)
    requires
        0 <= k < v.pending.len(),
        v.pending[k].id == id,
        forall|i: int| 0 <= i < k ==> (#[trigger] v.pending[i]).id != id,
        other != id,
    ensures
        waiting_at(v.pending, id) == Some(k),
        after_decision(v, id, action).pending == v.pending.remove(k),
        has_id(after_decision(v, id, action).pending, other) == has_id(v.pending, other),
        action == ApprovalAction::Deny ==> after_decision(v, id, action).queue == v.queue,
        action != ApprovalAction::Deny ==> {
            let q = after_decision(v, id, action).queue;
            &&& q.len() == v.queue.len() + 1
            &&& q.drop_last() == v.queue
            &&& q.last().sub == v.pending[k]
            &&& q.last().allowed
        },
        ids_differ(v.pending) ==> !has_id(after_decision(v, id, action).pending, id),
{
    lemma_waiting_first(v.pending, id, k);
    let p = v.pending;
    let r = p.remove(k);
    if has_id(p, other) {
        let i = choose|i: int| 0 <= i < p.len() && (#[trigger] p[i]).id == other;
        if i < k {
            assert(r[i] == p[i]);
        } else {
            assert(r[i - 1] == p[i]);
        }
    }
    if has_id(r, other) {
        let i = choose|i: int| 0 <= i < r.len() && (#[trigger] r[i]).id == other;
        if i < k {
            assert(r[i] == p[i]);
        } else {
            assert(r[i] == p[i + 1]);
        }
    }
    if ids_differ(p) && has_id(r, id) {
        let i = choose|i: int| 0 <= i < r.len() && (#[trigger] r[i]).id == id;
        if i < k {
            assert(r[i] == p[i]);
        } else {
            assert(r[i] == p[i + 1]);
            assert(p[k].id != p[i + 1].id);
        }
    }
    if action != ApprovalAction::Deny {
        assert(after_decision(v, id, action).queue.drop_last() =~= v.queue);
    }
}

proof fn lemma_waiting_first(p: Seq<SubmissionView>, id: Seq<char>, k: int)
    requires
        0 <= k < p.len(),
        p[k].id == id,
        forall|i: int| 0 <= i < k ==> (#[trigger] p[i]).id != id,
    ensures
        waiting_at(p, id) == Some(k),
    decreases p.len(),
{
    if k > 0 {
        let t = p.drop_first();
        assert(p[0].id != id);
        assert forall|i: int| 0 <= i < k - 1 implies (#[trigger] t[i]).id != id by {
            assert(t[i] == p[i + 1]);
        }
        lemma_waiting_first(t, id, k - 1);
    }
}

pub open spec fn grant_view(r: Result<Option<String>, String>) -> Result<Option<Seq<char>>, Seq<char>> {
    match r {
        Ok(o) => Ok(opt_text(o)),
        Err(e) => Err(e@),
    }
}

/// What a decision writes into the whitelist.
pub open spec fn grant_to_write(v: RouterView, id: Seq<char>, action: ApprovalAction) -> Result<
    Option<Seq<char>>,
    Seq<char>,
> {
    match waiting_at(v.pending, id) {
        Some(i) => if action == ApprovalAction::AllowAlways {
            let s = v.pending[i];
            if listable(s.from_cwd, s.target_cwd) {
                Ok(Some(grant_line(s.from_cwd, s.target_cwd) + "\n"@))
            } else {
                Err(refused_listing(s.from_cwd, s.target_cwd))
            }
        } else {
            Ok(None)
        },
        None => Ok(None),
    }
}

/// Only a decision for always writes into the whitelist, and what it writes
/// grants the pair of that submission from there on, and no pair that was not
/// granted before. A pair that cannot be listed is refused.
pub proof fn law_always_grants_that_pair(
    v: RouterView,
    id: Seq<char>,
    action: ApprovalAction,
    k: int,
    text: Seq<char>,
    from: Seq<char>,
    target: Seq<char>,
)
    requires
        0 <= k < v.pending.len(),
        v.pending[k].id == id,
        forall|i: int| 0 <= i < k ==> (#[trigger] v.pending[i]).id != id,
        text.len() == 0 || text.last() == '\n',
    ensures
        action != ApprovalAction::AllowAlways ==> grant_to_write(v, id, action) == Ok::<
            Option<Seq<char>>,
            Seq<char>,
        >(None),
        action == ApprovalAction::AllowAlways ==> (grant_to_write(v, id, action) is Ok <==> listable(
            v.pending[k].from_cwd,
            v.pending[k].target_cwd,
        )),
        action == ApprovalAction::AllowAlways ==> (grant_to_write(v, id, action) matches Ok(l) ==> {
            &&& l is Some
            &&& granted(Some(text + l->0), v.pending[k].from_cwd, v.pending[k].target_cwd)
            &&& granted(Some(text + l->0), from, target) ==> granted(Some(text), from, target) || (from
                == v.pending[k].from_cwd && target == v.pending[k].target_cwd)
        }),
{
    lemma_waiting_first(v.pending, id, k);
    let s = v.pending[k];
    if listable(s.from_cwd, s.target_cwd) {
        law_grant_is_exact(text, s.from_cwd, s.target_cwd, from, target);
        assert(with_grant(text, s.from_cwd, s.target_cwd) =~= text + (grant_line(
            s.from_cwd,
            s.target_cwd,
        ) + "\n"@));
    }
}

/// What waits is performed by the first pass that finds its pair whitelisted,
/// whatever its kind, and waits on until then. What is in the queue is performed
/// where it was allowed or its pair is whitelisted.
pub proof fn law_waiting_is_performed_once_granted(
    v: RouterView,
    whitelist: Option<Seq<char>>,
    i: int,
)
    ensures
        0 <= i < v.pending.len() && granted(
            whitelist,
            v.pending[i].from_cwd,
            v.pending[i].target_cwd,
        ) ==> performed(v, whitelist).contains(v.pending[i]),
        0 <= i < v.pending.len() && !granted(
            whitelist,
            v.pending[i].from_cwd,
            v.pending[i].target_cwd,
        ) ==> after_pass(v, whitelist).pending.contains(v.pending[i]),
        0 <= i < v.queue.len() && (v.queue[i].allowed || granted(
            whitelist,
            v.queue[i].sub.from_cwd,
            v.queue[i].sub.target_cwd,
        )) ==> performed(v, whitelist).contains(v.queue[i].sub),
{
    let p = |s: SubmissionView| pair_granted(whitelist, s);
    let n = |s: SubmissionView| !pair_granted(whitelist, s);
    let r = to_route(v, whitelist);
    let rel = released(v, whitelist);
    law_only_authorized_is_performed(v, whitelist);
    if 0 <= i < v.pending.len() {
        if p(v.pending[i]) {
            v.pending.lemma_filter_contains(p, i);
            let k = choose|k: int| 0 <= k < rel.len() && rel[k] == v.pending[i];
            assert(r[v.queue.len() + k] == unasked(v.pending[i]));
            assert(authorized(whitelist, r[v.queue.len() + k]));
        } else {
            v.pending.lemma_filter_contains(n, i);
            lemma_parked_keeps(v.pending.filter(n), r, whitelist);
            assert(v.pending.filter(n).contains(v.pending[i]));
        }
    }
    if 0 <= i < v.queue.len() {
        assert(r[i] == v.queue[i]);
    }
}

/// What is reported of a launch and of a kill is how it went: whom it reached
/// where it went well, and the words of the failure where it did not.
pub proof fn law_delivery_is_reported_as_it_went(sub: SubmissionView, e: Seq<char>)
    ensures
        sub.kind is Spawn ==> launch_report(sub, Ok(())) == "routed to "@ + sub.target_label()
            + " (spawned)"@ && launch_report(sub, Err(e)) == "route spawn: "@ + e,
        !(sub.kind is Spawn) ==> launch_report(sub, Ok(())) == "routed to "@ + sub.target_label()
            + " (resumed)"@ && launch_report(sub, Err(e)) == "route resume: "@ + e,
        kill_report(sub, Some(Ok(()))) == "stopped "@ + sub.target_label(),
        kill_report(sub, Some(Err(e))) == "stop kill: "@ + e,
        has_infix(kill_report(sub, None), sub.target_label()),
{
    let k = kill_report(sub, None);
    let t = sub.target_label();
    let n = "stop: "@.len() as int;
    assert(k.subrange(n, n + t.len()) =~= t);
    assert(infix_at(k, t, n));
}

} // verus!
