//! Routing the messages of agents: one decision of the operator at a time, and a
//! message whose receiver is not yet announced waits.
use vstd::prelude::*;

use crate::approved_commands::{filled_in, law_template_is_filled_in};
use crate::board::outbox::{is_whitelisted, listed, whitelist_add, Message, MessageView};
use crate::daemon::mailbox::{grant_line, Target, TargetView};
use crate::launch::{opt_str, outcome, LaunchMode, LaunchModeView};
use crate::model::{agent_for, agent_refs, or_empty, AgentView, Board, BoardView};
use crate::text::{cat, cat3, copy_opt_string, opt_text, texts};

verus! {

/// What delivering a message takes.
pub enum Delivery {
    /// Hand the text to a live agent.
    Send { socket: String, text: String, to: String },
    /// Start an agent in a directory with the text.
    Spawn { dir: String, text: String, to: String },
    /// Resume a session with the text.
    Resume { cwd: String, command: Vec<String>, mode: LaunchMode, text: String, to: String },
    /// It cannot be delivered, in these words.
    Report(String),
}

pub enum DeliveryView {
    Send { socket: Seq<char>, text: Seq<char>, to: Seq<char> },
    Spawn { dir: Seq<char>, text: Seq<char>, to: Seq<char> },
    Resume {
        cwd: Seq<char>,
        command: Seq<Seq<char>>,
        mode: LaunchModeView,
        text: Seq<char>,
        to: Seq<char>,
    },
    Report(Seq<char>),
}

impl View for Delivery {
    type V = DeliveryView;

    open spec fn view(&self) -> DeliveryView {
        match self {
            Delivery::Send { socket, text, to } => DeliveryView::Send {
                socket: socket@,
                text: text@,
                to: to@,
            },
            Delivery::Spawn { dir, text, to } => DeliveryView::Spawn {
                dir: dir@,
                text: text@,
                to: to@,
            },
            Delivery::Resume { cwd, command, mode, text, to } => DeliveryView::Resume {
                cwd: cwd@,
                command: texts(command@),
                mode: mode@,
                text: text@,
                to: to@,
            },
            Delivery::Report(s) => DeliveryView::Report(s@),
        }
    }
}

/// The directory that a message is for; nothing for a session that nobody
/// knows.
pub open spec fn target_dir(m: MessageView, b: BoardView) -> Option<Seq<char>> {
    match m.target {
        TargetView::Dir(d) => Some(d),
        TargetView::Session(sid) => {
            let known = match agent_for(b.live, sid) {
                Some(a) => a.cwd,
                None => match agent_for(b.dormant, sid) {
                    Some(a) => a.cwd,
                    None => None,
                },
            };
            match known {
                Some(c) => Some(c),
                None => match b.session_entry(sid) {
                    Some(c) => c,
                    None => None,
                },
            }
        },
    }
}

/// The directory that a message is for.
pub fn target_cwd(m: &Message, board: &Board) -> (r: Option<String>)
    ensures
        opt_text(r) == target_dir(m@, board@),
{
    match &m.target {
        Target::Dir(d) => Some(d.clone()),
        Target::Session(sid) => {
            let known = match board.by_session(sid.as_str()) {
                Some(a) => copy_opt_string(&a.cwd),
                None => None,
            };
            match known {
                Some(c) => Some(c),
                None => board.registry_session_cwd(sid.as_str()),
            }
        },
    }
}

/// What delivering a message takes; nothing where its receiver runs but is not
/// yet announced, so that it waits.
pub open spec fn delivery_of(m: MessageView, b: BoardView) -> Option<DeliveryView> {
    let text = m.tagged();
    let to = m.target_label();
    match m.target {
        TargetView::Dir(dir) => if !m.force_new && b.in_dir(dir).len() > 0 {
            Some(DeliveryView::Send { socket: b.in_dir(dir)[0].socket_path, text, to })
        } else {
            Some(DeliveryView::Spawn { dir, text, to })
        },
        TargetView::Session(sid) => match (agent_for(b.live, sid), agent_for(b.dormant, sid)) {
            (Some(a), _) => Some(DeliveryView::Send { socket: a.socket_path, text, to }),
            (None, Some(d)) => match (d.cwd, d.resume_argv()) {
                (Some(cwd), Some(command)) => Some(
                    DeliveryView::Resume { cwd, command, mode: d.launch_mode(), text, to },
                ),
                _ => Some(DeliveryView::Report("route: session "@ + sid + " not resumable"@)),
            },
            (None, None) => if b.session_entry(sid) is Some {
                None
            } else {
                Some(DeliveryView::Report("route: session "@ + sid + " not found"@))
            },
        },
    }
}

fn deliver_dir(m: &Message, dir: &str, board: &Board) -> (r: Delivery)
    requires
        m@.target == TargetView::Dir(dir@),
    ensures
        delivery_of(m@, board@) == Some(r@),
{
    if !m.force_new {
        let here = board.live_in_dir(dir);
        assert(agent_refs(here@).len() == here@.len());
        if here.len() > 0 {
            assert(agent_refs(here@)[0] == here@[0]@);
            return Delivery::Send {
                socket: here[0].socket_path.clone(),
                text: m.tagged(),
                to: m.target_label(),
            };
        }
    }
    Delivery::Spawn { dir: dir.to_owned(), text: m.tagged(), to: m.target_label() }
}

fn deliver_session(m: &Message, sid: &str, board: &Board) -> (r: Option<Delivery>)
    requires
        m@.target == TargetView::Session(sid@),
    ensures
        match r {
            Some(d) => delivery_of(m@, board@) == Some(d@),
            None => delivery_of(m@, board@) is None,
        },
{
    match board.live_by_session(sid) {
        Some(a) => {
            return Some(
                Delivery::Send {
                    socket: a.socket_path.clone(),
                    text: m.tagged(),
                    to: m.target_label(),
                },
            );
        },
        None => {},
    }
    match board.dormant_by_session(sid) {
        Some(d) => {
            match &d.cwd {
                Some(cwd) => match d.resume_argv() {
                    Some(command) => {
                        return Some(
                            Delivery::Resume {
                                cwd: cwd.clone(),
                                command,
                                mode: d.launch_mode(),
                                text: m.tagged(),
                                to: m.target_label(),
                            },
                        );
                    },
                    None => {},
                },
                None => {},
            }
            Some(Delivery::Report(cat3("route: session ", sid, " not resumable")))
        },
        None => if board.registry_has_session(sid) {
            None
        } else {
            Some(Delivery::Report(cat3("route: session ", sid, " not found")))
        },
    }
}

/// What delivering a message takes; nothing where it has to wait.
pub fn deliver(m: &Message, board: &Board) -> (r: Option<Delivery>)
    ensures
        match r {
            Some(d) => delivery_of(m@, board@) == Some(d@),
            None => delivery_of(m@, board@) is None,
        },
{
    match &m.target {
        Target::Dir(d) => Some(deliver_dir(m, d.as_str(), board)),
        Target::Session(s) => deliver_session(m, s.as_str(), board),
    }
}

/// What the operator is told of a delivery.
pub open spec fn delivery_report(d: DeliveryView, result: Result<(), Seq<char>>) -> Seq<char> {
    match d {
        DeliveryView::Report(s) => s,
        DeliveryView::Send { to, .. } => match result {
            Ok(_) => "routed to "@ + to,
            Err(e) => "route send: "@ + e,
        },
        DeliveryView::Spawn { to, .. } => match result {
            Ok(_) => "routed to "@ + to + " (spawned)"@,
            Err(e) => "route spawn: "@ + e,
        },
        DeliveryView::Resume { to, .. } => match result {
            Ok(_) => "routed to "@ + to + " (resumed)"@,
            Err(e) => "route resume: "@ + e,
        },
    }
}

/// What the operator is told of a delivery that ended so.
pub fn finish(d: &Delivery, result: &Result<(), String>) -> (r: String)
    ensures
        r@ == delivery_report(d@, outcome(*result)),
{
    match d {
        Delivery::Report(s) => s.clone(),
        Delivery::Send { to, .. } => match result {
            Ok(_) => cat("routed to ", to.as_str()),
            Err(e) => cat("route send: ", e.as_str()),
        },
        Delivery::Spawn { to, .. } => match result {
            Ok(_) => cat3("routed to ", to.as_str(), " (spawned)"),
            Err(e) => cat("route spawn: ", e.as_str()),
        },
        Delivery::Resume { to, .. } => match result {
            Ok(_) => cat3("routed to ", to.as_str(), " (resumed)"),
            Err(e) => cat("route resume: ", e.as_str()),
        },
    }
}

/// A message to be routed, and whether the operator allowed it.
struct Queued {
    message: Message,
    allowed: bool,
}

/// A message to be routed. What the operator allowed is this one message.
#[verifier::ext_equal]
pub struct QueuedView {
    pub message: MessageView,
    pub allowed: bool,
}

impl View for Queued {
    type V = QueuedView;

    closed spec fn view(&self) -> QueuedView {
        QueuedView { message: self.message@, allowed: self.allowed }
    }
}

/// The messages that were accepted, and the one that waits for the operator, with
/// the directory it is for.
pub struct Router {
    queue: Vec<Queued>,
    pending: Option<(Message, String)>,
}

#[verifier::ext_equal]
pub struct RouterView {
    pub queue: Seq<QueuedView>,
    pub pending: Option<(MessageView, Seq<char>)>,
}

spec fn queued(v: Seq<Queued>) -> Seq<QueuedView> {
    Seq::new(v.len(), |i: int| v[i]@)
}

/// The deliveries, by their views.
pub open spec fn deliveries(v: Seq<Delivery>) -> Seq<DeliveryView> {
    Seq::new(v.len(), |i: int| v[i]@)
}

impl View for Router {
    type V = RouterView;

    closed spec fn view(&self) -> RouterView {
        RouterView {
            queue: queued(self.queue@),
            pending: match self.pending {
                Some(p) => Some((p.0@, p.1@)),
                None => None,
            },
        }
    }
}

/// A message may be delivered: it was allowed, or its pair of directories is
/// listed.
pub open spec fn cleared(whitelist: Option<Seq<char>>, q: QueuedView, dir: Seq<char>) -> bool {
    q.allowed || listed(whitelist, q.message.from_cwd, dir)
}

/// What a pass over the queue gives: the deliveries, the messages that go on
/// waiting, those that were not reached, and the one that the operator has to
/// decide on, at which the pass stops.
pub struct PassView {
    pub out: Seq<DeliveryView>,
    pub deferred: Seq<QueuedView>,
    pub rest: Seq<QueuedView>,
    pub pending: Option<(MessageView, Seq<char>)>,
}

/// A pass over messages.
pub open spec fn passed(
    queue: Seq<QueuedView>,
    whitelist: Option<Seq<char>>,
    b: BoardView,
) -> PassView
    decreases queue.len(),
{
    if queue.len() == 0 {
        PassView { out: Seq::empty(), deferred: Seq::empty(), rest: Seq::empty(), pending: None }
    } else {
        let q = queue[0];
        let m = q.message;
        let later = passed(queue.drop_first(), whitelist, b);
        match target_dir(m, b) {
            None => PassView {
                out: seq![DeliveryView::Report("route: unknown target session"@)] + later.out,
                ..later
            },
            Some(dir) => if !cleared(whitelist, q, dir) {
                PassView {
                    out: Seq::empty(),
                    deferred: Seq::empty(),
                    rest: queue.drop_first(),
                    pending: Some((m, dir)),
                }
            } else {
                match delivery_of(m, b) {
                    Some(d) => PassView { out: seq![d] + later.out, ..later },
                    None => PassView { deferred: seq![q] + later.deferred, ..later },
                }
            },
        }
    }
}

fn copy_queued(q: &Queued) -> (r: Queued)
    ensures
        r@ == q@,
{
    Queued { message: q.message.clone(), allowed: q.allowed }
}

impl Router {
    pub fn new() -> (r: Self)
        ensures
            r@ == (RouterView { queue: Seq::empty(), pending: None }),
    {
        let r = Router { queue: Vec::new(), pending: None };
        assert(queued(r.queue@) =~= Seq::<QueuedView>::empty());
        r
    }

    /// Accepts a message, to be routed on the next pass.
    pub fn enqueue(&mut self, m: Message)
        ensures
            final(self)@ == (RouterView {
                queue: old(self)@.queue.push(QueuedView { message: m@, allowed: false }),
                ..old(self)@
            }),
    {
        let ghost was = self.queue@;
        let q = Queued { message: m, allowed: false };
        self.queue.push(q);
        assert(queued(self.queue@) =~= queued(was).push(q@));
    }

    /// The message that waits for the operator.
    pub fn pending(&self) -> (r: Option<&Message>)
        ensures
            match r {
                Some(m) => self@.pending matches Some(p) && p.0 == m@,
                None => self@.pending is None,
            },
    {
        match &self.pending {
            Some(p) => Some(&p.0),
            None => None,
        }
    }

    /// One pass over the queue: every message that may be delivered is, up to the
    /// first that the operator has to decide on. Nothing while one waits.
    pub fn poll(&mut self, board: &Board, whitelist: Option<&str>) -> (r: Vec<Delivery>)
        ensures
            match old(self)@.pending {
                Some(_) => final(self)@ == old(self)@ && r@.len() == 0,
                None => {
                    let p = passed(old(self)@.queue, opt_str(whitelist), board@);
                    &&& deliveries(r@) == p.out
                    &&& final(self)@ == (RouterView {
                        queue: p.deferred + p.rest,
                        pending: p.pending,
                    })
                },
            },
    {
        let mut out: Vec<Delivery> = Vec::new();
        if self.pending.is_some() {
            return out;
        }
        let ghost q = self@.queue;
        let ghost wl = opt_str(whitelist);
        let ghost whole = passed(q, wl, board@);
        let mut keep: Vec<Queued> = Vec::new();
        let mut i: usize = 0;
        proof {
            assert(q.skip(0) =~= q);
            assert(deliveries(out@) + whole.out =~= whole.out);
            assert(queued(keep@) + whole.deferred =~= whole.deferred);
        }
        while i < self.queue.len()
            invariant
                i <= self.queue@.len(),
                q == queued(self.queue@),
                wl == opt_str(whitelist),
                self.pending is None,
                old(self)@ == (RouterView { queue: q, pending: None }),
                whole == passed(q, wl, board@),
                whole.out == deliveries(out@) + passed(q.skip(i as int), wl, board@).out,
                whole.deferred == queued(keep@) + passed(q.skip(i as int), wl, board@).deferred,
                whole.rest == passed(q.skip(i as int), wl, board@).rest,
                whole.pending == passed(q.skip(i as int), wl, board@).pending,
            decreases self.queue@.len() - i,
        {
            let entry = &self.queue[i];
            let m = &entry.message;
            let ghost later = passed(q.skip(i + 1), wl, board@);
            let ghost o0 = out@;
            let ghost k0 = keep@;
            proof {
                assert(q.skip(i as int).drop_first() =~= q.skip(i + 1));
                assert(q.skip(i as int)[0] == entry@);
            }
            match target_cwd(m, board) {
                None => {
                    out.push(Delivery::Report("route: unknown target session".to_owned()));
                    proof {
                        let d = DeliveryView::Report("route: unknown target session"@);
                        assert(deliveries(out@) =~= deliveries(o0).push(d));
                        assert(deliveries(o0) + (seq![d] + later.out) =~= deliveries(out@) + later.out);
                    }
                },
                Some(dir) => {
                    let ok = entry.allowed || is_whitelisted(
                        whitelist,
                        m.from_cwd.as_str(),
                        dir.as_str(),
                    );
                    if !ok {
                        let ghost kept = queued(keep@);
                        let waiting = m.clone();
                        let mut queue = keep;
                        let mut k: usize = i + 1;
                        let ghost tail = q.skip(i + 1);
                        proof {
                            assert(queued(queue@) =~= kept + tail.take(0));
                        }
                        while k < self.queue.len()
                            invariant
                                i < k <= self.queue@.len(),
                                q == queued(self.queue@),
                                tail == q.skip(i + 1),
                                queued(queue@) =~= kept + tail.take(k - i - 1),
                            decreases self.queue@.len() - k,
                        {
                            let ghost w = queue@;
                            queue.push(copy_queued(&self.queue[k]));
                            assert(tail[k - i - 1] == self.queue@[k as int]@);
                            assert(queued(queue@) =~= queued(w).push(self.queue@[k as int]@));
                            k = k + 1;
                        }
                        proof {
                            assert(tail.take(tail.len() as int) =~= tail);
                            assert(kept + Seq::<QueuedView>::empty() =~= kept);
                            assert(deliveries(out@) + Seq::<DeliveryView>::empty() =~= deliveries(out@));
                        }
                        self.queue = queue;
                        self.pending = Some((waiting, dir));
                        return out;
                    }
                    match deliver(m, board) {
                        Some(d) => {
                            out.push(d);
                            proof {
                                assert(deliveries(out@) =~= deliveries(o0).push(d@));
                                assert(deliveries(o0) + (seq![d@] + later.out) =~= deliveries(out@)
                                    + later.out);
                            }
                        },
                        None => {
                            keep.push(copy_queued(entry));
                            proof {
                                assert(queued(keep@) =~= queued(k0).push(entry@));
                                assert(queued(k0) + (seq![entry@] + later.deferred) =~= queued(keep@)
                                    + later.deferred);
                            }
                        },
                    }
                },
            }
            i = i + 1;
        }
        proof {
            assert(q.skip(q.len() as int).len() == 0);
            assert(deliveries(out@) + Seq::<DeliveryView>::empty() =~= deliveries(out@));
            assert(queued(keep@) + Seq::<QueuedView>::empty() =~= queued(keep@));
        }
        self.queue = keep;
        out
    }

    fn release(&mut self, m: Message)
        ensures
            final(self)@ == (RouterView {
                queue: seq![QueuedView { message: m@, allowed: true }] + old(self)@.queue,
                ..old(self)@
            }),
    {
        let ghost was = self.queue@;
        let q = Queued { message: m, allowed: true };
        self.queue.insert(0, q);
        assert(queued(self.queue@) =~= seq![q@] + queued(was));
    }

    /// Allows the message that waits this once: the next pass delivers it first.
    pub fn allow_once(&mut self)
        ensures
            final(self)@ == (match old(self)@.pending {
                Some(p) => RouterView {
                    queue: seq![QueuedView { message: p.0, allowed: true }] + old(self)@.queue,
                    pending: None,
                },
                None => old(self)@,
            }),
    {
        let mut slot: Option<(Message, String)> = None;
        std::mem::swap(&mut slot, &mut self.pending);
        match slot {
            Some(p) => {
                self.release(p.0);
            },
            None => {},
        }
    }

    /// Allows the message that waits, and gives what is to be appended to the
    /// whitelist so that its pair of directories is allowed from now on.
    pub fn allow_always(&mut self) -> (r: Option<String>)
        ensures
            match old(self)@.pending {
                None => r is None && final(self)@ == old(self)@,
                Some(p) => {
                    &&& r matches Some(line) && line@ == grant_line(p.0.from_cwd, p.1) + "\n"@
                    &&& final(self)@ == (RouterView {
                        queue: seq![QueuedView { message: p.0, allowed: true }] + old(self)@.queue,
                        pending: None,
                    })
                },
            },
    {
        let mut slot: Option<(Message, String)> = None;
        std::mem::swap(&mut slot, &mut self.pending);
        match slot {
            Some(p) => {
                let (m, dir) = p;
                let line = whitelist_add(m.from_cwd.as_str(), dir.as_str());
                self.release(m);
                Some(line)
            },
            None => None,
        }
    }

    /// Drops the message that waits.
    pub fn deny(&mut self)
        ensures
            final(self)@ == (RouterView { pending: None, ..old(self)@ }),
    {
        self.pending = None;
    }
}

/// A message has to be decided on by the operator: it has a known target and is
/// neither allowed nor listed.
pub open spec fn undecided(q: QueuedView, whitelist: Option<Seq<char>>, b: BoardView) -> bool {
    target_dir(q.message, b) matches Some(dir) && !cleared(whitelist, q, dir)
}

/// A pass stops at the first message that the operator has to decide on: that
/// one waits, and what is behind it is not reached.
pub proof fn law_undecided_message_waits(
    queue: Seq<QueuedView>,
    whitelist: Option<Seq<char>>,
    b: BoardView,
    k: int,
)
    requires
        0 <= k < queue.len(),
        undecided(queue[k], whitelist, b),
        forall|j: int| 0 <= j < k ==> !undecided(#[trigger] queue[j], whitelist, b),
    ensures
        passed(queue, whitelist, b).pending == Some(
            (queue[k].message, target_dir(queue[k].message, b)->0),
        ),
        passed(queue, whitelist, b).rest == queue.skip(k + 1),
    decreases queue.len(),
{
    if k == 0 {
        assert(queue.drop_first() =~= queue.skip(1));
    } else {
        let tail = queue.drop_first();
        assert(!undecided(queue[0], whitelist, b));
        assert forall|j: int| 0 <= j < k - 1 implies !undecided(#[trigger] tail[j], whitelist, b) by {
            assert(tail[j] == queue[j + 1]);
        }
        law_undecided_message_waits(tail, whitelist, b, k - 1);
        assert(tail.skip(k) =~= queue.skip(k + 1));
    }
}

/// Nothing is delivered that was not allowed: whatever a pass hands out is the
/// delivery of a message that is allowed or listed, or the report that its
/// target is unknown.
pub proof fn law_only_the_allowed_is_delivered(
    queue: Seq<QueuedView>,
    whitelist: Option<Seq<char>>,
    b: BoardView,
    i: int,
)
    requires
        0 <= i < passed(queue, whitelist, b).out.len(),
    ensures
        ({
            let d = passed(queue, whitelist, b).out[i];
            d == DeliveryView::Report("route: unknown target session"@) || exists|j: int|
                {
                    &&& 0 <= j < queue.len()
                    &&& delivery_of((#[trigger] queue[j]).message, b) == Some(d)
                    &&& target_dir(queue[j].message, b) is Some
                    &&& cleared(whitelist, queue[j], target_dir(queue[j].message, b)->0)
                }
        }),
    decreases queue.len(),
{
    let p = passed(queue, whitelist, b);
    let tail = queue.drop_first();
    let later = passed(tail, whitelist, b);
    let d = p.out[i];
    let here = p.out.len() - later.out.len();
    if i == 0 && p.out.len() == 1 + later.out.len() {
        assert(queue[0] == queue[0]);
    } else {
        law_only_the_allowed_is_delivered(tail, whitelist, b, i - here);
        assert(d == later.out[i - here]);
        if d != DeliveryView::Report("route: unknown target session"@) {
            let j = choose|j: int|
                {
                    &&& 0 <= j < tail.len()
                    &&& delivery_of((#[trigger] tail[j]).message, b) == Some(d)
                    &&& target_dir(tail[j].message, b) is Some
                    &&& cleared(whitelist, tail[j], target_dir(tail[j].message, b)->0)
                };
            assert(queue[j + 1] == tail[j]);
        }
    }
}

/// No message is lost: each is delivered or reported, goes on waiting for its
/// receiver, waits for the operator, or was not reached.
pub proof fn law_no_message_is_lost(
    queue: Seq<QueuedView>,
    whitelist: Option<Seq<char>>,
    b: BoardView,
)
    ensures
        ({
            let p = passed(queue, whitelist, b);
            queue.len() == p.out.len() + p.deferred.len() + p.rest.len() + (if p.pending is Some {
                1nat
            } else {
                0
            })
        }),
    decreases queue.len(),
{
    if queue.len() > 0 {
        law_no_message_is_lost(queue.drop_first(), whitelist, b);
    }
}

/// A message to a session that the registry knows but that is not yet announced
/// is kept: it stands in the queue of the next pass.
pub proof fn law_undiscovered_session_keeps_its_message(
    queue: Seq<QueuedView>,
    whitelist: Option<Seq<char>>,
    b: BoardView,
)
    requires
        queue.len() > 0,
        target_dir(queue[0].message, b) matches Some(dir) && cleared(whitelist, queue[0], dir),
        delivery_of(queue[0].message, b) is None,
    ensures
        passed(queue, whitelist, b).deferred.contains(queue[0]),
{
    let p = passed(queue, whitelist, b);
    assert(p.deferred[0] == queue[0]);
}

/// An approval covers one message: one that the operator has not allowed waits
/// unless its pair is listed, whatever was allowed before under its id.
pub proof fn law_new_message_is_put_to_the_operator(
    m: MessageView,
    dir: Seq<char>,
    whitelist: Option<Seq<char>>,
    b: BoardView,
)
    requires
        target_dir(m, b) == Some(dir),
        !listed(whitelist, m.from_cwd, dir),
    ensures
        ({
            let p = passed(seq![QueuedView { message: m, allowed: false }], whitelist, b);
            p.out.len() == 0 && p.pending == Some((m, dir))
        }),
{
}

/// A message for a session goes to that session: over its socket where it runs,
/// by resuming it in its own directory where it sleeps, and what arrives is the
/// tagged text. One that the registry knows but that is on neither side yet
/// waits, and one that nobody knows is reported.
pub proof fn law_message_goes_to_its_session(m: MessageView, b: BoardView, sid: Seq<char>)
    requires
        m.target == TargetView::Session(sid),
    ensures
        agent_for(b.live, sid) matches Some(a) ==> delivery_of(m, b) == Some(
            DeliveryView::Send {
                socket: a.socket_path,
                text: m.tagged(),
                to: "session "@ + sid,
            },
        ),
        agent_for(b.live, sid) is None ==> (agent_for(b.dormant, sid) matches Some(d) ==> {
            &&& d.cwd is None || d.resume_command is None ==> (delivery_of(m, b) matches Some(x) && x is Report)
            &&& d.cwd is Some && d.resume_command is Some ==> (delivery_of(m, b) matches Some(
                DeliveryView::Resume { cwd, command, mode, text, to },
            ) && {
                &&& cwd == d.cwd->0
                &&& filled_in(command, d.resume_command->0, or_empty(d.session_id), cwd)
                &&& mode.gui == d.gui && mode.message_flag == d.message_flag && mode.hidden == d.hidden
                &&& text == m.tagged()
            })
        }),
        agent_for(b.live, sid) is None && agent_for(b.dormant, sid) is None ==> {
            &&& b.session_entry(sid) is Some ==> delivery_of(m, b) is None
            &&& b.session_entry(sid) is None ==> (delivery_of(m, b) matches Some(x) && x is Report)
        },
{
    if agent_for(b.dormant, sid) is Some {
        let d = agent_for(b.dormant, sid)->0;
        if d.resume_command is Some {
            law_template_is_filled_in(d.resume_command->0, d.own_id(), d.cwd);
        }
    }
}

/// A message for a directory goes to the first agent that runs in exactly that
/// directory, and a new one is started there where none does or one is asked
/// for. It never goes anywhere else.
pub proof fn law_message_goes_to_its_directory(m: MessageView, b: BoardView, dir: Seq<char>)
    requires
        m.target == TargetView::Dir(dir),
    ensures
        m.force_new || (forall|i: int| 0 <= i < b.live.len() ==> (#[trigger] b.live[i]).cwd != Some(dir))
            ==> delivery_of(m, b) == Some(DeliveryView::Spawn { dir, text: m.tagged(), to: dir }),
        !m.force_new ==> (delivery_of(m, b) matches Some(DeliveryView::Send { socket, text, .. }) ==> {
            &&& text == m.tagged()
            &&& exists|i: int|
                0 <= i < b.live.len() && (#[trigger] b.live[i]).cwd == Some(dir)
                    && b.live[i].socket_path == socket
        }),
        !m.force_new && (exists|i: int| 0 <= i < b.live.len() && (#[trigger] b.live[i]).cwd == Some(dir))
            ==> (delivery_of(m, b) matches Some(x) && x is Send),
        target_dir(m, b) == Some(dir),
{
    let p = |a: AgentView| a.cwd == Some(dir);
    let s = b.in_dir(dir);
    if s.len() > 0 {
        b.live.lemma_filter_pred(p, 0);
        assert(s.contains(s[0]));
        b.live.lemma_filter_contains_rev(p, s[0]);
        let k = choose|k: int| 0 <= k < b.live.len() && b.live[k] == s[0];
        assert(b.live[k].cwd == Some(dir));
    }
    if exists|i: int| 0 <= i < b.live.len() && (#[trigger] b.live[i]).cwd == Some(dir) {
        let i = choose|i: int| 0 <= i < b.live.len() && (#[trigger] b.live[i]).cwd == Some(dir);
        b.live.lemma_filter_contains(p, i);
        assert(s.len() > 0);
    }
}

/// What is said of a delivery is how it went: that it was routed, and how, where
/// it went well, and the words of the failure where it did not.
pub proof fn law_delivery_is_reported_as_it_went(d: DeliveryView, e: Seq<char>)
    ensures
        d matches DeliveryView::Send { to: t, .. } ==> delivery_report(d, Ok(())) == "routed to "@ + t
            && delivery_report(d, Err(e)) == "route send: "@ + e,
        d matches DeliveryView::Spawn { to: t, .. } ==> delivery_report(d, Ok(())) == "routed to "@ + t
            + " (spawned)"@ && delivery_report(d, Err(e)) == "route spawn: "@ + e,
        d matches DeliveryView::Resume { to: t, .. } ==> delivery_report(d, Ok(())) == "routed to "@ + t
            + " (resumed)"@ && delivery_report(d, Err(e)) == "route resume: "@ + e,
        d matches DeliveryView::Report(s) ==> delivery_report(d, Ok(())) == s && delivery_report(
            d,
            Err(e),
        ) == s,
{
}

/// The directory that a message for a session goes to is that of the session: the
/// one its live agent runs in, else the one it sleeps in, else the one that the
/// registry has for it. A message for a directory goes to that one.
pub proof fn law_target_directory_is_that_of_the_session(
    m: MessageView,
    b: BoardView,
    sid: Seq<char>,
    dir: Seq<char>,
)
    ensures
        m.target == TargetView::Dir(dir) ==> target_dir(m, b) == Some(dir),
        m.target == TargetView::Session(sid) ==> {
            &&& agent_for(b.live, sid) matches Some(a) ==> (a.cwd == Some(dir) ==> target_dir(m, b)
                == Some(dir))
            &&& agent_for(b.live, sid) is None ==> (agent_for(b.dormant, sid) matches Some(a) ==> (a.cwd
                == Some(dir) ==> target_dir(m, b) == Some(dir)))
            &&& agent_for(b.live, sid) is None && agent_for(b.dormant, sid) is None ==> (
            b.session_entry(sid) matches Some(c) ==> target_dir(m, b) == c)
            &&& agent_for(b.live, sid) is None && agent_for(b.dormant, sid) is None && b.session_entry(
                sid,
            ) is None ==> target_dir(m, b) is None
        },
{
}

} // verus!
