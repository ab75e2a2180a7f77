//! The loop that keeps the board in step with the registry: which sockets to
//! watch, which were found dead, and how old everything on the board is.
use vstd::prelude::*;

use crate::discovery::{live_socket, records, socket_of, RecordView, RegistryEntry, SocketEntry, SocketView};
use crate::json::JsonView;
use crate::model::{
    agent_refs, at_path, changed, has_path, is_dormant, live_after, path_among, session_live, synced,
    update_path, AgentView, Board, BoardView, State, Update, UpdateView,
};
use crate::path::{is_same_path, same_path};
use crate::text::{cat, decimal, texts, to_decimal};
use crate::watch::{
    activity_in, heard, heard_all, model_in, state_in, title_in, updates, WatcherView,
};

verus! {

/// How long the registry is trusted without a sign that it changed, in
/// nanoseconds.
pub const SCAN_INTERVAL: u128 = 1000000000;

/// A compact age, in the largest unit that fits.
pub open spec fn age_text(seconds: nat) -> Seq<char> {
    if seconds < 60 {
        decimal(seconds) + "s"@
    } else if seconds < 3600 {
        decimal(seconds / 60) + "m"@
    } else if seconds < 86400 {
        decimal(seconds / 3600) + "h"@
    } else {
        decimal(seconds / 86400) + "d"@
    }
}

/// A compact age, such as `8s`, `5m`, `2h` or `3d`.
pub fn age_label(seconds: u64) -> (r: String)
    ensures
        r@ == age_text(seconds as nat),
{
    if seconds < 60 {
        cat(to_decimal(seconds).as_str(), "s")
    } else if seconds < 3600 {
        cat(to_decimal(seconds / 60).as_str(), "m")
    } else if seconds < 86400 {
        cat(to_decimal(seconds / 3600).as_str(), "h")
    } else {
        cat(to_decimal(seconds / 86400).as_str(), "d")
    }
}

/// The whole seconds since a time of the same clock; none where it lies ahead.
pub open spec fn seconds_since(at: u128, now: u128) -> nat {
    let s = if now >= at {
        (now - at) / 1000000000
    } else {
        0
    };
    if s <= u64::MAX {
        s as nat
    } else {
        u64::MAX as nat
    }
}

/// The whole seconds since a time of the same clock.
pub fn elapsed(at: u128, now: u128) -> (r: u64)
    ensures
        r as nat == seconds_since(at, now),
{
    if now < at {
        return 0;
    }
    let s: u128 = (now - at) / 1000000000;
    if s <= u64::MAX as u128 {
        s as u64
    } else {
        u64::MAX
    }
}

/// What the loop keeps.
pub struct Engine {
    board: Board,
    known: Vec<String>,
    dead: Vec<String>,
    dormant_ages: Vec<(String, String)>,
    last_scan: Option<u128>,
}

/// What the loop keeps.
#[verifier::ext_equal]
pub struct EngineView {
    pub board: BoardView,
    /// The sockets that are watched.
    pub known: Seq<Seq<char>>,
    /// The sockets whose watcher ended.
    pub dead: Seq<Seq<char>>,
    /// The age of each record, by session.
    pub dormant_ages: Seq<(Seq<char>, Seq<char>)>,
    pub last_scan: Option<u128>,
}

/// Pairs of texts, by their views.
pub open spec fn pairs(v: Seq<(String, String)>) -> Seq<(Seq<char>, Seq<char>)> {
    Seq::new(v.len(), |i: int| (v[i].0@, v[i].1@))
}

impl View for Engine {
    type V = EngineView;

    closed spec fn view(&self) -> EngineView {
        EngineView {
            board: self.board@,
            known: texts(self.known@),
            dead: texts(self.dead@),
            dormant_ages: pairs(self.dormant_ages@),
            last_scan: self.last_scan,
        }
    }
}

/// Some record names the socket.
pub open spec fn named(entries: Seq<RecordView>, path: Seq<char>) -> bool {
    exists|i: int|
        0 <= i < entries.len() && ((#[trigger] entries[i]).socket matches Some(s) && same_path(s, path))
}

/// The watched sockets after a scan, and those to be watched from now on: the
/// live sockets of the records that no watcher knows yet, in their order.
pub open spec fn to_watch(known: Seq<Seq<char>>, entries: Seq<RecordView>) -> (Seq<Seq<char>>, Seq<SocketView>)
    decreases entries.len(),
{
    if entries.len() == 0 {
        (known, Seq::empty())
    } else {
        let (k, fresh) = to_watch(known, entries.drop_last());
        match socket_of(entries.last()) {
            Some(s) if !path_among(k, s.path) => (k.push(s.path), fresh.push(s)),
            _ => (k, fresh),
        }
    }
}

/// The ages of the records, by session, as far as they are known.
pub open spec fn ages_of(entries: Seq<RecordView>, ages: Seq<Option<u64>>) -> Seq<(Seq<char>, Seq<char>)>
    decreases entries.len(),
{
    if entries.len() == 0 {
        Seq::empty()
    } else {
        let before = ages_of(entries.drop_last(), ages);
        match ages[entries.len() - 1] {
            Some(s) => before.push((entries.last().session_id, age_text(s as nat))),
            None => before,
        }
    }
}

/// The loop's state after a scan.
pub open spec fn scanned(e: EngineView, entries: Seq<RecordView>, ages: Seq<Option<u64>>, now: u128) -> EngineView {
    let dead = e.dead.filter(|p: Seq<char>| named(entries, p));
    EngineView {
        board: synced(e.board, entries, dead),
        known: to_watch(e.known, entries).0,
        dead,
        dormant_ages: ages_of(entries, ages),
        last_scan: Some(now),
    }
}

/// A path taken out of a list, however it is written there.
pub open spec fn without(v: Seq<Seq<char>>, path: Seq<char>) -> Seq<Seq<char>> {
    v.filter(|p: Seq<char>| !same_path(p, path))
}

/// The loop's state after an update: a watcher that ended is no longer known
/// and its socket is dead; an agent that announces itself is not dead.
pub open spec fn told(e: EngineView, u: UpdateView, now: u128) -> EngineView {
    let board = BoardView { live: live_after(e.board.live, u, now), ..e.board };
    match u {
        UpdateView::Gone(p) => EngineView {
            board,
            known: without(e.known, p),
            dead: if path_among(e.dead, p) {
                e.dead
            } else {
                e.dead.push(p)
            },
            ..e
        },
        UpdateView::Upsert(a) => EngineView { board, dead: without(e.dead, a.socket_path), ..e },
        _ => EngineView { board, ..e },
    }
}

/// The loop's state after updates.
pub open spec fn told_all(e: EngineView, us: Seq<UpdateView>, now: u128) -> EngineView
    decreases us.len(),
{
    if us.len() == 0 {
        e
    } else {
        told(told_all(e, us.drop_last(), now), us.last(), now)
    }
}

fn is_named(entries: &Vec<RegistryEntry>, path: &str) -> (r: bool)
    ensures
        r == named(records(entries@), path@),
{
    let mut i: usize = 0;
    let ghost rv = records(entries@);
    while i < entries.len()
        invariant
            i <= entries@.len(),
            rv == records(entries@),
            forall|j: int|
                0 <= j < i ==> !((#[trigger] rv[j]).socket matches Some(s) && same_path(s, path@)),
        decreases entries@.len() - i,
    {
        assert(rv[i as int] == entries@[i as int]@);
        match &entries[i].socket {
            Some(s) => {
                if is_same_path(s.as_str(), path) {
                    return true;
                }
            },
            None => {},
        }
        i = i + 1;
    }
    false
}

fn take_out(v: &Vec<String>, path: &str) -> (r: Vec<String>)
    ensures
        texts(r@) == without(texts(v@), path@),
{
    let ghost keep = |p: Seq<char>| !same_path(p, path@);
    let ghost all = texts(v@);
    let mut out: Vec<String> = Vec::new();
    let mut i: usize = 0;
    proof {
        reveal(Seq::filter);
        assert(texts(out@) =~= all.take(0).filter(keep));
    }
    while i < v.len()
        invariant
            i <= v@.len(),
            all == texts(v@),
            keep == (|p: Seq<char>| !same_path(p, path@)),
            texts(out@) == all.take(i as int).filter(keep),
        decreases v@.len() - i,
    {
        proof {
            reveal(Seq::filter);
            assert(all.take(i + 1).drop_last() =~= all.take(i as int));
            assert(all.take(i + 1).last() == v@[i as int]@);
        }
        let ghost was = out@;
        if !is_same_path(v[i].as_str(), path) {
            out.push(v[i].clone());
            assert(texts(out@) =~= texts(was).push(v@[i as int]@));
        }
        i = i + 1;
    }
    assert(all.take(all.len() as int) =~= all);
    out
}

fn still_named(v: &Vec<String>, entries: &Vec<RegistryEntry>) -> (r: Vec<String>)
    ensures
        texts(r@) == texts(v@).filter(|p: Seq<char>| named(records(entries@), p)),
{
    let ghost keep = |p: Seq<char>| named(records(entries@), p);
    let ghost all = texts(v@);
    let mut out: Vec<String> = Vec::new();
    let mut i: usize = 0;
    proof {
        reveal(Seq::filter);
        assert(texts(out@) =~= all.take(0).filter(keep));
    }
    while i < v.len()
        invariant
            i <= v@.len(),
            all == texts(v@),
            keep == (|p: Seq<char>| named(records(entries@), p)),
            texts(out@) == all.take(i as int).filter(keep),
        decreases v@.len() - i,
    {
        proof {
            reveal(Seq::filter);
            assert(all.take(i + 1).drop_last() =~= all.take(i as int));
            assert(all.take(i + 1).last() == v@[i as int]@);
        }
        let ghost was = out@;
        if is_named(entries, v[i].as_str()) {
            out.push(v[i].clone());
            assert(texts(out@) =~= texts(was).push(v@[i as int]@));
        }
        i = i + 1;
    }
    assert(all.take(all.len() as int) =~= all);
    out
}

/// Whether the registry is to be scanned: when it changed, and when it was not
/// scanned for the interval.
pub open spec fn scan_due(last: Option<u128>, changed: bool, now: u128) -> bool {
    changed || match last {
        None => true,
        Some(t) => now >= t + SCAN_INTERVAL,
    }
}

/// How long each live agent has been in its state, by path.
pub open spec fn state_ages(live: Seq<AgentView>, now: u128) -> Seq<(Seq<char>, Seq<char>)> {
    live.map_values(
        |a: AgentView| (a.socket_path, age_text(seconds_since(a.state_since, now))),
    )
}

/// How long each live agent has been quiet, by path.
pub open spec fn quiet_times(live: Seq<AgentView>, now: u128) -> Seq<(Seq<char>, Seq<char>)> {
    live.map_values(
        |a: AgentView| (a.socket_path, age_text(seconds_since(a.last_activity, now))),
    )
}

/// The sockets, by their views.
pub open spec fn sockets(v: Seq<SocketEntry>) -> Seq<SocketView> {
    Seq::new(v.len(), |i: int| v[i]@)
}

impl Engine {
    /// A loop with an empty board, which scans at once.
    pub fn new() -> (r: Self)
        ensures
            r@ == (EngineView {
                board: BoardView {
                    live: Seq::empty(),
                    dormant: Seq::empty(),
                    sessions: Seq::empty(),
                    filter: Seq::empty(),
                },
                known: Seq::empty(),
                dead: Seq::empty(),
                dormant_ages: Seq::empty(),
                last_scan: None,
            }),
    {
        let r = Engine {
            board: Board::default(),
            known: Vec::new(),
            dead: Vec::new(),
            dormant_ages: Vec::new(),
            last_scan: None,
        };
        assert(texts(r.known@) =~= Seq::<Seq<char>>::empty());
        assert(texts(r.dead@) =~= Seq::<Seq<char>>::empty());
        assert(pairs(r.dormant_ages@) =~= Seq::<(Seq<char>, Seq<char>)>::empty());
        r
    }

    /// Whether the registry is to be scanned: it changed, or it was last scanned
    /// long enough ago, or never.
    pub fn due(&self, changed: bool, now: u128) -> (r: bool)
        ensures
            r == (changed || match self@.last_scan {
                None => true,
                Some(t) => now >= t + SCAN_INTERVAL,
            }),
            r == scan_due(self@.last_scan, changed, now),
    {
        if changed {
            return true;
        }
        match self.last_scan {
            None => true,
            Some(t) => now >= t && now - t >= SCAN_INTERVAL,
        }
    }

    /// Takes in a scan of the registry: the records, and how old the file of
    /// each is, in seconds. Gives the sockets that are to be watched from now
    /// on.
    pub fn rescan(&mut self, entries: &Vec<RegistryEntry>, ages: &Vec<Option<u64>>, now: u128) -> (r: Vec<SocketEntry>)
        requires
            ages@.len() == entries@.len(),
        ensures
            final(self)@ == scanned(old(self)@, records(entries@), ages@, now),
            sockets(r@) == to_watch(old(self)@.known, records(entries@)).1,
    {
        let ghost was = self@;
        let ghost rv = records(entries@);
        self.dead = still_named(&self.dead, entries);
        let mut fresh: Vec<SocketEntry> = Vec::new();
        let mut labels: Vec<(String, String)> = Vec::new();
        let mut i: usize = 0;
        proof {
            assert(rv.take(0) =~= Seq::<RecordView>::empty());
            assert(sockets(fresh@) =~= Seq::<SocketView>::empty());
            assert(pairs(labels@) =~= Seq::<(Seq<char>, Seq<char>)>::empty());
        }
        while i < entries.len()
            invariant
                i <= entries@.len(),
                rv == records(entries@),
                ages@.len() == entries@.len(),
                self.board@ == was.board,
                texts(self.dead@) == was.dead.filter(|p: Seq<char>| named(rv, p)),
                (texts(self.known@), sockets(fresh@)) == to_watch(was.known, rv.take(i as int)),
                pairs(labels@) == ages_of(rv.take(i as int), ages@),
            decreases entries@.len() - i,
        {
            proof {
                assert(rv.take(i + 1).drop_last() =~= rv.take(i as int));
                assert(rv.take(i + 1).last() == entries@[i as int]@);
            }
            let ghost k = self.known@;
            let ghost f = fresh@;
            match live_socket(&entries[i]) {
                Some(s) => {
                    if !has_path(&self.known, s.path.as_str()) {
                        self.known.push(s.path.clone());
                        fresh.push(s);
                        assert(texts(self.known@) =~= texts(k).push(s@.path));
                        assert(sockets(fresh@) =~= sockets(f).push(s@));
                    }
                },
                None => {},
            }
            let ghost l = labels@;
            match ages[i] {
                Some(s) => {
                    labels.push((entries[i].session_id.clone(), age_label(s)));
                    assert(pairs(labels@) =~= pairs(l).push(
                        (entries@[i as int]@.session_id, age_text(s as nat)),
                    ));
                },
                None => {},
            }
            i = i + 1;
        }
        assert(rv.take(rv.len() as int) =~= rv);
        self.board.sync_registry(entries, &self.dead);
        self.dormant_ages = labels;
        self.last_scan = Some(now);
        fresh
    }

    /// Takes in one update of a watcher.
    pub fn tell(&mut self, update: Update, now: u128)
        ensures
            final(self)@ == told(old(self)@, update@, now),
    {
        match &update {
            Update::Gone(path) => {
                self.known = take_out(&self.known, path.as_str());
                if !has_path(&self.dead, path.as_str()) {
                    let ghost d = self.dead@;
                    self.dead.push(path.clone());
                    assert(texts(self.dead@) =~= texts(d).push(path@));
                }
            },
            Update::Upsert(a) => {
                self.dead = take_out(&self.dead, a.socket_path.as_str());
            },
            _ => {},
        }
        self.board.apply(update, now);
    }

    /// Takes in the updates of the watchers, in the order in which they came.
    pub fn drain(&mut self, pending: Vec<Update>, now: u128)
        ensures
            final(self)@ == told_all(old(self)@, updates(pending@), now),
    {
        let ghost was = self@;
        let ghost us = updates(pending@);
        let mut rest: Vec<Update> = Vec::new();
        let mut queue = pending;
        // The last update is taken first, so the queue is turned round.
        while queue.len() > 0
            invariant
                us.len() == queue@.len() + rest@.len(),
                updates(queue@) =~= us.take(queue@.len() as int),
                updates(rest@) =~= us.skip(queue@.len() as int).reverse(),
            decreases queue@.len(),
        {
            let ghost q = queue@;
            let ghost r0 = rest@;
            let u = queue.pop().unwrap();
            rest.push(u);
            proof {
                assert(updates(q)[q.len() - 1] == u@);
                assert(us[q.len() - 1] == u@);
                assert(updates(rest@) =~= updates(r0).push(u@));
                assert(us.skip(queue@.len() as int).reverse() =~= us.skip(q.len() as int).reverse().push(u@));
                assert(updates(queue@) =~= us.take(queue@.len() as int)) by {
                    assert forall|i: int| 0 <= i < queue@.len() implies updates(queue@)[i] == us.take(
                        queue@.len() as int,
                    )[i] by {
                        assert(updates(q)[i] == us.take(q.len() as int)[i]);
                    }
                }
            }
        }
        assert(us.skip(0) =~= us);
        assert(us.take(0) =~= Seq::<UpdateView>::empty());
        let ghost mut done: int = 0;
        while rest.len() > 0
            invariant
                0 <= done <= us.len(),
                rest@.len() == us.len() - done,
                updates(rest@) =~= us.skip(done).reverse(),
                self@ == told_all(was, us.take(done), now),
            decreases rest@.len(),
        {
            let ghost r0 = rest@;
            let u = rest.pop().unwrap();
            proof {
                assert(updates(r0)[r0.len() - 1] == u@);
                assert(us.skip(done).reverse()[r0.len() - 1] == us[done]);
                assert(us.take(done + 1).drop_last() =~= us.take(done));
                assert(us.take(done + 1).last() == u@);
                assert(updates(rest@) =~= us.skip(done + 1).reverse()) by {
                    assert forall|i: int| 0 <= i < rest@.len() implies updates(rest@)[i] == us.skip(
                        done + 1,
                    ).reverse()[i] by {
                        assert(updates(r0)[i] == us.skip(done).reverse()[i]);
                    }
                }
            }
            self.tell(u, now);
            proof {
                done = done + 1;
            }
        }
        assert(us.take(us.len() as int) =~= us);
    }

    /// One turn of the loop: takes in a scan, where there was one, and then the
    /// updates. Gives the sockets that are to be watched from now on.
    pub fn tick(
        &mut self,
        scan: Option<(&Vec<RegistryEntry>, &Vec<Option<u64>>)>,
        pending: Vec<Update>,
        now: u128,
    ) -> (r: Vec<SocketEntry>)
        requires
            scan matches Some(s) ==> s.0@.len() == s.1@.len(),
        ensures
            match scan {
                Some(s) => {
                    &&& final(self)@ == told_all(
                        scanned(old(self)@, records(s.0@), s.1@, now),
                        updates(pending@),
                        now,
                    )
                    &&& sockets(r@) == to_watch(old(self)@.known, records(s.0@)).1
                },
                None => {
                    &&& final(self)@ == told_all(old(self)@, updates(pending@), now)
                    &&& r@.len() == 0
                },
            },
    {
        let fresh = match scan {
            Some(s) => self.rescan(s.0, s.1, now),
            None => Vec::new(),
        };
        self.drain(pending, now);
        fresh
    }

    pub fn board(&self) -> (r: &Board)
        ensures
            r@ == self@.board,
    {
        &self.board
    }

    /// Sets what the board is narrowed to; an empty filter shows everything.
    pub fn set_filter(&mut self, filter: String)
        ensures
            final(self)@ == (EngineView {
                board: BoardView { filter: filter@, ..old(self)@.board },
                ..old(self)@
            }),
    {
        self.board.set_filter(filter);
    }

    /// How long each live agent has been in its state, by socket.
    pub fn in_state_ages(&self, now: u128) -> (r: Vec<(String, String)>)
        ensures
            pairs(r@) == self@.board.live.map_values(
                |a: AgentView| (a.socket_path, age_text(seconds_since(a.state_since, now))),
            ),
            pairs(r@) == state_ages(self@.board.live, now),
    {
        let live = self.board.live_agents();
        let mut out: Vec<(String, String)> = Vec::new();
        let mut i: usize = 0;
        while i < live.len()
            invariant
                i <= live@.len(),
                agent_refs(live@) == self@.board.live,
                out@.len() == i,
                forall|j: int|
                    0 <= j < i ==> (#[trigger] out@[j]).0@ == self@.board.live[j].socket_path && out@[j].1@
                        == age_text(seconds_since(self@.board.live[j].state_since, now)),
            decreases live@.len() - i,
        {
            let a = live[i];
            assert(agent_refs(live@)[i as int] == a@);
            out.push((a.socket_path.clone(), age_label(elapsed(a.state_since, now))));
            i = i + 1;
        }
        assert(pairs(out@) =~= self@.board.live.map_values(
            |a: AgentView| (a.socket_path, age_text(seconds_since(a.state_since, now))),
        )) by {
            assert(agent_refs(live@).len() == live@.len());
        }
        out
    }

    /// How long ago each live agent was last active, by socket.
    pub fn quiet_ages(&self, now: u128) -> (r: Vec<(String, String)>)
        ensures
            pairs(r@) == self@.board.live.map_values(
                |a: AgentView| (a.socket_path, age_text(seconds_since(a.last_activity, now))),
            ),
            pairs(r@) == quiet_times(self@.board.live, now),
    {
        let live = self.board.live_agents();
        let mut out: Vec<(String, String)> = Vec::new();
        let mut i: usize = 0;
        while i < live.len()
            invariant
                i <= live@.len(),
                agent_refs(live@) == self@.board.live,
                out@.len() == i,
                forall|j: int|
                    0 <= j < i ==> (#[trigger] out@[j]).0@ == self@.board.live[j].socket_path && out@[j].1@
                        == age_text(seconds_since(self@.board.live[j].last_activity, now)),
            decreases live@.len() - i,
        {
            let a = live[i];
            assert(agent_refs(live@)[i as int] == a@);
            out.push((a.socket_path.clone(), age_label(elapsed(a.last_activity, now))));
            i = i + 1;
        }
        assert(pairs(out@) =~= self@.board.live.map_values(
            |a: AgentView| (a.socket_path, age_text(seconds_since(a.last_activity, now))),
        )) by {
            assert(agent_refs(live@).len() == live@.len());
        }
        out
    }

    /// How old the record of each session is, by session.
    pub fn dormant_ages(&self) -> (r: &Vec<(String, String)>)
        ensures
            pairs(r@) == self@.dormant_ages,
    {
        &self.dormant_ages
    }
}

/// No two of the paths are the same.
pub open spec fn distinct_paths(v: Seq<Seq<char>>) -> bool {
    forall|i: int, j: int|
        0 <= i < j < v.len() ==> !same_path(#[trigger] v[i], #[trigger] v[j])
}

proof fn lemma_among_push(v: Seq<Seq<char>>, x: Seq<char>, p: Seq<char>)
    ensures
        path_among(v.push(x), p) == (path_among(v, p) || same_path(x, p)),
{
    if path_among(v, p) {
        let i = choose|i: int| 0 <= i < v.len() && same_path(#[trigger] v[i], p);
        assert(v.push(x)[i] == v[i]);
    }
    if same_path(x, p) {
        assert(v.push(x)[v.len() as int] == x);
    }
    if path_among(v.push(x), p) {
        let i = choose|i: int| 0 <= i < v.push(x).len() && same_path(#[trigger] v.push(x)[i], p);
        if i < v.len() {
            assert(v[i] == v.push(x)[i]);
        }
    }
}

/// A scan has a socket watched at most once: none that a watcher knows, and none
/// twice, however its path is written. Afterwards every socket that a record
/// names is known.
pub proof fn law_socket_is_watched_once(known: Seq<Seq<char>>, entries: Seq<RecordView>)
    requires
        distinct_paths(known),
    ensures
        distinct_paths(to_watch(known, entries).0),
        forall|i: int|
            0 <= i < to_watch(known, entries).1.len() ==> !path_among(
                known,
                (#[trigger] to_watch(known, entries).1[i]).path,
            ),
        forall|i: int, j: int|
            0 <= i < j < to_watch(known, entries).1.len() ==> !same_path(
                (#[trigger] to_watch(known, entries).1[i]).path,
                (#[trigger] to_watch(known, entries).1[j]).path,
            ),
        forall|p: Seq<char>| #[trigger]
            path_among(to_watch(known, entries).0, p) == (path_among(known, p) || exists|i: int|
                0 <= i < to_watch(known, entries).1.len() && same_path(
                    (#[trigger] to_watch(known, entries).1[i]).path,
                    p,
                )),
        forall|i: int|
            0 <= i < entries.len() ==> ((#[trigger] entries[i]).socket matches Some(s) ==> path_among(
                to_watch(known, entries).0,
                s,
            )),
    decreases entries.len(),
{
    if entries.len() > 0 {
        let before = entries.drop_last();
        law_socket_is_watched_once(known, before);
        let (k, fresh) = to_watch(known, before);
        let (k2, fresh2) = to_watch(known, entries);
        assert forall|p: Seq<char>| #[trigger] path_among(k2, p) == (path_among(known, p) || exists|i: int|
            0 <= i < fresh2.len() && same_path((#[trigger] fresh2[i]).path, p)) by {
            match socket_of(entries.last()) {
                Some(s) if !path_among(k, s.path) => {
                    lemma_among_push(k, s.path, p);
                    assert(path_among(k, p) == (path_among(known, p) || exists|i: int|
                        0 <= i < fresh.len() && same_path((#[trigger] fresh[i]).path, p)));
                    if exists|i: int| 0 <= i < fresh.len() && same_path((#[trigger] fresh[i]).path, p) {
                        let i = choose|i: int| 0 <= i < fresh.len() && same_path((#[trigger] fresh[i]).path, p);
                        assert(fresh2[i] == fresh[i]);
                    }
                    if exists|i: int| 0 <= i < fresh2.len() && same_path((#[trigger] fresh2[i]).path, p) {
                        let i = choose|i: int| 0 <= i < fresh2.len() && same_path((#[trigger] fresh2[i]).path, p);
                        if i < fresh.len() {
                            assert(fresh2[i] == fresh[i]);
                        }
                    }
                    if same_path(s.path, p) {
                        assert(fresh2[fresh.len() as int] == s);
                    }
                },
                _ => {},
            }
        }
        assert forall|i: int| 0 <= i < entries.len() implies ((#[trigger] entries[i]).socket matches Some(s)
            ==> path_among(k2, s)) by {
            if let Some(s) = entries[i].socket {
                if i < before.len() {
                    assert(before[i] == entries[i]);
                    assert(path_among(k, s));
                    match socket_of(entries.last()) {
                        Some(x) if !path_among(k, x.path) => {
                            lemma_among_push(k, x.path, s);
                        },
                        _ => {},
                    }
                } else {
                    let x = socket_of(entries.last())->0;
                    assert(x.path == s);
                    if !path_among(k, s) {
                        lemma_among_push(k, s, s);
                    }
                }
            }
        }
        match socket_of(entries.last()) {
            Some(s) if !path_among(k, s.path) => {
                assert forall|i: int, j: int| 0 <= i < j < k2.len() implies !same_path(
                    #[trigger] k2[i],
                    #[trigger] k2[j],
                ) by {
                    if j == k.len() {
                        assert(k[i] == k2[i]);
                    } else {
                        assert(k[i] == k2[i] && k[j] == k2[j]);
                    }
                }
                assert forall|i: int| 0 <= i < fresh2.len() implies !path_among(
                    known,
                    (#[trigger] fresh2[i]).path,
                ) by {
                    if i < fresh.len() {
                        assert(fresh2[i] == fresh[i]);
                    } else {
                        assert(path_among(k, s.path) == (path_among(known, s.path) || exists|i: int|
                            0 <= i < fresh.len() && same_path((#[trigger] fresh[i]).path, s.path)));
                    }
                }
                assert forall|i: int, j: int| 0 <= i < j < fresh2.len() implies !same_path(
                    (#[trigger] fresh2[i]).path,
                    (#[trigger] fresh2[j]).path,
                ) by {
                    if j < fresh.len() {
                        assert(fresh2[i] == fresh[i] && fresh2[j] == fresh[j]);
                    } else {
                        assert(fresh2[i] == fresh[i]);
                        assert(path_among(k, s.path) == (path_among(known, s.path) || exists|i: int|
                            0 <= i < fresh.len() && same_path((#[trigger] fresh[i]).path, s.path)));
                    }
                }
            },
            _ => {},
        }
    }
}

proof fn lemma_filter_keeps(v: Seq<Seq<char>>, keep: spec_fn(Seq<char>) -> bool, p: Seq<char>)
    requires
        path_among(v, p),
        forall|x: Seq<char>| same_path(x, p) ==> #[trigger] keep(x),
    ensures
        path_among(v.filter(keep), p),
    decreases v.len(),
{
    reveal(Seq::filter);
    let i = choose|i: int| 0 <= i < v.len() && same_path(#[trigger] v[i], p);
    if i < v.len() - 1 {
        assert(v.drop_last()[i] == v[i]);
        lemma_filter_keeps(v.drop_last(), keep, p);
        let sub = v.drop_last().filter(keep);
        let j = choose|j: int| 0 <= j < sub.len() && same_path(#[trigger] sub[j], p);
        assert(v.filter(keep)[j] == sub[j]);
    } else {
        assert(keep(v.last()));
        let sub = v.drop_last().filter(keep);
        assert(v.filter(keep)[sub.len() as int] == v.last());
    }
}

/// A session whose socket went dead stays on the board: while its record still
/// names the socket and says how to resume it, the next scan has it among the
/// dormant ones, unless the session came up again.
pub proof fn law_crashed_session_becomes_dormant(
    e: EngineView,
    path: Seq<char>,
    now: u128,
    entries: Seq<RecordView>,
    ages: Seq<Option<u64>>,
    i: int,
)
    requires
        0 <= i < entries.len(),
        entries[i].socket == Some(path),
        entries[i].resume_command is Some,
        !session_live(told(e, UpdateView::Gone(path), now).board.live, entries[i].session_id),
    ensures
        ({
            let t = told(e, UpdateView::Gone(path), now);
            let s = scanned(t, entries, ages, now);
            &&& path_among(s.dead, path)
            &&& is_dormant(entries[i], t.board.live, s.dead)
            &&& s.board == synced(t.board, entries, s.dead)
        }),
{
    let t = told(e, UpdateView::Gone(path), now);
    if !path_among(e.dead, path) {
        lemma_among_push(e.dead, path, path);
    }
    let keep = |p: Seq<char>| named(entries, p);
    assert forall|x: Seq<char>| same_path(x, path) implies #[trigger] keep(x) by {
        assert(same_path(entries[i].socket->0, x));
    }
    lemma_filter_keeps(t.dead, keep, path);
}

/// An agent that announces itself is live again: its socket is not dead.
pub proof fn law_announced_is_not_dead(e: EngineView, a: AgentView, now: u128)
    ensures
        !path_among(told(e, UpdateView::Upsert(a), now).dead, a.socket_path),
{
    lemma_without(e.dead, a.socket_path);
}

/// A watcher that ended may be started again: its socket is not known.
pub proof fn law_gone_may_be_watched_again(e: EngineView, path: Seq<char>, now: u128)
    ensures
        !path_among(told(e, UpdateView::Gone(path), now).known, path),
{
    lemma_without(e.known, path);
}

proof fn lemma_without(v: Seq<Seq<char>>, p: Seq<char>)
    ensures
        !path_among(without(v, p), p),
    decreases v.len(),
{
    reveal(Seq::filter);
    if v.len() > 0 {
        lemma_without(v.drop_last(), p);
        let sub = without(v.drop_last(), p);
        assert forall|i: int| 0 <= i < without(v, p).len() implies !same_path(
            #[trigger] without(v, p)[i],
            p,
        ) by {
            if i < sub.len() {
                assert(without(v, p)[i] == sub[i]);
            }
        }
    }
}

proof fn lemma_changed_at_path(live: Seq<AgentView>, u: UpdateView, now: u128, path: Seq<char>)
    requires
        !(u is Upsert),
        !(u is Gone),
        update_path(u) == path,
    ensures
        at_path(live_after(live, u, now), path) == (match at_path(live, path) {
            Some(a) => Some(changed(a, u, now)),
            None => None,
        }),
    decreases live.len(),
{
    let after = live_after(live, u, now);
    if live.len() > 0 {
        let t = live.drop_first();
        assert(after.drop_first() =~= live_after(t, u, now));
        lemma_changed_at_path(t, u, now, path);
        assert(after[0] == if same_path(live[0].socket_path, path) {
            changed(live[0], u, now)
        } else {
            live[0]
        });
    }
}

/// Each message that a watched agent sends changes on its card what it announces
/// and nothing else, and who the agent is never changes.
pub proof fn law_card_shows_what_a_message_announces(
    e: EngineView,
    w: WatcherView,
    msg: JsonView,
    a: AgentView,
    now: u128,
)
    requires
        w.seeded,
        at_path(e.board.live, w.entry.path) == Some(a),
    ensures
        at_path(told_all(e, heard(w, msg, now).1, now).board.live, w.entry.path) matches Some(b) && {
            &&& b.state == (match state_in(msg) {
                Some(s) => s,
                None => a.state,
            })
            &&& b.model == (match model_in(msg) {
                Some(m) => Some(m),
                None => a.model,
            })
            &&& b.title == (match title_in(msg) {
                Some(t) => t,
                None => a.title,
            })
            &&& b.activity == (match activity_in(msg) {
                Some(t) => Some(t),
                None => a.activity,
            })
            &&& (AgentView {
                state: a.state,
                state_since: a.state_since,
                model: a.model,
                title: a.title,
                activity: a.activity,
                last_activity: a.last_activity,
                ..b
            }) == a
        },
{
    let us = heard(w, msg, now).1;
    let path = w.entry.path;
    crate::watch::lemma_one_announcement(msg);
    reveal_with_fuel(told_all, 3);
    if us.len() == 0 {
    } else {
        assert(us.len() == 1);
        assert(us.drop_last() =~= Seq::empty());
        lemma_changed_at_path(e.board.live, us[0], now, path);
        assert(told_all(e, us, now) == told(e, us[0], now));
    }
}

/// After any messages of a watched agent its card shows the state that it
/// announced last, and the state that it had where it announced none.
pub proof fn law_card_shows_the_last_announced_state(
    e: EngineView,
    w: WatcherView,
    msgs: Seq<JsonView>,
    a: AgentView,
    i: int,
    s: State,
    now: u128,
)
    requires
        w.seeded,
        at_path(e.board.live, w.entry.path) == Some(a),
    ensures
        heard_all(w, msgs, now).0 == w,
        at_path(
            told_all(e, heard_all(w, msgs, now).1, now).board.live,
            w.entry.path,
        ) matches Some(b) && {
            &&& 0 <= i < msgs.len() && state_in(msgs[i]) == Some(s) && (forall|j: int|
                i < j < msgs.len() ==> state_in(#[trigger] msgs[j]) is None) ==> b.state == s
            &&& (forall|j: int| 0 <= j < msgs.len() ==> state_in(#[trigger] msgs[j]) is None)
                ==> b.state == a.state
            &&& b.session_id == a.session_id
        },
    decreases msgs.len(),
{
    if msgs.len() > 0 {
        let t = msgs.drop_last();
        let m = msgs.last();
        law_card_shows_the_last_announced_state(e, w, t, a, i, s, now);
        let (v, sent) = heard_all(w, t, now);
        let f = told_all(e, sent, now);
        let b = at_path(f.board.live, w.entry.path)->0;
        law_card_shows_what_a_message_announces(f, w, m, b, now);
        lemma_told_all_add(e, sent, heard(w, m, now).1, now);
        assert forall|j: int| 0 <= j < t.len() implies t[j] == msgs[j] by {}
        assert(msgs[msgs.len() - 1] == m);
    }
}

proof fn lemma_told_all_add(e: EngineView, p: Seq<UpdateView>, q: Seq<UpdateView>, now: u128)
    ensures
        told_all(e, p + q, now) == told_all(told_all(e, p, now), q, now),
    decreases q.len(),
{
    if q.len() == 0 {
        assert(p + q =~= p);
    } else {
        assert((p + q).drop_last() =~= p + q.drop_last());
        assert((p + q).last() == q.last());
        lemma_told_all_add(e, p, q.drop_last(), now);
    }
}

/// An age is told in the largest unit of which it holds one: whole seconds below
/// a minute, whole minutes below an hour, whole hours below a day, and whole
/// days from there.
pub proof fn law_age_is_told_in_its_largest_unit(seconds: nat, n: nat)
    ensures
        seconds < 60 ==> age_text(seconds) == decimal(seconds) + "s"@,
        1 <= n < 60 && 60 * n <= seconds < 60 * (n + 1) ==> age_text(seconds) == decimal(n) + "m"@,
        1 <= n < 24 && 3600 * n <= seconds < 3600 * (n + 1) ==> age_text(seconds) == decimal(n)
            + "h"@,
        1 <= n && 86400 * n <= seconds < 86400 * (n + 1) ==> age_text(seconds) == decimal(n) + "d"@,
{
}

/// The time since a moment is counted in whole seconds, and a moment that is yet
/// to come is no time ago.
pub proof fn law_time_is_counted_in_whole_seconds(at: u128, now: u128, n: nat)
    ensures
        n <= u64::MAX && at + 1000000000 * n <= now < at + 1000000000 * (n + 1) ==> seconds_since(
            at,
            now,
        ) == n,
        now <= at ==> seconds_since(at, now) == 0,
{
}

/// Each record of a known age has it under its session, and nothing else is
/// there.
pub proof fn law_each_record_has_its_age(
    entries: Seq<RecordView>,
    ages: Seq<Option<u64>>,
    id: Seq<char>,
    text: Seq<char>,
)
    requires
        entries.len() <= ages.len(),
    ensures
        ages_of(entries, ages).contains((id, text)) <==> exists|k: int|
            0 <= k < entries.len() && (#[trigger] entries[k]).session_id == id && ages[k] is Some
                && age_text(ages[k]->0 as nat) == text,
    decreases entries.len(),
{
    if entries.len() > 0 {
        let t = entries.drop_last();
        let p = ages_of(t, ages);
        let r = ages_of(entries, ages);
        let n = entries.len() - 1;
        law_each_record_has_its_age(t, ages, id, text);
        if r.contains((id, text)) {
            let i = choose|i: int| 0 <= i < r.len() && r[i] == (id, text);
            if i < p.len() {
                assert(p[i] == (id, text));
                assert(p.contains((id, text)));
                let k = choose|k: int|
                    0 <= k < t.len() && (#[trigger] t[k]).session_id == id && ages[k] is Some
                        && age_text(ages[k]->0 as nat) == text;
                assert(entries[k] == t[k]);
            } else {
                assert(entries[n].session_id == id);
            }
        }
        if exists|k: int|
            0 <= k < entries.len() && (#[trigger] entries[k]).session_id == id && ages[k] is Some
                && age_text(ages[k]->0 as nat) == text {
            let k = choose|k: int|
                0 <= k < entries.len() && (#[trigger] entries[k]).session_id == id && ages[k] is Some
                    && age_text(ages[k]->0 as nat) == text;
            if k < n {
                assert(t[k] == entries[k]);
                assert(p.contains((id, text)));
                let i = choose|i: int| 0 <= i < p.len() && p[i] == (id, text);
                assert(r[i] == (id, text));
            } else {
                assert(r[p.len() as int] == (id, text));
            }
        }
    }
}

/// A socket that was found dead is remembered as long as a record names it, and
/// forgotten with the last of them; a scan finds none dead.
pub proof fn law_dead_socket_is_remembered_while_it_is_named(
    e: EngineView,
    entries: Seq<RecordView>,
    ages: Seq<Option<u64>>,
    now: u128,
    p: Seq<char>,
)
    ensures
        scanned(e, entries, ages, now).dead.contains(p) <==> e.dead.contains(p) && named(entries, p),
        scanned(e, entries, ages, now).last_scan == Some(now),
{
    let keep = |p: Seq<char>| named(entries, p);
    lemma_kept(e.dead, keep, p);
}

proof fn lemma_kept(v: Seq<Seq<char>>, keep: spec_fn(Seq<char>) -> bool, p: Seq<char>)
    ensures
        v.filter(keep).contains(p) <==> v.contains(p) && keep(p),
{
    let r = v.filter(keep);
    if v.contains(p) && keep(p) {
        let k = choose|k: int| 0 <= k < v.len() && v[k] == p;
        v.lemma_filter_contains(keep, k);
    }
    if r.contains(p) {
        let k = choose|k: int| 0 <= k < r.len() && r[k] == p;
        v.lemma_filter_pred(keep, k);
        v.lemma_filter_contains_rev(keep, p);
    }
}

/// A watcher that ends leaves its socket dead, and tells nothing of any other
/// socket; an agent that announces itself revives its own socket alone. No other
/// update touches what is watched or dead.
pub proof fn law_update_is_about_its_own_socket(
    e: EngineView,
    u: UpdateView,
    now: u128,
    other: Seq<char>,
)
    requires
        !same_path(other, update_path(u)),
    ensures
        u is Gone ==> path_among(told(e, u, now).dead, update_path(u)),
        told(e, u, now).dead.contains(other) == e.dead.contains(other),
        told(e, u, now).known.contains(other) == e.known.contains(other),
        !(u is Gone) ==> told(e, u, now).known == e.known,
        !(u is Gone) && !(u is Upsert) ==> told(e, u, now).dead == e.dead,
        told(e, u, now).dormant_ages == e.dormant_ages,
        told(e, u, now).last_scan == e.last_scan,
        told(e, u, now).board.dormant == e.board.dormant,
        told(e, u, now).board.filter == e.board.filter,
        told(e, u, now).board.sessions == e.board.sessions,
{
    let p = update_path(u);
    let keep = |x: Seq<char>| !same_path(x, p);
    lemma_kept(e.dead, keep, other);
    lemma_kept(e.known, keep, other);
    if u is Gone && !path_among(e.dead, p) {
        lemma_among_push(e.dead, p, p);
        let d = e.dead.push(p);
        assert(d[e.dead.len() as int] == p);
        if d.contains(other) {
            let k = choose|k: int| 0 <= k < d.len() && d[k] == other;
            assert(k < e.dead.len());
            assert(e.dead[k] == other);
        }
        if e.dead.contains(other) {
            let k = choose|k: int| 0 <= k < e.dead.len() && e.dead[k] == other;
            assert(d[k] == other);
        }
    }
}

/// A socket that a scan has watched is one that a record names, with the label
/// and the process of that record.
pub proof fn law_watched_socket_is_that_of_a_record(
    known: Seq<Seq<char>>,
    entries: Seq<RecordView>,
    i: int,
) -> (k: int)
    requires
        0 <= i < to_watch(known, entries).1.len(),
    ensures
        0 <= k < entries.len(),
        socket_of(entries[k]) == Some(to_watch(known, entries).1[i]),
        entries[k].socket == Some(to_watch(known, entries).1[i].path),
    decreases entries.len(),
{
    let t = entries.drop_last();
    let (_, fresh) = to_watch(known, t);
    if i < fresh.len() {
        let k = law_watched_socket_is_that_of_a_record(known, t, i);
        assert(entries[k] == t[k]);
        k
    } else {
        entries.len() - 1
    }
}

/// The registry is scanned at once at the start and whenever it changed, and once
/// a second otherwise.
pub proof fn law_registry_is_scanned_every_second(t: u128, changed: bool, now: u128)
    ensures
        scan_due(None, changed, now),
        scan_due(Some(t), true, now),
        scan_due(Some(t), false, now) <==> now - t >= 1000000000,
        scan_due(Some(now), false, now) == false,
{
}

/// An agent's time in its state runs from when it entered it, and its quiet time
/// from when it was last active, each under the agent's own path and neither by
/// anything else of it.
pub proof fn law_times_run_from_their_own_clocks(live: Seq<AgentView>, now: u128, i: int, n: nat)
    requires
        0 <= i < live.len(),
        n < 60,
    ensures
        state_ages(live, now).len() == live.len(),
        quiet_times(live, now).len() == live.len(),
        state_ages(live, now)[i].0 == live[i].socket_path,
        quiet_times(live, now)[i].0 == live[i].socket_path,
        live[i].state_since + 1000000000 * n <= now < live[i].state_since + 1000000000 * (n + 1)
            ==> state_ages(live, now)[i].1 == decimal(n) + "s"@,
        live[i].last_activity + 1000000000 * n <= now < live[i].last_activity + 1000000000 * (n + 1)
            ==> quiet_times(live, now)[i].1 == decimal(n) + "s"@,
{
    law_time_is_counted_in_whole_seconds(live[i].state_since, now, n);
    law_time_is_counted_in_whole_seconds(live[i].last_activity, now, n);
}

} // verus!
