//! Finding an agent's window: the parent walk from a process to the terminal
//! that owns its window, and the search for that terminal in a window tree.
use vstd::prelude::*;

use crate::json::{json_read, json_views, read, Json, JsonView};
use crate::launch::{outcome, ran_view, run_outcome, run_report};
use crate::model::Agent;
use crate::text::{
    cat, cat3, chars_of, decimal, find_last, last_index, lemma_last_index, parse_u32, parsed_number, signed,
    split_whitespace, string_of, texts, to_decimal, to_signed, words,
};

verus! {

/// What raises and closes agent windows.
pub trait WindowFocuser {
    /// Raises the agent's window.
    fn focus(&self, agent: &Agent) -> Result<(), String>;

    /// Closes the agent's window, which ends its session.
    fn close(&self, agent: &Agent) -> Result<(), String>;
}

/// The kinds of display session an agent window can live in.
#[derive(Debug, Clone, Copy, PartialEq, Eq, Structural)]
pub enum Display {
    X11,
    Sway,
}

/// Picks the display to speak to, by which displays the environment names: X11
/// only where there is no Wayland session.
pub fn detect(wayland: bool, x11: bool) -> (r: Display)
    ensures
        r == (if !wayland && x11 {
            Display::X11
        } else {
            Display::Sway
        }),
        r == display_of(wayland, x11),
{
    if !wayland && x11 {
        Display::X11
    } else {
        Display::Sway
    }
}

/// The parent's pid in the text of a process's `stat` file: the second word
/// behind the last closing bracket, since the command's name may hold spaces and
/// brackets of its own.
pub open spec fn ppid_in(stat: Seq<char>) -> Option<nat> {
    match last_index(stat, ')') {
        None => None,
        Some(i) => {
            let w = words(stat.subrange(i + 1, stat.len() as int));
            if w.len() > 1 {
                parsed_number(w[1], u32::MAX as nat)
            } else {
                None
            }
        },
    }
}

/// The parent's pid in the text of a process's `stat` file.
pub fn ppid_of(stat: &str) -> (r: Option<u32>)
    ensures
        match r {
            Some(p) => ppid_in(stat@) == Some(p as nat),
            None => ppid_in(stat@) is None,
        },
{
    let x = chars_of(stat);
    match find_last(&x, ')') {
        None => None,
        Some(i) => {
            let tail = string_of(&x, i + 1, x.len());
            let w = split_whitespace(tail.as_str());
            if w.len() > 1 {
                assert(texts(w@)[1] == w@[1]@);
                parse_u32(w[1].as_str())
            } else {
                assert(texts(w@).len() == w@.len());
                None
            }
        },
    }
}

fn has_pid(v: &Vec<u32>, pid: u32) -> (r: bool)
    ensures
        r == v@.contains(pid),
{
    let mut i: usize = 0;
    while i < v.len()
        invariant
            i <= v@.len(),
            forall|k: int| 0 <= k < i ==> v@[k] != pid,
        decreases v@.len() - i,
    {
        if v[i] == pid {
            assert(v@[i as int] == pid);
            return true;
        }
        i = i + 1;
    }
    false
}

proof fn lemma_chain_bounded(chain: Seq<u32>)
    requires
        chain.no_duplicates(),
    ensures
        chain.len() <= 0x1_0000_0000,
{
    let as_ints = chain.map_values(|x: u32| x as int);
    let bound = vstd::set_lib::set_int_range(0, 0x1_0000_0000);
    vstd::set_lib::lemma_int_range(0, 0x1_0000_0000);
    as_ints.unique_seq_to_set();
    assert(as_ints.no_duplicates()) by {
        assert forall|i: int, j: int| 0 <= i < as_ints.len() && 0 <= j < as_ints.len() && i != j implies as_ints[i]
            != as_ints[j] by {
            assert(chain[i] != chain[j]);
        }
    }
    as_ints.unique_seq_to_set();
    assert(as_ints.to_set().subset_of(bound)) by {
        assert forall|x: int| as_ints.to_set().contains(x) implies bound.contains(x) by {
            let i = choose|i: int| 0 <= i < as_ints.len() && as_ints[i] == x;
            assert(as_ints[i] == chain[i] as int);
        }
    }
    vstd::set_lib::lemma_len_subset(as_ints.to_set(), bound);
}

/// A pid and its ancestors, by a lookup of parents. The walk stops at the first
/// process, where the lookup gives nothing, and at a pid that it has met.
pub fn ancestor_pids<F: Fn(u32) -> Option<u32>>(start: u32, parent_of: &F) -> (r: Vec<u32>)
    requires
        forall|p: u32| #[trigger] call_requires(*parent_of, (p,)),
    ensures
        start > 1 ==> r@.len() > 0,
        start <= 1 ==> r@.len() == 0,
        r@.len() > 0 ==> r@[0] == start,
        r@.no_duplicates(),
        forall|i: int| 0 <= i < r@.len() ==> #[trigger] r@[i] > 1,
        forall|i: int|
            #![trigger r@[i]]
            0 < i < r@.len() ==> call_ensures(*parent_of, (r@[i - 1],), Some(r@[i])),
        r@.len() > 0 ==> exists|end: Option<u32>|
            {
                &&& #[trigger] call_ensures(*parent_of, (r@.last(),), end)
                &&& (end matches Some(p) ==> p <= 1 || r@.contains(p))
            },
{
    let mut v: Vec<u32> = Vec::new();
    if start <= 1 {
        return v;
    }
    v.push(start);
    loop
        invariant
            v@.len() > 0,
            v@[0] == start,
            v@.no_duplicates(),
            forall|i: int| 0 <= i < v@.len() ==> #[trigger] v@[i] > 1,
            forall|i: int|
                #![trigger v@[i]]
                0 < i < v@.len() ==> call_ensures(*parent_of, (v@[i - 1],), Some(v@[i])),
            forall|p: u32| #[trigger] call_requires(*parent_of, (p,)),
        decreases 0x1_0000_0000 - v@.len(),
    {
        let last: u32 = v[v.len() - 1];
        let up = parent_of(last);
        assert(call_ensures(*parent_of, (v@.last(),), up));
        match up {
            None => {
                return v;
            },
            Some(p) => {
                if p <= 1 || has_pid(&v, p) {
                    return v;
                }
                let ghost was = v@;
                v.push(p);
                proof {
                    lemma_chain_bounded(v@);
                    assert forall|i: int|
                        #![trigger v@[i]]
                        0 < i < v@.len() implies call_ensures(*parent_of, (v@[i - 1],), Some(v@[i])) by {
                        if i < was.len() {
                            assert(was[i] == v@[i]);
                        }
                    }
                }
            },
        }
    }
}

/// Where a window stands in the tree: its container and its process.
pub open spec fn window_here(node: JsonView, pids: Seq<u32>) -> Option<(int, u32)> {
    match node.u64_at("pid"@) {
        None => None,
        Some(p) => {
            let pid = (p % 0x1_0000_0000) as u32;
            if pids.contains(pid) {
                match node.i64_at("id"@) {
                    Some(id) => Some((id, pid)),
                    None => None,
                }
            } else {
                None
            }
        },
    }
}

/// The children of a node under a key.
pub open spec fn children(node: JsonView, key: Seq<char>) -> Seq<JsonView> {
    match node.get(key) {
        Some(c) => match c.array() {
            Some(a) => a,
            None => Seq::empty(),
        },
        None => Seq::empty(),
    }
}

proof fn lemma_children_smaller(node: JsonView, key: Seq<char>)
    ensures
        children(node, key).len() > 0 ==> decreases_to!(node => children(node, key)),
{
    if children(node, key).len() > 0 {
        let m = node->Object_0;
        assert(decreases_to!(node => node->Object_0[key]));
        assert(decreases_to!(m[key] => m[key]->Array_0));
    }
}

/// The first window of the tree whose process is among `pids`: a node comes
/// before its children, and tiled children before floating ones.
pub open spec fn window_in(node: JsonView, pids: Seq<u32>) -> Option<(int, u32)>
    decreases node, 0int,
    via window_in_decreases
{
    match window_here(node, pids) {
        Some(w) => Some(w),
        None => {
            let tiled = children(node, "nodes"@);
            let floating = children(node, "floating_nodes"@);
            let first = if tiled.len() > 0 {
                first_window(tiled, pids)
            } else {
                None
            };
            match first {
                Some(w) => Some(w),
                None => if floating.len() > 0 {
                    first_window(floating, pids)
                } else {
                    None
                },
            }
        },
    }
}

/// The first window in a list of nodes.
pub open spec fn first_window(nodes: Seq<JsonView>, pids: Seq<u32>) -> Option<(int, u32)>
    decreases nodes, 1int,
{
    if nodes.len() == 0 {
        None
    } else {
        match window_in(nodes[0], pids) {
            Some(w) => Some(w),
            None => first_window(nodes.drop_first(), pids),
        }
    }
}

#[via_fn]
proof fn window_in_decreases(node: JsonView, pids: Seq<u32>) {
    lemma_children_smaller(node, "nodes"@);
    lemma_children_smaller(node, "floating_nodes"@);
}

proof fn lemma_window_in(node: JsonView, pids: Seq<u32>)
    ensures
        window_in(node, pids) == (match window_here(node, pids) {
            Some(w) => Some(w),
            None => match first_window(children(node, "nodes"@), pids) {
                Some(w) => Some(w),
                None => first_window(children(node, "floating_nodes"@), pids),
            },
        }),
{
    reveal_with_fuel(window_in, 2);
    reveal_with_fuel(first_window, 2);
}

/// The first window of the tree whose process is among `pids`: its container's
/// id and that process.
pub fn find_window(node: &Json, pids: &Vec<u32>) -> (r: Option<(i64, u32)>)
    ensures
        match r {
            Some(w) => window_in(node@, pids@) == Some((w.0 as int, w.1)),
            None => window_in(node@, pids@) is None,
        },
    decreases *node, 0int,
{
    proof {
        lemma_window_in(node@, pids@);
    }
    match node.u64_at("pid") {
        Some(p) => {
            let pid: u32 = (p % 0x1_0000_0000) as u32;
            if has_pid(pids, pid) {
                match node.i64_at("id") {
                    Some(id) => {
                        return Some((id, pid));
                    },
                    None => {},
                }
            }
        },
        None => {},
    }
    match node.get("nodes") {
        Some(c) => match c.as_array() {
            Some(a) => match find_among(a, pids) {
                Some(w) => {
                    return Some(w);
                },
                None => {},
            },
            None => {},
        },
        None => {},
    }
    match node.get("floating_nodes") {
        Some(c) => match c.as_array() {
            Some(a) => find_among(a, pids),
            None => None,
        },
        None => None,
    }
}

fn find_among(nodes: &Vec<Json>, pids: &Vec<u32>) -> (r: Option<(i64, u32)>)
    ensures
        match r {
            Some(w) => first_window(json_views(nodes@), pids@) == Some((w.0 as int, w.1)),
            None => first_window(json_views(nodes@), pids@) is None,
        },
    decreases *nodes, 1int,
{
    let ghost all = json_views(nodes@);
    let mut i: usize = 0;
    assert(all.skip(0) =~= all);
    while i < nodes.len()
        invariant
            i <= nodes@.len(),
            all == json_views(nodes@),
            first_window(all, pids@) == first_window(all.skip(i as int), pids@),
        decreases nodes@.len() - i,
    {
        assert(all.skip(i as int).drop_first() =~= all.skip(i + 1));
        assert(all.skip(i as int)[0] == nodes@[i as int]@);
        match find_window(&nodes[i], pids) {
            Some(w) => {
                return Some(w);
            },
            None => {},
        }
        i = i + 1;
    }
    None
}

/// What is found of an agent's window in the text of a window tree.
pub open spec fn window_in_text(tree: Seq<char>, pids: Seq<u32>, pid: u32) -> Result<(int, u32), Seq<char>> {
    match json_read(tree) {
        Err(e) => Err("bad sway tree json: "@ + e),
        Ok(v) => match window_in(v, pids) {
            Some(w) => Ok(w),
            None => Err("no sway window found for pid "@ + decimal(pid as nat)),
        },
    }
}

/// Where an agent's window stands in the text of a window tree, given the pids
/// of the agent and its ancestors: its container's id and its process.
pub fn window(tree: &str, pids: &Vec<u32>, pid: u32) -> (r: Result<(i64, u32), String>)
    ensures
        match r {
            Ok(w) => window_in_text(tree@, pids@, pid) == Ok::<(int, u32), Seq<char>>((w.0 as int, w.1)),
            Err(e) => window_in_text(tree@, pids@, pid) == Err::<(int, u32), Seq<char>>(e@),
        },
{
    match read(tree) {
        Err(e) => Err(cat("bad sway tree json: ", e.as_str())),
        Ok(v) => match find_window(&v, pids) {
            Some(w) => Ok(w),
            None => {
                let n = to_decimal(pid as u64);
                Err(cat("no sway window found for pid ", n.as_str()))
            },
        },
    }
}

/// The command that raises a container.
pub fn focus_command(con_id: i64) -> (r: String)
    ensures
        r@ == "[con_id="@ + signed(con_id as int) + "] focus"@,
{
    let n = to_signed(con_id);
    cat3("[con_id=", n.as_str(), "] focus")
}

/// The report of a command that was to raise a window.
pub fn focus_report(ran: &Result<bool, String>) -> (r: Result<(), String>)
    ensures
        outcome(r) == run_outcome(
            ran_view(*ran),
            "swaymsg failed: "@,
            "swaymsg focus returned non-zero"@,
        ),
{
    run_report(ran, "swaymsg failed: ", "swaymsg focus returned non-zero")
}

/// A lookup of a window's process told whether it is one of the given ones.
pub open spec fn owned<F: Fn(u32) -> Option<u32>>(pid_of: &F, window: u32, pids: Seq<u32>, one: bool) -> bool {
    exists|p: Option<u32>| #[trigger]
        call_ensures(*pid_of, (window,), p) && one == (p matches Some(x) && pids.contains(x))
}

/// The first of the client windows whose process is the agent or one of its
/// ancestors, by a lookup of the windows' processes.
pub fn client_window<F: Fn(u32) -> Option<u32>>(
    windows: &Vec<u32>,
    pids: &Vec<u32>,
    pid: u32,
    pid_of: &F,
) -> (r: Result<u32, String>)
    requires
        forall|w: u32| #[trigger] call_requires(*pid_of, (w,)),
    ensures
        match r {
            Ok(w) => exists|i: int|
                {
                    &&& 0 <= i < windows@.len()
                    &&& #[trigger] windows@[i] == w
                    &&& owned(pid_of, w, pids@, true)
                    &&& forall|j: int| 0 <= j < i ==> owned(pid_of, #[trigger] windows@[j], pids@, false)
                },
            Err(e) => {
                &&& e@ == "no x11 window found for pid "@ + decimal(pid as nat)
                &&& forall|j: int|
                    0 <= j < windows@.len() ==> owned(pid_of, #[trigger] windows@[j], pids@, false)
            },
        },
{
    let mut i: usize = 0;
    while i < windows.len()
        invariant
            i <= windows@.len(),
            forall|w: u32| #[trigger] call_requires(*pid_of, (w,)),
            forall|j: int| 0 <= j < i ==> owned(pid_of, #[trigger] windows@[j], pids@, false),
        decreases windows@.len() - i,
    {
        let w: u32 = windows[i];
        let found = pid_of(w);
        let ours = match found {
            Some(p) => has_pid(pids, p),
            None => false,
        };
        assert(owned(pid_of, w, pids@, ours));
        if ours {
            assert(windows@[i as int] == w);
            return Ok(w);
        }
        i = i + 1;
    }
    Err(cat("no x11 window found for pid ", to_decimal(pid as u64).as_str()))
}

/// A node is a window that is looked for exactly where it has an id and its
/// process is one of those named.
pub proof fn law_window_is_known_by_its_process(node: JsonView, pids: Seq<u32>, id: int, pid: u32)
    requires
        i64::MIN <= id <= i64::MAX,
    ensures
        node.get("pid"@) == Some(JsonView::Int(pid as int)) && node.get("id"@) == Some(
            JsonView::Int(id),
        ) && pids.contains(pid) ==> window_in(node, pids) == Some((id, pid)),
        window_here(node, pids) matches Some(w) ==> pids.contains(w.1) && node.get("id"@) == Some(
            JsonView::Int(w.0),
        ),
        node.get("pid"@) == Some(JsonView::Int(pid as int)) && !pids.contains(pid) ==> window_here(
            node,
            pids,
        ) is None,
        node.get("pid"@) is None ==> window_here(node, pids) is None,
{
    lemma_window_in(node, pids);
    assert((pid as int) % 0x1_0000_0000 == pid as int) by (nonlinear_arith)
        requires
            0 <= pid as int <= 0xffff_ffff,
    ;
}

/// The window that is found belongs to one of the processes that were named.
pub proof fn law_found_window_is_of_a_named_process(node: JsonView, pids: Seq<u32>)
    ensures
        window_in(node, pids) matches Some(w) ==> pids.contains(w.1),
    decreases node, 0int,
{
    lemma_window_in(node, pids);
    lemma_children_smaller(node, "nodes"@);
    lemma_children_smaller(node, "floating_nodes"@);
    if children(node, "nodes"@).len() > 0 {
        lemma_first_window_named(children(node, "nodes"@), pids);
    }
    if children(node, "floating_nodes"@).len() > 0 {
        lemma_first_window_named(children(node, "floating_nodes"@), pids);
    }
}

proof fn lemma_first_window_named(nodes: Seq<JsonView>, pids: Seq<u32>)
    ensures
        first_window(nodes, pids) matches Some(w) ==> pids.contains(w.1),
    decreases nodes, 1int,
{
    if nodes.len() > 0 {
        law_found_window_is_of_a_named_process(nodes[0], pids);
        lemma_first_window_named(nodes.drop_first(), pids);
    }
}

/// A window that is looked for is found wherever it stands: a node's own before
/// those below it, those below it in their order, tiled before floating, and
/// none is found only where there is none.
pub proof fn law_windows_are_sought_in_order(node: JsonView, nodes: Seq<JsonView>, pids: Seq<u32>, k: int)
    ensures
        window_here(node, pids) is Some ==> window_in(node, pids) == window_here(node, pids),
        window_here(node, pids) is None && first_window(children(node, "nodes"@), pids) is Some
            ==> window_in(node, pids) == first_window(children(node, "nodes"@), pids),
        window_here(node, pids) is None && first_window(children(node, "nodes"@), pids) is None
            ==> window_in(node, pids) == first_window(children(node, "floating_nodes"@), pids),
        0 <= k < nodes.len() && window_in(nodes[k], pids) is Some && (forall|i: int|
            0 <= i < k ==> window_in(#[trigger] nodes[i], pids) is None) ==> first_window(nodes, pids)
            == window_in(nodes[k], pids),
        (forall|i: int| 0 <= i < nodes.len() ==> window_in(#[trigger] nodes[i], pids) is None)
            ==> first_window(nodes, pids) is None,
    decreases nodes.len(),
{
    lemma_window_in(node, pids);
    if nodes.len() > 0 {
        let t = nodes.drop_first();
        assert forall|i: int| 0 <= i < t.len() implies t[i] == nodes[i + 1] by {}
        law_windows_are_sought_in_order(node, t, pids, k - 1);
        if 0 < k < nodes.len() {
            assert(t[k - 1] == nodes[k]);
        }
    }
}

/// The parent of a process is the second word behind its name, whatever the name
/// holds: brackets and blanks in it do not matter.
pub proof fn law_parent_stands_behind_the_name(name: Seq<char>, rest: Seq<char>)
    requires
        !rest.contains(')'),
    ensures
        words(rest).len() > 1 ==> ppid_in(name.push(')') + rest) == parsed_number(
            words(rest)[1],
            u32::MAX as nat,
        ),
        words(rest).len() <= 1 ==> ppid_in(name.push(')') + rest) is None,
{
    let s = name.push(')') + rest;
    assert forall|j: int| name.len() < j < s.len() implies s[j] != ')' by {
        assert(s[j] == rest[j - name.len() - 1]);
        assert(rest.contains(rest[j - name.len() - 1]));
    }
    lemma_last_index(s, ')', name.len() as int);
    assert(s.subrange(name.len() + 1int, s.len() as int) =~= rest);
}

/// The display that windows are on.
pub open spec fn display_of(wayland: bool, x11: bool) -> Display {
    if !wayland && x11 {
        Display::X11
    } else {
        Display::Sway
    }
}

/// Windows are sought on X11 exactly where it is there and Wayland is not: under
/// Wayland an X11 display is only an emulation.
pub proof fn law_wayland_comes_first(wayland: bool, x11: bool)
    ensures
        display_of(true, x11) == Display::Sway,
        display_of(false, true) == Display::X11,
        display_of(false, false) == Display::Sway,
{
}

/// A window is found in a tree exactly where the tree can be read and holds one;
/// what cannot be read is said to be so, in the reader's words.
pub proof fn law_window_is_found_in_a_readable_tree(tree: Seq<char>, pids: Seq<u32>, pid: u32)
    ensures
        json_read(tree) matches Ok(v) ==> {
            &&& window_in(v, pids) matches Some(w) ==> (window_in_text(tree, pids, pid) matches Ok(x) && x
                == w)
            &&& window_in(v, pids) is None ==> (window_in_text(tree, pids, pid) matches Err(e) && e
                == "no sway window found for pid "@ + decimal(pid as nat))
        },
        json_read(tree) matches Err(e) ==> (window_in_text(tree, pids, pid) matches Err(x) && x
            == "bad sway tree json: "@ + e),
{
}

} // verus!
