//! Where corral's files lie: each is an override if one is set, else a fixed
//! name under `.corral` in the home directory. Agents can write below the input
//! directory only; the state directory is the daemon's own.
use vstd::prelude::*;

use crate::launch::opt_str;
use crate::path::{join_path, joined_path};
use crate::text::{has_prefix, opt_text};

verus! {

/// A name under `.corral` in the home directory, or the override.
pub open spec fn place(over: Option<Seq<char>>, home: Option<Seq<char>>, name: Seq<char>) -> Option<Seq<char>> {
    match (over, home) {
        (Some(v), _) => Some(v),
        (None, Some(h)) => Some(joined_path(joined_path(h, ".corral"@), name)),
        (None, None) => None,
    }
}

/// A name below a directory, or the override.
pub open spec fn below(over: Option<Seq<char>>, dir: Option<Seq<char>>, name: Seq<char>) -> Option<Seq<char>> {
    match (over, dir) {
        (Some(v), _) => Some(v),
        (None, Some(d)) => Some(joined_path(d, name)),
        (None, None) => None,
    }
}

/// A place of corral's: the override where one is set, else `name` under
/// `.corral` in the home directory; nothing where neither is known.
pub fn corral_path(over: Option<&str>, home: Option<&str>, name: &str) -> (r: Option<String>)
    ensures
        opt_text(r) == place(opt_str(over), opt_str(home), name@),
{
    match over {
        Some(v) => Some(v.to_owned()),
        None => match home {
            Some(h) => {
                let c = join_path(h, ".corral");
                Some(join_path(c.as_str(), name))
            },
            None => None,
        },
    }
}

fn path_below(over: Option<&str>, dir: &Option<String>, name: &str) -> (r: Option<String>)
    ensures
        opt_text(r) == below(opt_str(over), opt_text(*dir), name@),
{
    match over {
        Some(v) => Some(v.to_owned()),
        None => match dir {
            Some(d) => Some(join_path(d.as_str(), name)),
            None => None,
        },
    }
}

/// What the environment says of corral's places.
pub struct Env<'a> {
    pub home: Option<&'a str>,
    pub input_dir: Option<&'a str>,
    pub input_registry: Option<&'a str>,
    pub state_dir: Option<&'a str>,
    pub state_registry: Option<&'a str>,
    pub audit_log: Option<&'a str>,
    pub control_socket: Option<&'a str>,
    pub whitelist: Option<&'a str>,
    pub approved_commands: Option<&'a str>,
}

impl<'a> Env<'a> {
    pub open spec fn input(&self) -> Option<Seq<char>> {
        place(opt_str(self.input_dir), opt_str(self.home), "input"@)
    }

    pub open spec fn state(&self) -> Option<Seq<char>> {
        place(opt_str(self.state_dir), opt_str(self.home), "state"@)
    }

    pub open spec fn input_records(&self) -> Option<Seq<char>> {
        below(opt_str(self.input_registry), self.input(), "registry"@)
    }

    pub open spec fn state_records(&self) -> Option<Seq<char>> {
        below(opt_str(self.state_registry), self.state(), "registry"@)
    }

    pub open spec fn log(&self) -> Option<Seq<char>> {
        below(opt_str(self.audit_log), self.state(), "audit.log"@)
    }

    pub open spec fn socket(&self) -> Option<Seq<char>> {
        place(opt_str(self.control_socket), opt_str(self.home), "corrald.sock"@)
    }

    pub open spec fn pairs(&self) -> Option<Seq<char>> {
        below(opt_str(self.whitelist), self.state(), "whitelist"@)
    }

    pub open spec fn register(&self) -> Option<Seq<char>> {
        below(opt_str(self.approved_commands), self.state(), "approved-commands.json"@)
    }

    /// The directory that agents can write in.
    pub fn input_dir(&self) -> (r: Option<String>)
        ensures
            opt_text(r) == self.input(),
    {
        corral_path(self.input_dir, self.home, "input")
    }

    /// The pointer files of the announcing sessions.
    pub fn input_registry_dir(&self) -> (r: Option<String>)
        ensures
            opt_text(r) == below(opt_str(self.input_registry), self.input(), "registry"@),
            opt_text(r) == self.input_records(),
    {
        let d = self.input_dir();
        path_below(self.input_registry, &d, "registry")
    }

    /// The daemon's own directory.
    pub fn state_dir(&self) -> (r: Option<String>)
        ensures
            opt_text(r) == self.state(),
    {
        corral_path(self.state_dir, self.home, "state")
    }

    /// The vetted records.
    pub fn state_registry_dir(&self) -> (r: Option<String>)
        ensures
            opt_text(r) == below(opt_str(self.state_registry), self.state(), "registry"@),
            opt_text(r) == self.state_records(),
    {
        let d = self.state_dir();
        path_below(self.state_registry, &d, "registry")
    }

    /// The audit log.
    pub fn audit_log(&self) -> (r: Option<String>)
        ensures
            opt_text(r) == below(opt_str(self.audit_log), self.state(), "audit.log"@),
            opt_text(r) == self.log(),
    {
        let d = self.state_dir();
        path_below(self.audit_log, &d, "audit.log")
    }

    /// The daemon's socket, at the root and not where agents can write.
    pub fn control_socket(&self) -> (r: Option<String>)
        ensures
            opt_text(r) == place(opt_str(self.control_socket), opt_str(self.home), "corrald.sock"@),
            opt_text(r) == self.socket(),
    {
        corral_path(self.control_socket, self.home, "corrald.sock")
    }

    /// The authorized pairs.
    pub fn whitelist_file(&self) -> (r: Option<String>)
        ensures
            opt_text(r) == below(opt_str(self.whitelist), self.state(), "whitelist"@),
            opt_text(r) == self.pairs(),
    {
        let d = self.state_dir();
        path_below(self.whitelist, &d, "whitelist")
    }

    /// The store of registered launch commands.
    pub fn approved_commands_file(&self) -> (r: Option<String>)
        ensures
            opt_text(r) == below(
                opt_str(self.approved_commands),
                self.state(),
                "approved-commands.json"@,
            ),
            opt_text(r) == self.register(),
    {
        let d = self.state_dir();
        path_below(self.approved_commands, &d, "approved-commands.json")
    }
}

/// A place lies outside a directory: it is neither the directory nor below it.
pub open spec fn outside(place: Option<Seq<char>>, dir: Option<Seq<char>>) -> bool {
    place matches Some(p) && dir matches Some(d) && p != d && !has_prefix(p, d + "/"@)
}

/// Without overrides, the whitelist, the store, the vetted records and the audit
/// log lie below the daemon's own directory, and none of them, nor the socket,
/// lies where agents can write.
pub proof fn law_sealed_places_are_outside_input(home: Seq<char>)
    ensures
        ({
            let h = Some(home);
            let root = joined_path(home, ".corral"@) + "/"@;
            let input = place(None, h, "input"@);
            let state = place(None, h, "state"@);
            let socket = place(None, h, "corrald.sock"@);
            let whitelist = below(None, state, "whitelist"@);
            let store = below(None, state, "approved-commands.json"@);
            let registry = below(None, state, "registry"@);
            let log = below(None, state, "audit.log"@);
            &&& input == Some(root + "input"@)
            &&& state == Some(root + "state"@)
            &&& socket == Some(root + "corrald.sock"@)
            &&& whitelist == Some(root + "state/whitelist"@)
            &&& store == Some(root + "state/approved-commands.json"@)
            &&& registry == Some(root + "state/registry"@)
            &&& log == Some(root + "state/audit.log"@)
            &&& below(None, input, "registry"@) == Some(root + "input/registry"@)
            &&& outside(state, input) && outside(socket, input) && outside(whitelist, input)
            &&& outside(store, input) && outside(registry, input) && outside(log, input)
        }),
{
    reveal_strlit("/");
    reveal_strlit(".corral");
    reveal_strlit("input");
    reveal_strlit("state");
    reveal_strlit("registry");
    reveal_strlit("audit.log");
    reveal_strlit("corrald.sock");
    reveal_strlit("whitelist");
    reveal_strlit("approved-commands.json");
    reveal_strlit("state/whitelist");
    reveal_strlit("state/approved-commands.json");
    reveal_strlit("state/registry");
    reveal_strlit("state/audit.log");
    reveal_strlit("input/registry");
    let base = joined_path(home, ".corral"@);
    let root = base + "/"@;
    assert(base.last() == 'l');
    assert(joined_path(base, "input"@) =~= root + "input"@);
    assert(joined_path(base, "state"@) =~= root + "state"@);
    assert(joined_path(base, "corrald.sock"@) =~= root + "corrald.sock"@);
    assert(joined_path(root + "state"@, "whitelist"@) =~= root + "state/whitelist"@);
    assert(joined_path(root + "state"@, "approved-commands.json"@) =~= root
        + "state/approved-commands.json"@);
    assert(joined_path(root + "state"@, "registry"@) =~= root + "state/registry"@);
    assert(joined_path(root + "state"@, "audit.log"@) =~= root + "state/audit.log"@);
    assert(joined_path(root + "input"@, "registry"@) =~= root + "input/registry"@);
    lemma_other_first(root, "input"@, "state"@);
    lemma_other_first(root, "input"@, "corrald.sock"@);
    lemma_other_first(root, "input"@, "state/whitelist"@);
    lemma_other_first(root, "input"@, "state/approved-commands.json"@);
    lemma_other_first(root, "input"@, "state/registry"@);
    lemma_other_first(root, "input"@, "state/audit.log"@);
}

/// Names that begin with different letters lie apart.
proof fn lemma_other_first(root: Seq<char>, a: Seq<char>, b: Seq<char>)
    requires
        a.len() > 0,
        b.len() > 0,
        a[0] != b[0],
    ensures
        outside(Some(root + b), Some(root + a)),
{
    let d = root + a + "/"@;
    let p = root + b;
    assert(p[root.len() as int] == b[0]);
    assert((root + a)[root.len() as int] == a[0]);
    if has_prefix(p, d) {
        assert(p.subrange(0, d.len() as int)[root.len() as int] == d[root.len() as int]);
    }
}

/// What the operator sets a place to is where it is, whatever else is set; without
/// that it lies under the home directory, and without either it is nowhere.
pub proof fn law_set_place_wins(
    v: Seq<char>,
    home: Option<Seq<char>>,
    dir: Option<Seq<char>>,
    name: Seq<char>,
)
    ensures
        place(Some(v), home, name) == Some(v),
        below(Some(v), dir, name) == Some(v),
        place(None, None, name) is None,
        below(None, None, name) is None,
        home matches Some(h) ==> place(None, home, name) == Some(
            joined_path(joined_path(h, ".corral"@), name),
        ),
        dir matches Some(d) ==> below(None, dir, name) == Some(joined_path(d, name)),
{
}

/// Where nothing is set but the home directory, everything has a place of its own
/// under it, and what the daemon alone writes lies where agents cannot; each
/// place that is set is there and moves no other.
pub proof fn law_each_place_is_its_own(e: Env, home: &str, set: &str)
    requires
        e.home == Some(home),
    ensures
        ({
            let root = joined_path(home@, ".corral"@) + "/"@;
            &&& e.input_dir is None ==> e.input() == Some(root + "input"@)
            &&& e.state_dir is None ==> {
                &&& e.state() == Some(root + "state"@)
                &&& e.state_registry is None ==> e.state_records() == Some(root + "state/registry"@)
                &&& e.audit_log is None ==> e.log() == Some(root + "state/audit.log"@)
                &&& e.whitelist is None ==> e.pairs() == Some(root + "state/whitelist"@)
                &&& e.approved_commands is None ==> e.register() == Some(
                    root + "state/approved-commands.json"@,
                )
            }
            &&& e.input_dir is None && e.input_registry is None ==> e.input_records() == Some(
                root + "input/registry"@,
            )
            &&& e.control_socket is None ==> e.socket() == Some(root + "corrald.sock"@)
        }),
        e.input_dir == Some(set) ==> e.input() == Some(set@),
        e.state_dir == Some(set) ==> e.state() == Some(set@),
        e.input_registry == Some(set) ==> e.input_records() == Some(set@),
        e.state_registry == Some(set) ==> e.state_records() == Some(set@),
        e.audit_log == Some(set) ==> e.log() == Some(set@),
        e.control_socket == Some(set) ==> e.socket() == Some(set@),
        e.whitelist == Some(set) ==> e.pairs() == Some(set@),
        e.approved_commands == Some(set) ==> e.register() == Some(set@),
{
    law_sealed_places_are_outside_input(home@);
}

} // verus!
