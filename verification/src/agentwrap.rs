//! The wrapper that runs an agent and puts its standard streams on a socket: its
//! arguments, the name of its socket, and the pump that carries the agent's
//! output to whoever is connected.
use vstd::prelude::*;

use crate::discovery::{law_socket_name_round_trip, socket_name};
use crate::launch::opt_str;
use crate::path::{file_name, join_path, joined_path, path_name};
use crate::text::{
    cat, cat3, chars_of, decimal, is_letter_or_digit, letter_or_digit, opt_text, same, string_of, texts,
    to_decimal, trim, trimmed,
};

verus! {

/// What is printed where the arguments name no command.
pub const USAGE: &'static str = "usage: agentwrap [--name <label>] [--] <command> [args...]\nRuns <command> (an ACP-mode agent speaking JSON-RPC on stdio) and exposes\nits stdio on $XDG_RUNTIME_DIR/acp/<label>-<pid>.sock";

/// What the arguments ask for.
#[derive(Debug, PartialEq, Eq)]
pub struct Config {
    pub label: Option<String>,
    pub command: Vec<String>,
}

#[verifier::ext_equal]
pub struct ConfigView {
    pub label: Option<Seq<char>>,
    pub command: Seq<Seq<char>>,
}

impl View for Config {
    type V = ConfigView;

    open spec fn view(&self) -> ConfigView {
        ConfigView { label: opt_text(self.label), command: texts(self.command@) }
    }
}

/// A command, which must not be empty.
pub open spec fn config_of(label: Option<Seq<char>>, command: Seq<Seq<char>>) -> Result<ConfigView, Seq<char>> {
    if command.len() == 0 {
        Err(USAGE@)
    } else {
        Ok(ConfigView { label, command })
    }
}

/// What arguments ask for, given the label that earlier ones gave: options come
/// first, and the first argument that is none, or the one behind `--`, begins
/// the command.
pub open spec fn parsed_args(args: Seq<Seq<char>>, label: Option<Seq<char>>) -> Result<ConfigView, Seq<char>>
    decreases args.len(),
{
    if args.len() == 0 {
        Err(USAGE@)
    } else if args[0] == "--name"@ || args[0] == "-n"@ {
        if args.len() == 1 {
            Err("--name requires a value"@)
        } else {
            parsed_args(args.skip(2), Some(args[1]))
        }
    } else if args[0] == "--"@ {
        config_of(label, args.skip(1))
    } else if args[0] == "--help"@ || args[0] == "-h"@ {
        Err(USAGE@)
    } else {
        config_of(label, args)
    }
}

fn rest_of(args: &Vec<String>, from: usize) -> (r: Vec<String>)
    requires
        from <= args@.len(),
    ensures
        texts(r@) == texts(args@).skip(from as int),
{
    let mut out: Vec<String> = Vec::new();
    let mut i: usize = from;
    while i < args.len()
        invariant
            from <= i <= args@.len(),
            texts(out@) =~= texts(args@).subrange(from as int, i as int),
        decreases args@.len() - i,
    {
        let ghost was = out@;
        out.push(args[i].clone());
        assert(texts(out@) =~= texts(was).push(args@[i as int]@));
        i = i + 1;
    }
    assert(texts(out@) =~= texts(args@).skip(from as int));
    out
}

fn configure(label: Option<String>, command: Vec<String>) -> (r: Result<Config, String>)
    ensures
        match r {
            Ok(c) => config_of(opt_text(label), texts(command@)) == Ok::<ConfigView, Seq<char>>(c@),
            Err(e) => config_of(opt_text(label), texts(command@)) == Err::<ConfigView, Seq<char>>(e@),
        },
{
    assert(texts(command@).len() == command@.len());
    if command.len() == 0 {
        Err(USAGE.to_owned())
    } else {
        Ok(Config { label, command })
    }
}

/// What the arguments ask for; where they ask for nothing that can be run, what
/// is to be printed.
pub fn parse_args(args: &Vec<String>) -> (r: Result<Config, String>)
    ensures
        match r {
            Ok(c) => parsed_args(texts(args@), None) == Ok::<ConfigView, Seq<char>>(c@),
            Err(e) => parsed_args(texts(args@), None) == Err::<ConfigView, Seq<char>>(e@),
        },
{
    let ghost all = texts(args@);
    let mut label: Option<String> = None;
    let mut i: usize = 0;
    assert(all.skip(0) =~= all);
    while i < args.len()
        invariant
            i <= args@.len(),
            all == texts(args@),
            parsed_args(all, None) == parsed_args(all.skip(i as int), opt_text(label)),
        decreases args@.len() - i,
    {
        let arg = args[i].as_str();
        assert(all.skip(i as int)[0] == arg@);
        if same(arg, "--name") || same(arg, "-n") {
            if args.len() - i == 1 {
                return Err("--name requires a value".to_owned());
            }
            assert(all.skip(i as int).skip(2) =~= all.skip(i + 2));
            assert(all.skip(i as int)[1] == args@[i + 1]@);
            label = Some(args[i + 1].clone());
            i = i + 2;
        } else if same(arg, "--") {
            assert(all.skip(i as int).skip(1) =~= all.skip(i + 1));
            return configure(label, rest_of(args, i + 1));
        } else if same(arg, "--help") || same(arg, "-h") {
            return Err(USAGE.to_owned());
        } else {
            return configure(label, rest_of(args, i));
        }
    }
    Err(USAGE.to_owned())
}

/// A character that a label may hold.
pub open spec fn label_char(c: char) -> bool {
    letter_or_digit(c) || c == '-' || c == '_' || c == '.'
}

/// A text with an underscore in place of every character that a label may not
/// hold.
pub open spec fn as_label(s: Seq<char>) -> Seq<char> {
    s.map_values(
        |c: char|
            if label_char(c) {
                c
            } else {
                '_'
            },
    )
}

/// The label of a socket: the name where one is given that is not blank, else
/// the last component of the command.
pub open spec fn label_of(name: Option<Seq<char>>, command: Seq<char>) -> Seq<char> {
    let raw = match name {
        Some(n) if trimmed(n).len() > 0 => trimmed(n),
        _ => match path_name(command) {
            Some(f) => f,
            None => command,
        },
    };
    if raw.len() == 0 {
        "agent"@
    } else {
        as_label(raw)
    }
}

fn clean_label(s: &str) -> (r: String)
    ensures
        r@ == as_label(s@),
{
    let x = chars_of(s);
    let mut out: Vec<char> = Vec::new();
    let mut i: usize = 0;
    while i < x.len()
        invariant
            i <= x@.len(),
            x@ == s@,
            out@.len() == i,
            forall|j: int| 0 <= j < i ==> #[trigger] out@[j] == as_label(s@)[j],
        decreases x@.len() - i,
    {
        let c = x[i];
        if is_letter_or_digit(c) || c == '-' || c == '_' || c == '.' {
            out.push(c);
        } else {
            out.push('_');
        }
        i = i + 1;
    }
    let r = string_of(&out, 0, out.len());
    assert(r@ =~= as_label(s@));
    r
}

/// The label of a socket: an explicit name wins over the command's. It never
/// breaks the pattern by which a socket is found.
pub fn derive_label(name: Option<&str>, command: &str) -> (r: String)
    ensures
        r@ == label_of(opt_str(name), command@),
{
    let given = match name {
        Some(n) => {
            let t = trim(n);
            if t.as_str().is_empty() {
                None
            } else {
                Some(t)
            }
        },
        None => None,
    };
    let raw = match given {
        Some(t) => t,
        None => match file_name(command) {
            Some(f) => f,
            None => command.to_owned(),
        },
    };
    if raw.as_str().is_empty() {
        "agent".to_owned()
    } else {
        clean_label(raw.as_str())
    }
}

/// The socket's file name.
pub open spec fn socket_file(label: Seq<char>, pid: u32) -> Seq<char> {
    label + "-"@ + decimal(pid as nat) + ".sock"@
}

/// Where the socket of a wrapped agent lies.
pub fn socket_path(runtime_dir: &str, label: &str, pid: u32) -> (r: String)
    ensures
        r@ == joined_path(joined_path(runtime_dir@, "acp"@), socket_file(label@, pid)),
{
    let n = to_decimal(pid as u64);
    let a = cat3(label, "-", n.as_str());
    let f = cat(a.as_str(), ".sock");
    let d = join_path(runtime_dir, "acp");
    join_path(d.as_str(), f.as_str())
}

/// A label is never empty and holds no separator, whatever the agent is called.
pub proof fn law_label_is_a_file_name(name: Option<Seq<char>>, command: Seq<char>)
    ensures
        label_of(name, command).len() > 0,
        forall|i: int|
            0 <= i < label_of(name, command).len() ==> label_char(#[trigger] label_of(name, command)[i]),
        !label_of(name, command).contains('/'),
{
    reveal_strlit("agent");
    let l = label_of(name, command);
    assert forall|i: int| 0 <= i < l.len() implies label_char(#[trigger] l[i]) by {}
    assert(!label_char('/'));
}

/// A socket is found under the name it was given: taking its file name apart
/// gives back the label and the pid.
pub proof fn law_socket_is_found_by_its_name(name: Option<Seq<char>>, command: Seq<char>, pid: u32)
    ensures
        socket_name(socket_file(label_of(name, command), pid)) == Some(
            (label_of(name, command), pid as nat),
        ),
{
    law_label_is_a_file_name(name, command);
    law_socket_name_round_trip(label_of(name, command), pid);
}

/// The pump from the agent's output to the connected client. A chunk that could
/// not be sent stays in hand for the next client.
pub struct Pump {
    in_hand: Option<Vec<u8>>,
}

impl View for Pump {
    type V = Option<Seq<u8>>;

    closed spec fn view(&self) -> Option<Seq<u8>> {
        match self.in_hand {
            Some(c) => Some(c@),
            None => None,
        }
    }
}

impl Pump {
    pub fn new() -> (r: Self)
        ensures
            r@ is None,
    {
        Pump { in_hand: None }
    }

    /// What is to be sent next; nothing where the agent is to be read first.
    pub fn chunk(&self) -> (r: Option<&Vec<u8>>)
        ensures
            match r {
                Some(c) => self@ == Some(c@),
                None => self@ is None,
            },
    {
        match &self.in_hand {
            Some(c) => Some(c),
            None => None,
        }
    }

    /// Takes in what was read of the agent.
    pub fn load(&mut self, chunk: Vec<u8>)
        requires
            old(self)@ is None,
        ensures
            final(self)@ == Some(chunk@),
            final(self)@ == in_hand_after(old(self)@, Pumped::Loaded(chunk@)),
    {
        self.in_hand = Some(chunk);
    }

    /// Notes whether the chunk in hand was sent.
    pub fn sent(&mut self, ok: bool)
        ensures
            final(self)@ == in_hand_after(
                old(self)@,
                if ok {
                    Pumped::Sent
                } else {
                    Pumped::Refused
                },
            ),
    {
        if ok {
            self.in_hand = None;
        }
    }
}

/// What happens to a pump.
pub enum Pumped {
    /// A chunk was read; one is read only where none is in hand.
    Loaded(Seq<u8>),
    /// The chunk in hand was sent.
    Sent,
    /// Sending the chunk in hand failed.
    Refused,
}

/// What a pump has in hand after an event.
pub open spec fn in_hand_after(hand: Option<Seq<u8>>, e: Pumped) -> Option<Seq<u8>> {
    match e {
        Pumped::Loaded(c) => match hand {
            None => Some(c),
            Some(_) => hand,
        },
        Pumped::Sent => None,
        Pumped::Refused => hand,
    }
}

/// What a pump has in hand after events, and the bytes that were sent.
pub open spec fn pumped(events: Seq<Pumped>) -> (Option<Seq<u8>>, Seq<u8>)
    decreases events.len(),
{
    if events.len() == 0 {
        (None, Seq::empty())
    } else {
        let (hand, out) = pumped(events.drop_last());
        let sent = match (events.last(), hand) {
            (Pumped::Sent, Some(c)) => out + c,
            _ => out,
        };
        (in_hand_after(hand, events.last()), sent)
    }
}

/// The bytes that a pump took in.
pub open spec fn loaded(events: Seq<Pumped>) -> Seq<u8>
    decreases events.len(),
{
    if events.len() == 0 {
        Seq::empty()
    } else {
        let before = loaded(events.drop_last());
        match events.last() {
            Pumped::Loaded(c) => if pumped(events.drop_last()).0 is None {
                before + c
            } else {
                before
            },
            _ => before,
        }
    }
}

/// No byte of the agent's output is lost, doubled or put out of order, whatever
/// clients come and go: what was sent, with what is in hand behind it, is what
/// was read.
pub proof fn law_pump_loses_nothing(events: Seq<Pumped>)
    ensures
        loaded(events) == pumped(events).1 + (match pumped(events).0 {
            Some(c) => c,
            None => Seq::empty(),
        }),
    decreases events.len(),
{
    let (hand, out) = pumped(events);
    if events.len() > 0 {
        law_pump_loses_nothing(events.drop_last());
        let (h, o) = pumped(events.drop_last());
        match events.last() {
            Pumped::Loaded(c) => {
                if h is None {
                    assert(loaded(events) =~= out + c);
                }
            },
            Pumped::Sent => {
                assert(loaded(events) =~= out + Seq::<u8>::empty());
            },
            Pumped::Refused => {},
        }
    } else {
        assert(loaded(events) =~= out + Seq::<u8>::empty());
    }
}

/// The command line is the options and the command: a name is taken as the
/// label, the last one given, whatever follows a double hyphen is the command
/// to the letter, and so is whatever starts with no option. Without a command
/// there is nothing to run.
pub proof fn law_command_follows_the_options(
    rest: Seq<Seq<char>>,
    name: Seq<char>,
    label: Option<Seq<char>>,
)
    ensures
        parsed_args(seq!["--name"@, name] + rest, label) == parsed_args(rest, Some(name)),
        parsed_args(seq!["-n"@, name] + rest, label) == parsed_args(rest, Some(name)),
        rest.len() > 0 ==> parsed_args(seq!["--"@] + rest, label) == Ok::<ConfigView, Seq<char>>(
            ConfigView { label, command: rest },
        ),
        parsed_args(seq!["--"@], label) is Err,
        parsed_args(Seq::empty(), label) is Err,
        parsed_args(seq!["--name"@], label) is Err,
        rest.len() > 0 && rest[0] != "--name"@ && rest[0] != "-n"@ && rest[0] != "--"@ && rest[0]
            != "--help"@ && rest[0] != "-h"@ ==> parsed_args(rest, label) == Ok::<
            ConfigView,
            Seq<char>,
        >(ConfigView { label, command: rest }),
        rest.len() > 0 && (rest[0] == "--help"@ || rest[0] == "-h"@) ==> parsed_args(rest, label)
            is Err,
{
    reveal_strlit("--name");
    reveal_strlit("-n");
    reveal_strlit("--");
    reveal_strlit("--help");
    reveal_strlit("-h");
    assert("--name"@.len() == 6 && "--name"@[2] == 'n');
    assert("--help"@.len() == 6 && "--help"@[2] == 'h');
    assert("-n"@.len() == 2 && "-n"@[1] == 'n');
    assert("-h"@.len() == 2 && "-h"@[1] == 'h');
    assert("--"@.len() == 2 && "--"@[1] == '-');
    let a = seq!["--name"@, name] + rest;
    assert(a[0] == "--name"@ && a[1] == name && a.len() > 1);
    assert(a.skip(2) =~= rest);
    let b = seq!["-n"@, name] + rest;
    assert(b[0] == "-n"@ && b[1] == name && b.len() > 1);
    assert(b.skip(2) =~= rest);
    let c = seq!["--"@] + rest;
    assert(c[0] == "--"@);
    assert(c.skip(1) =~= rest);
    let d = seq!["--"@];
    assert(d[0] == "--"@);
    assert(d.skip(1).len() == 0);
    let e = seq!["--name"@];
    assert(e[0] == "--name"@);
}

/// An agent is labelled by the name that it was given, unless that is blank, and
/// by its command's file name otherwise; a character that a label cannot have
/// becomes an underscore, and all others stay where they are.
pub proof fn law_label_is_the_given_name(name: Seq<char>, command: Seq<char>, f: Seq<char>, i: int)
    ensures
        trimmed(name).len() > 0 ==> label_of(Some(name), command) == as_label(trimmed(name)),
        trimmed(name).len() == 0 ==> label_of(Some(name), command) == label_of(None, command),
        path_name(command) == Some(f) && f.len() > 0 ==> label_of(None, command) == as_label(f),
        as_label(f).len() == f.len(),
        0 <= i < f.len() && label_char(f[i]) ==> as_label(f)[i] == f[i],
        0 <= i < f.len() && !label_char(f[i]) ==> as_label(f)[i] == '_',
{
}

} // verus!
