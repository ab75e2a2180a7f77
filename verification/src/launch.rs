//! How an agent window is started: the argv handed to the session starter, and
//! the ladder by which a terminal is chosen.
use vstd::prelude::*;

use crate::path::{join_path, joined_path};
use crate::text::{
    cat, chars_of, copy_opt_string, copy_strings, opt_text, opt_texts, same_opt, split, split_on, split_whitespace,
    starts_with, texts, words,
};

verus! {

/// How a record wants its kind launched.
#[derive(Debug, PartialEq, Eq)]
pub struct LaunchMode {
    /// Run the command directly, without a terminal around it.
    pub gui: bool,
    /// The flag whose value is an initial message; without one the message is
    /// the last argument.
    pub message_flag: Option<String>,
    /// Run inside a headless compositor.
    pub hidden: bool,
}

/// What a launch mode holds.
pub struct LaunchModeView {
    pub gui: bool,
    pub message_flag: Option<Seq<char>>,
    pub hidden: bool,
}

impl View for LaunchMode {
    type V = LaunchModeView;

    open spec fn view(&self) -> LaunchModeView {
        LaunchModeView {
            gui: self.gui,
            message_flag: opt_text(self.message_flag),
            hidden: self.hidden,
        }
    }
}

impl Default for LaunchMode {
    /// A visible launch in a terminal, with the message as the last argument.
    fn default() -> (r: Self)
        ensures
            r@ == (LaunchModeView { gui: false, message_flag: None, hidden: false }),
    {
        LaunchMode { gui: false, message_flag: None, hidden: false }
    }
}

impl Clone for LaunchMode {
    fn clone(&self) -> (r: Self)
        ensures
            r == *self,
    {
        LaunchMode {
            gui: self.gui,
            message_flag: copy_opt_string(&self.message_flag),
            hidden: self.hidden,
        }
    }
}

impl LaunchMode {
    /// Whether two launch modes are the same.
    pub fn same(&self, other: &LaunchMode) -> (r: bool)
        ensures
            r == (self@ == other@),
    {
        self.gui == other.gui && self.hidden == other.hidden && same_opt(
            &self.message_flag,
            &other.message_flag,
        )
    }
}

/// What starts agent windows.
pub trait Launcher {
    /// Launches `command` in `cwd`, with `message` added to the argv.
    fn launch(
        &self,
        cwd: &str,
        command: &Vec<String>,
        message: Option<&str>,
        mode: &LaunchMode,
    ) -> Result<(), String>;
}

/// The prefix of a hidden launch: a compositor without output, and the sign by
/// which an adapter records that it runs hidden.
pub open spec fn hidden_prefix() -> Seq<Seq<char>> {
    seq!["env"@, "WLR_BACKENDS=headless"@, "CORRAL_HIDDEN=1"@, "cage"@, "--"@]
}

/// A message that cannot be read as a flag or a file.
pub open spec fn guarded(m: Seq<char>) -> Seq<char> {
    if m.len() > 0 && (m[0] == '-' || m[0] == '@') {
        " "@ + m
    } else {
        m
    }
}

/// `command` with an initial message behind it: as the value of the flag, or
/// guarded as the last argument.
pub open spec fn argv_with_message(
    command: Seq<Seq<char>>,
    message: Option<Seq<char>>,
    flag: Option<Seq<char>>,
) -> Seq<Seq<char>> {
    match (message, flag) {
        (None, _) => command,
        (Some(m), Some(f)) => command.push(f).push(m),
        (Some(m), None) => command.push(guarded(m)),
    }
}

/// The argv of a launch: terminal (unless the kind draws its own window),
/// command and message, inside the headless compositor where it is hidden.
pub open spec fn launch_argv(
    mode: LaunchModeView,
    terminal: Seq<Seq<char>>,
    command: Seq<Seq<char>>,
    message: Option<Seq<char>>,
) -> Seq<Seq<char>> {
    let tail = argv_with_message(command, message, mode.message_flag);
    let inner = if mode.gui {
        tail
    } else {
        terminal + tail
    };
    if mode.hidden {
        hidden_prefix() + inner
    } else {
        inner
    }
}

/// The view of an optional borrowed text.
pub open spec fn opt_str(s: Option<&str>) -> Option<Seq<char>> {
    match s {
        Some(x) => Some(x@),
        None => None,
    }
}

/// Appends a copy of each string of `more`.
fn extend(v: &mut Vec<String>, more: &Vec<String>)
    ensures
        texts(final(v)@) == texts(old(v)@) + texts(more@),
{
    let ghost start = v@;
    let mut i: usize = 0;
    while i < more.len()
        invariant
            i <= more@.len(),
            v@ == start + more@.take(i as int),
        decreases more@.len() - i,
    {
        v.push(more[i].clone());
        i = i + 1;
        assert(more@.take(i as int) =~= more@.take(i - 1).push(more@[i - 1]));
        assert(v@ =~= start + more@.take(i as int));
    }
    assert(more@.take(i as int) =~= more@);
    assert(texts(v@) =~= texts(start) + texts(more@));
}

/// Appends an initial message to a launch argv.
pub fn with_message(
    command: &Vec<String>,
    message: Option<&str>,
    message_flag: Option<&str>,
) -> (r: Vec<String>)
    ensures
        texts(r@) == argv_with_message(texts(command@), opt_str(message), opt_str(message_flag)),
{
    let mut args = copy_strings(command);
    match message {
        Some(m) => match message_flag {
            Some(flag) => {
                args.push(flag.to_owned());
                args.push(m.to_owned());
                assert(texts(args@) =~= texts(command@).push(flag@).push(m@));
            },
            None => {
                let x = chars_of(m);
                let text = if x.len() > 0 && (x[0] == '-' || x[0] == '@') {
                    cat(" ", m)
                } else {
                    m.to_owned()
                };
                args.push(text);
                assert(texts(args@) =~= texts(command@).push(guarded(m@)));
            },
        },
        None => {},
    }
    args
}

/// The argv that follows the detaching prefix of a launch.
pub fn setsid_args(
    mode: &LaunchMode,
    terminal: &Vec<String>,
    command: &Vec<String>,
    message: Option<&str>,
) -> (r: Vec<String>)
    ensures
        texts(r@) == launch_argv(mode@, texts(terminal@), texts(command@), opt_str(message)),
{
    let flag: Option<&str> = match &mode.message_flag {
        Some(f) => Some(f.as_str()),
        None => None,
    };
    let tail = with_message(command, message, flag);
    let mut out: Vec<String> = Vec::new();
    if mode.hidden {
        out.push("env".to_owned());
        out.push("WLR_BACKENDS=headless".to_owned());
        out.push("CORRAL_HIDDEN=1".to_owned());
        out.push("cage".to_owned());
        out.push("--".to_owned());
    }
    let ghost head = texts(out@);
    assert(head =~= if mode.hidden {
        hidden_prefix()
    } else {
        Seq::empty()
    });
    if !mode.gui {
        extend(&mut out, terminal);
    }
    extend(&mut out, &tail);
    assert(texts(out@) =~= launch_argv(
        mode@,
        texts(terminal@),
        texts(command@),
        opt_str(message),
    ));
    out
}

/// The argv prefix that opens a terminal: the freedesktop starter where it is
/// there; else the user's own template where its program can be run; else the
/// conventional variable where its program can be run.
pub open spec fn terminal_prefix(
    xdg_present: bool,
    corral_terminal: Option<Seq<char>>,
    terminal: Option<Seq<char>>,
    can_run: spec_fn(Seq<char>) -> bool,
) -> Option<Seq<Seq<char>>> {
    if xdg_present {
        Some(seq!["xdg-terminal-exec"@])
    } else if corral_terminal is Some && words(corral_terminal->0).len() > 0 && can_run(
        words(corral_terminal->0)[0],
    ) {
        Some(words(corral_terminal->0))
    } else if terminal is Some && terminal->0.len() > 0 && can_run(terminal->0) {
        Some(seq![terminal->0, "-e"@])
    } else {
        None
    }
}

/// A test of texts decides a property.
pub open spec fn decides<F: Fn(&str) -> bool>(f: F, p: spec_fn(Seq<char>) -> bool) -> bool {
    forall|s: &str, b: bool| #[trigger] call_ensures(f, (s,), b) ==> b == p(s@)
}

/// Resolves how to open a terminal. `on_path` decides whether a program can be
/// run.
pub fn resolve_terminal_from<E: Fn(&str) -> bool>(
    xdg_present: bool,
    corral_terminal: Option<&str>,
    terminal: Option<&str>,
    on_path: &E,
) -> (r: Option<Vec<String>>)
    requires
        forall|s: &str| call_requires(*on_path, (s,)),
    ensures
        xdg_present ==> opt_texts(r) == Some(seq!["xdg-terminal-exec"@]),
        forall|can_run: spec_fn(Seq<char>) -> bool| #[trigger]
            decides(*on_path, can_run) ==> opt_texts(r) == terminal_prefix(
                xdg_present,
                opt_str(corral_terminal),
                opt_str(terminal),
                can_run,
            ),
{
    if xdg_present {
        let mut v: Vec<String> = Vec::new();
        v.push("xdg-terminal-exec".to_owned());
        assert(texts(v@) =~= seq!["xdg-terminal-exec"@]);
        return Some(v);
    }
    match corral_terminal {
        Some(t) => {
            let parts = split_whitespace(t);
            if parts.len() > 0 {
                assert(parts@[0]@ == texts(parts@)[0]);
                if on_path(parts[0].as_str()) {
                    return Some(parts);
                }
            }
        },
        None => {},
    }
    match terminal {
        Some(t) => if !t.is_empty() && on_path(t) {
            let mut v: Vec<String> = Vec::new();
            v.push(t.to_owned());
            v.push("-e".to_owned());
            assert(texts(v@) =~= seq![t@, "-e"@]);
            return Some(v);
        },
        None => {},
    }
    None
}

/// The places in which a program is looked for: an absolute path is one itself,
/// and a name is looked for in each directory of a search path.
pub open spec fn search_places(prog: Seq<char>, path: Option<Seq<char>>) -> Seq<Seq<char>> {
    if prog.len() > 0 && prog[0] == '/' {
        seq![prog]
    } else {
        match path {
            Some(p) => split(p, ':').map_values(|d: Seq<char>| joined_path(d, prog)),
            None => Seq::empty(),
        }
    }
}

/// The files of which one has to be there for a program to be run. `path` is the
/// search path, where there is one.
pub fn candidates(prog: &str, path: Option<&str>) -> (r: Vec<String>)
    ensures
        texts(r@) == search_places(prog@, opt_str(path)),
{
    let mut out: Vec<String> = Vec::new();
    if starts_with(prog, "/") {
        proof {
            reveal_strlit("/");
            assert(prog@.subrange(0, 1)[0] == prog@[0]);
        }
        out.push(prog.to_owned());
        assert(texts(out@) =~= seq![prog@]);
        return out;
    }
    proof {
        reveal_strlit("/");
        if prog@.len() > 0 && prog@[0] == '/' {
            assert(prog@.subrange(0, 1) =~= "/"@);
        }
    }
    match path {
        None => {
            assert(texts(out@) =~= Seq::empty());
        },
        Some(p) => {
            let dirs = split_on(p, ':');
            let ghost all = split(p@, ':');
            let mut i: usize = 0;
            while i < dirs.len()
                invariant
                    i <= dirs@.len(),
                    texts(dirs@) == all,
                    texts(out@) =~= all.take(i as int).map_values(|d: Seq<char>| joined_path(d, prog@)),
                decreases dirs@.len() - i,
            {
                let ghost was = out@;
                assert(dirs@[i as int]@ == all[i as int]);
                let place = join_path(dirs[i].as_str(), prog);
                out.push(place);
                assert(texts(out@) =~= texts(was).push(place@));
                i = i + 1;
            }
            assert(all.take(i as int) =~= all);
        },
    }
    out
}

/// What a launch runs behind the detaching prefix, or why it is refused: there
/// is no command, or a terminal is needed and none was found.
pub open spec fn launch_plan(
    mode: LaunchModeView,
    terminal: Option<Seq<Seq<char>>>,
    command: Seq<Seq<char>>,
    message: Option<Seq<char>>,
) -> Result<Seq<Seq<char>>, Seq<char>> {
    if command.len() == 0 {
        Err("launch: empty command"@)
    } else if mode.gui {
        Ok(launch_argv(mode, Seq::empty(), command, message))
    } else {
        match terminal {
            Some(t) => Ok(launch_argv(mode, t, command, message)),
            None => Err(
                "no terminal found: install xdg-terminal-exec, or set $CORRAL_TERMINAL (e.g. \"alacritty -e\") or $TERMINAL"@,
            ),
        }
    }
}

/// Plans a launch: the argv behind the detaching prefix, or why there is none.
/// `terminal` is the argv prefix that opens a terminal, where one was found.
pub fn plan_launch(
    mode: &LaunchMode,
    terminal: Option<Vec<String>>,
    command: &Vec<String>,
    message: Option<&str>,
) -> (r: Result<Vec<String>, String>)
    ensures
        match r {
            Ok(argv) => launch_plan(mode@, opt_texts(terminal), texts(command@), opt_str(message)) == Ok::<
                Seq<Seq<char>>,
                Seq<char>,
            >(texts(argv@)),
            Err(e) => launch_plan(mode@, opt_texts(terminal), texts(command@), opt_str(message)) == Err::<
                Seq<Seq<char>>,
                Seq<char>,
            >(e@),
        },
{
    if command.len() == 0 {
        return Err("launch: empty command".to_owned());
    }
    if mode.gui {
        let none: Vec<String> = Vec::new();
        assert(texts(none@) =~= Seq::empty());
        return Ok(setsid_args(mode, &none, command, message));
    }
    match terminal {
        Some(t) => Ok(setsid_args(mode, &t, command, message)),
        None => Err(
            "no terminal found: install xdg-terminal-exec, or set $CORRAL_TERMINAL (e.g. \"alacritty -e\") or $TERMINAL".to_owned(),
        ),
    }
}

/// What a program that was run came to: `failed` goes before the words of one
/// that could not be run, `refused` tells of one that did not succeed.
pub open spec fn run_outcome(ran: Result<bool, Seq<char>>, failed: Seq<char>, refused: Seq<char>) -> Result<
    (),
    Seq<char>,
> {
    match ran {
        Ok(true) => Ok(()),
        Ok(false) => Err(refused),
        Err(e) => Err(failed + e),
    }
}

/// Whether a program that was run succeeded, by the text of its error.
pub open spec fn ran_view(ran: Result<bool, String>) -> Result<bool, Seq<char>> {
    match ran {
        Ok(b) => Ok(b),
        Err(e) => Err(e@),
    }
}

/// What a program that was run came to.
pub fn run_report(ran: &Result<bool, String>, failed: &str, refused: &str) -> (r: Result<(), String>)
    ensures
        outcome(r) == run_outcome(ran_view(*ran), failed@, refused@),
{
    match ran {
        Ok(true) => Ok(()),
        Ok(false) => Err(refused.to_owned()),
        Err(e) => Err(cat(failed, e.as_str())),
    }
}

/// The report of a launch.
pub fn launch_report(ran: &Result<bool, String>) -> (r: Result<(), String>)
    ensures
        outcome(r) == run_outcome(
            ran_view(*ran),
            "terminal launch failed: "@,
            "terminal launch returned non-zero"@,
        ),
{
    run_report(ran, "terminal launch failed: ", "terminal launch returned non-zero")
}

/// Where a launch is rooted: the given directory, else the home directory, else
/// the current one.
pub fn default_cwd(cwd: Option<&str>, home: Option<&str>) -> (r: String)
    ensures
        r@ == (match (cwd, home) {
            (Some(c), _) => c@,
            (None, Some(h)) => h@,
            (None, None) => "."@,
        }),
{
    match cwd {
        Some(c) => c.to_owned(),
        None => match home {
            Some(h) => h.to_owned(),
            None => ".".to_owned(),
        },
    }
}

/// The outcome of an action, its error by its text.
pub open spec fn outcome(r: Result<(), String>) -> Result<(), Seq<char>> {
    match r {
        Ok(_) => Ok(()),
        Err(e) => Err(e@),
    }
}

/// What is started is the command itself, argument by argument: after the words
/// that hide it, where it is hidden, and the terminal's, unless it draws its own
/// window, and with nothing behind it but the message. A launch is refused
/// exactly where there is no command, or no terminal for one that needs it.
pub proof fn law_command_is_run_as_it_stands(
    mode: LaunchModeView,
    terminal: Option<Seq<Seq<char>>>,
    command: Seq<Seq<char>>,
    message: Option<Seq<char>>,
)
    ensures
        launch_plan(mode, terminal, command, message) is Err <==> command.len() == 0 || (!mode.gui
            && terminal is None),
        launch_plan(mode, terminal, command, message) matches Ok(argv) ==> {
            let lead = if mode.hidden {
                5int
            } else {
                0
            };
            let at = lead + if mode.gui {
                0
            } else {
                terminal->0.len() as int
            };
            let end = at + command.len();
            &&& end <= argv.len()
            &&& mode.hidden ==> argv[0] == "env"@ && argv[1] == "WLR_BACKENDS=headless"@ && argv[2]
                == "CORRAL_HIDDEN=1"@ && argv[3] == "cage"@ && argv[4] == "--"@
            &&& !mode.gui ==> argv.subrange(lead, at) == terminal->0
            &&& argv.subrange(at, end) == command
            &&& message is None ==> argv.len() == end
            &&& message matches Some(m) ==> {
                &&& mode.message_flag matches Some(f) ==> argv.len() == end + 2 && argv[end] == f
                    && argv[end + 1] == m
                &&& mode.message_flag is None ==> argv.len() == end + 1 && (argv[end] == m || argv[end]
                    == " "@ + m)
            }
        },
{
    if launch_plan(mode, terminal, command, message) is Ok {
        let argv = launch_plan(mode, terminal, command, message)->Ok_0;
        let lead = if mode.hidden {
            5int
        } else {
            0
        };
        let at = lead + if mode.gui {
            0
        } else {
            terminal->0.len() as int
        };
        if !mode.gui {
            assert(argv.subrange(lead, at) =~= terminal->0);
        }
        assert(argv.subrange(at, at + command.len()) =~= command);
    }
}

/// A message that stands alone is never taken for an option or a file: it starts
/// with neither of their signs, and is otherwise what was written.
pub proof fn law_message_is_no_option(m: Seq<char>)
    ensures
        m.len() > 0 ==> guarded(m)[0] != '-' && guarded(m)[0] != '@',
        m.len() > 0 && m[0] != '-' && m[0] != '@' ==> guarded(m) == m,
        guarded(m) == m || guarded(m) == " "@ + m,
        m.len() == 0 ==> guarded(m) == m,
{
    reveal_strlit(" ");
}

/// Hiding a launch puts words in front of it and changes nothing else, and
/// a terminal is put in front only of what does not draw its own window.
pub proof fn law_hiding_only_leads(
    mode: LaunchModeView,
    terminal: Seq<Seq<char>>,
    command: Seq<Seq<char>>,
    message: Option<Seq<char>>,
)
    ensures
        launch_argv(LaunchModeView { hidden: true, ..mode }, terminal, command, message)
            == hidden_prefix() + launch_argv(
            LaunchModeView { hidden: false, ..mode },
            terminal,
            command,
            message,
        ),
        !mode.hidden && !mode.gui ==> launch_argv(mode, terminal, command, message) == terminal
            + launch_argv(LaunchModeView { gui: true, ..mode }, terminal, command, message),
{
}

/// The terminal that is found can be run: the desktop's own before any other,
/// else the operator's for this program, whatever the general one is, else the
/// general one, told to run a command. None is found only where none can be run.
pub proof fn law_terminal_that_is_found_can_be_run(
    own: Option<Seq<char>>,
    general: Option<Seq<char>>,
    other: Option<Seq<char>>,
    can_run: spec_fn(Seq<char>) -> bool,
)
    ensures
        terminal_prefix(true, own, general, can_run) == Some(seq!["xdg-terminal-exec"@]),
        terminal_prefix(false, own, general, can_run) matches Some(t) ==> t.len() > 0 && can_run(t[0]),
        own matches Some(o) ==> (words(o).len() > 0 && can_run(words(o)[0]) ==> terminal_prefix(
            false,
            own,
            general,
            can_run,
        ) == Some(words(o)) && terminal_prefix(false, own, other, can_run) == Some(words(o))),
        own is None ==> (general matches Some(g) ==> (g.len() > 0 && can_run(g) ==> terminal_prefix(
            false,
            own,
            general,
            can_run,
        ) == Some(seq![g, "-e"@]))),
        (own matches Some(o) ==> words(o).len() == 0 || !can_run(words(o)[0])) ==> terminal_prefix(
            false,
            own,
            general,
            can_run,
        ) == terminal_prefix(false, None, general, can_run),
        terminal_prefix(false, None, None, can_run) is None,
        general matches Some(g) ==> (g.len() == 0 || !can_run(g) ==> terminal_prefix(
            false,
            None,
            general,
            can_run,
        ) is None),
{
}

/// A program with a full path is sought there alone, and any other in each
/// directory of the search path, in order, under its own name.
pub proof fn law_program_is_sought_in_the_search_path(
    prog: Seq<char>,
    path: Option<Seq<char>>,
    i: int,
)
    ensures
        prog.len() > 0 && prog[0] == '/' ==> search_places(prog, path) == seq![prog],
        !(prog.len() > 0 && prog[0] == '/') && path is None ==> search_places(prog, path).len() == 0,
        !(prog.len() > 0 && prog[0] == '/') && path is Some ==> search_places(prog, path).len()
            == split(path->0, ':').len() && (0 <= i < split(path->0, ':').len() ==> search_places(
            prog,
            path,
        )[i] == joined_path(split(path->0, ':')[i], prog)),
{
}

/// A run went well exactly where the program ran and said so; where it could not
/// be run, the words of the failure are kept.
pub proof fn law_run_went_well_only_if_it_said_so(
    ran: Result<bool, Seq<char>>,
    failed: Seq<char>,
    refused: Seq<char>,
)
    ensures
        run_outcome(ran, failed, refused) is Ok <==> ran == Ok::<bool, Seq<char>>(true),
        ran == Ok::<bool, Seq<char>>(false) ==> run_outcome(ran, failed, refused) == Err::<
            (),
            Seq<char>,
        >(refused),
        ran matches Err(e) ==> (run_outcome(ran, failed, refused) matches Err(x) && x == failed + e),
{
}

} // verus!
