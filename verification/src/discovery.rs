//! Session discovery: the registry record of a session, the socket of a live
//! one, the translation of its process id, and the directory that a file's
//! place vouches for.
use vstd::prelude::*;

use crate::approved_commands::{denormalize, denormalized, filled_in, law_template_is_filled_in};
use crate::json::{
    json_parse, law_member_is_read_as_what_it_is, parse, str_array, Json, JsonView,
};
use crate::launch::{LaunchMode, LaunchModeView};
use crate::path::{
    file_name, joined_path, lemma_join_take_apart, parent, path_name, path_parent, plain_name,
    split_extension, stem_and_extension, tidy,
};
use crate::text::{
    ascii_alphanumeric, chars_of, copy_opt_string, copy_opt_strings, decimal,
    find_last, has_prefix, has_suffix, is_ascii_alphanumeric, last_index, lemma_decimal_parses,
    lemma_last_index, lines, opt_text, opt_texts, parse_u32, parsed_number, same, split_lines,
    split_whitespace, starts_with, string_of, strip_suffix, texts, words,
};

verus! {

// ---------------------------------------------------------------------------
// Records
// ---------------------------------------------------------------------------
/// The socket of a live session.
#[derive(Debug, PartialEq, Eq)]
pub struct SocketEntry {
    pub path: String,
    pub label: String,
    /// The process that owns the window, as its own namespace numbers it.
    pub pid: Option<u32>,
    /// The inode of that namespace; without one the number is already the
    /// host's.
    pub pid_namespace: Option<u64>,
}

pub struct SocketView {
    pub path: Seq<char>,
    pub label: Seq<char>,
    pub pid: Option<u32>,
    pub pid_namespace: Option<u64>,
}

impl View for SocketEntry {
    type V = SocketView;

    open spec fn view(&self) -> SocketView {
        SocketView {
            path: self.path@,
            label: self.label@,
            pid: self.pid,
            pid_namespace: self.pid_namespace,
        }
    }
}

impl Clone for SocketEntry {
    fn clone(&self) -> (r: Self)
        ensures
            r == *self,
    {
        SocketEntry {
            path: self.path.clone(),
            label: self.label.clone(),
            pid: self.pid,
            pid_namespace: self.pid_namespace,
        }
    }
}

/// One session's registry record. It names a socket only while the session is
/// live.
#[derive(Debug, PartialEq, Eq)]
pub struct RegistryEntry {
    pub session_id: String,
    pub cwd: Option<String>,
    pub title: Option<String>,
    pub socket: Option<String>,
    /// The process that owns the window, as its own namespace numbers it.
    pub pid: Option<u32>,
    /// The inode of that namespace.
    pub pid_namespace: Option<u64>,
    /// The argv of a fresh session of this kind.
    pub spawn_command: Option<Vec<String>>,
    /// The argv that resumes exactly this session.
    pub resume_command: Option<Vec<String>>,
    /// The agent kind.
    pub label: Option<String>,
    /// When the session was last active, in a form that orders as text.
    pub last_seen: Option<String>,
    /// Whether the kind draws its own window.
    pub gui: bool,
    /// The flag that carries an initial message.
    pub message_flag: Option<String>,
    /// Whether the session runs in a headless compositor.
    pub hidden: bool,
    /// One line on the kind.
    pub description: Option<String>,
    pub model: Option<String>,
    /// How many entries the session's transcript has.
    pub entries: Option<u64>,
    /// How much of the model's context is used, in percent.
    pub context_percent: Option<u32>,
    /// How old the transcript is, as the adapter words it.
    pub context_age: Option<String>,
}

/// What a record holds.
#[verifier::ext_equal]
pub struct RecordView {
    pub session_id: Seq<char>,
    pub cwd: Option<Seq<char>>,
    pub title: Option<Seq<char>>,
    pub socket: Option<Seq<char>>,
    pub pid: Option<u32>,
    pub pid_namespace: Option<u64>,
    pub spawn_command: Option<Seq<Seq<char>>>,
    pub resume_command: Option<Seq<Seq<char>>>,
    pub label: Option<Seq<char>>,
    pub last_seen: Option<Seq<char>>,
    pub gui: bool,
    pub message_flag: Option<Seq<char>>,
    pub hidden: bool,
    pub description: Option<Seq<char>>,
    pub model: Option<Seq<char>>,
    pub entries: Option<u64>,
    pub context_percent: Option<u32>,
    pub context_age: Option<Seq<char>>,
}

impl View for RegistryEntry {
    type V = RecordView;

    open spec fn view(&self) -> RecordView {
        RecordView {
            session_id: self.session_id@,
            cwd: opt_text(self.cwd),
            title: opt_text(self.title),
            socket: opt_text(self.socket),
            pid: self.pid,
            pid_namespace: self.pid_namespace,
            spawn_command: opt_texts(self.spawn_command),
            resume_command: opt_texts(self.resume_command),
            label: opt_text(self.label),
            last_seen: opt_text(self.last_seen),
            gui: self.gui,
            message_flag: opt_text(self.message_flag),
            hidden: self.hidden,
            description: opt_text(self.description),
            model: opt_text(self.model),
            entries: self.entries,
            context_percent: self.context_percent,
            context_age: opt_text(self.context_age),
        }
    }
}

/// The view of a list of records.
pub open spec fn records(v: Seq<RegistryEntry>) -> Seq<RecordView> {
    Seq::new(v.len(), |i: int| v[i]@)
}

impl Clone for RegistryEntry {
    fn clone(&self) -> (r: Self)
        ensures
            r@ == self@,
    {
        RegistryEntry {
            session_id: self.session_id.clone(),
            cwd: copy_opt_string(&self.cwd),
            title: copy_opt_string(&self.title),
            socket: copy_opt_string(&self.socket),
            pid: self.pid,
            pid_namespace: self.pid_namespace,
            spawn_command: copy_opt_strings(&self.spawn_command),
            resume_command: copy_opt_strings(&self.resume_command),
            label: copy_opt_string(&self.label),
            last_seen: copy_opt_string(&self.last_seen),
            gui: self.gui,
            message_flag: copy_opt_string(&self.message_flag),
            hidden: self.hidden,
            description: copy_opt_string(&self.description),
            model: copy_opt_string(&self.model),
            entries: self.entries,
            context_percent: self.context_percent,
            context_age: copy_opt_string(&self.context_age),
        }
    }
}

impl RecordView {
    /// The launch options that the record declares.
    pub open spec fn launch_mode(self) -> LaunchModeView {
        LaunchModeView { gui: self.gui, message_flag: self.message_flag, hidden: self.hidden }
    }

    /// The resume command with the record's own id and directory filled in.
    pub open spec fn resume_argv(self) -> Option<Seq<Seq<char>>> {
        match self.resume_command {
            Some(c) => Some(denormalized(c, self.session_id, self.cwd)),
            None => None,
        }
    }

    /// The spawn command with the record's own id and directory filled in.
    pub open spec fn spawn_argv(self) -> Option<Seq<Seq<char>>> {
        match self.spawn_command {
            Some(c) => Some(denormalized(c, self.session_id, self.cwd)),
            None => None,
        }
    }
}

impl RegistryEntry {
    /// The launch options that the record declares.
    pub fn launch_mode(&self) -> (r: LaunchMode)
        ensures
            r@ == self@.launch_mode(),
    {
        LaunchMode {
            gui: self.gui,
            message_flag: copy_opt_string(&self.message_flag),
            hidden: self.hidden,
        }
    }

    /// The resume command with the record's own id and directory filled in.
    pub fn resume_argv(&self) -> (r: Option<Vec<String>>)
        ensures
            opt_texts(r) == self@.resume_argv(),
    {
        match &self.resume_command {
            Some(c) => Some(denormalize(c, self.session_id.as_str(), opt_as_str(&self.cwd))),
            None => None,
        }
    }

    /// The spawn command with the record's own id and directory filled in.
    pub fn spawn_argv(&self) -> (r: Option<Vec<String>>)
        ensures
            opt_texts(r) == self@.spawn_argv(),
    {
        match &self.spawn_command {
            Some(c) => Some(denormalize(c, self.session_id.as_str(), opt_as_str(&self.cwd))),
            None => None,
        }
    }
}

/// Borrows an optional string as text.
pub fn opt_as_str(s: &Option<String>) -> (r: Option<&str>)
    ensures
        crate::launch::opt_str(r) == opt_text(*s),
{
    match s {
        Some(x) => Some(x.as_str()),
        None => None,
    }
}

// ---------------------------------------------------------------------------
// Reading records
// ---------------------------------------------------------------------------
/// The low 32 bits of a number.
pub open spec fn low32(n: int) -> u32 {
    (n % 0x1_0000_0000) as u32
}

pub open spec fn opt_low32(n: Option<int>) -> Option<u32> {
    match n {
        Some(x) => Some(low32(x)),
        None => None,
    }
}

pub open spec fn opt_u64(n: Option<int>) -> Option<u64> {
    match n {
        Some(x) => Some(x as u64),
        None => None,
    }
}

/// The record that a JSON value describes: it has a text under `sessionId`, and
/// each other field where the value has one of the right kind.
pub open spec fn record_of(v: JsonView) -> Option<RecordView> {
    match v.str_at("sessionId"@) {
        Some(id) => Some(
            RecordView {
                session_id: id,
                cwd: v.str_at("cwd"@),
                title: v.str_at("title"@),
                socket: v.str_at("socket"@),
                pid: opt_low32(v.u64_at("pid"@)),
                pid_namespace: opt_u64(v.u64_at("pidNamespace"@)),
                spawn_command: v.strs_at("spawnCommand"@),
                resume_command: v.strs_at("resumeCommand"@),
                label: v.str_at("label"@),
                last_seen: v.str_at("lastSeen"@),
                gui: v.true_at("gui"@),
                message_flag: v.str_at("messageFlag"@),
                hidden: v.true_at("hidden"@),
                description: v.str_at("description"@),
                model: v.str_at("model"@),
                entries: opt_u64(v.u64_at("entries"@)),
                context_percent: opt_low32(v.u64_at("contextPercent"@)),
                context_age: v.str_at("contextAge"@),
            },
        ),
        None => None,
    }
}

/// The record that a document describes, if it is JSON and describes one.
pub open spec fn record_text(text: Seq<char>) -> Option<RecordView> {
    match json_parse(text) {
        Some(v) => record_of(v),
        None => None,
    }
}

fn low(n: Option<u64>) -> (r: Option<u32>)
    ensures
        n matches Some(x) ==> r == Some(low32(x as int)),
        n is None ==> r is None,
{
    match n {
        Some(x) => {
            let y: u32 = (x % 0x1_0000_0000) as u32;
            Some(y)
        },
        None => None,
    }
}

/// Reads a record out of a JSON value.
pub fn registry_entry(v: &Json) -> (r: Option<RegistryEntry>)
    ensures
        r is Some == record_of(v@) is Some,
        r matches Some(e) ==> record_of(v@) == Some(e@),
{
    match v.str_at("sessionId") {
        Some(session_id) => Some(
            RegistryEntry {
                session_id,
                cwd: v.str_at("cwd"),
                title: v.str_at("title"),
                socket: v.str_at("socket"),
                pid: low(v.u64_at("pid")),
                pid_namespace: v.u64_at("pidNamespace"),
                spawn_command: v.strs_at("spawnCommand"),
                resume_command: v.strs_at("resumeCommand"),
                label: v.str_at("label"),
                last_seen: v.str_at("lastSeen"),
                gui: v.true_at("gui"),
                message_flag: v.str_at("messageFlag"),
                hidden: v.true_at("hidden"),
                description: v.str_at("description"),
                model: v.str_at("model"),
                entries: v.u64_at("entries"),
                context_percent: low(v.u64_at("contextPercent")),
                context_age: v.str_at("contextAge"),
            },
        ),
        None => None,
    }
}

/// Parses one registry document. Only `sessionId` is required.
pub fn parse_registry_json(text: &str) -> (r: Option<RegistryEntry>)
    ensures
        r is Some == record_text(text@) is Some,
        r matches Some(e) ==> record_text(text@) == Some(e@),
{
    match parse(text) {
        Some(v) => registry_entry(&v),
        None => None,
    }
}

/// The records among the files of a directory: those whose name ends in the
/// extension `json` and whose text describes one, in order.
pub open spec fn records_in(names: Seq<Seq<char>>, docs: Seq<Seq<char>>) -> Seq<RecordView>
    decreases names.len(),
{
    if names.len() == 0 || docs.len() != names.len() {
        Seq::empty()
    } else {
        let rest = records_in(names.drop_last(), docs.drop_last());
        match record_text(docs.last()) {
            Some(e) => if stem_and_extension(names.last()).1 == Some("json"@) {
                rest.push(e)
            } else {
                rest
            },
            None => rest,
        }
    }
}

/// Whether a file name has the extension `json`.
pub fn is_json_name(name: &str) -> (r: bool)
    ensures
        r == (stem_and_extension(name@).1 == Some("json"@)),
{
    match split_extension(name).1 {
        Some(x) => same(x.as_str(), "json"),
        None => false,
    }
}

/// Parses the records of a directory, given its files as name and text.
pub fn scan_registry(files: &Vec<(String, String)>) -> (r: Vec<RegistryEntry>)
    ensures
        records(r@) == records_in(
            Seq::new(files@.len(), |i: int| files@[i].0@),
            Seq::new(files@.len(), |i: int| files@[i].1@),
        ),
{
    let mut out: Vec<RegistryEntry> = Vec::new();
    let mut i: usize = 0;
    let ghost names = Seq::new(files@.len(), |i: int| files@[i].0@);
    let ghost docs = Seq::new(files@.len(), |i: int| files@[i].1@);
    assert(records(out@) =~= records_in(names.take(0), docs.take(0)));
    while i < files.len()
        invariant
            i <= files@.len(),
            names == Seq::new(files@.len(), |i: int| files@[i].0@),
            docs == Seq::new(files@.len(), |i: int| files@[i].1@),
            records(out@) == records_in(names.take(i as int), docs.take(i as int)),
        decreases files@.len() - i,
    {
        assert(names.take(i + 1).drop_last() =~= names.take(i as int));
        assert(docs.take(i + 1).drop_last() =~= docs.take(i as int));
        let ghost prior = out@;
        if is_json_name(files[i].0.as_str()) {
            match parse_registry_json(files[i].1.as_str()) {
                Some(e) => {
                    out.push(e);
                    assert(records(out@) =~= records(prior).push(e@));
                },
                None => {},
            }
        }
        i = i + 1;
    }
    assert(names.take(i as int) =~= names);
    assert(docs.take(i as int) =~= docs);
    out
}

// ---------------------------------------------------------------------------
// Sockets
// ---------------------------------------------------------------------------
/// The label and process id in a socket's file name `<label>-<pid>.sock`. The
/// id is what follows the last dash, so a label may hold dashes.
pub open spec fn socket_name(name: Seq<char>) -> Option<(Seq<char>, nat)> {
    if !has_suffix(name, ".sock"@) {
        None
    } else {
        let stem = name.subrange(0, name.len() - ".sock"@.len());
        match last_index(stem, '-') {
            Some(d) => if d == 0 {
                None
            } else {
                match parsed_number(stem.subrange(d + 1, stem.len() as int), u32::MAX as nat) {
                    Some(pid) => Some((stem.subrange(0, d), pid)),
                    None => None,
                }
            },
            None => None,
        }
    }
}

/// Parses `<label>-<pid>.sock`.
pub fn parse_socket_filename(name: &str) -> (r: Option<(String, u32)>)
    ensures
        r is Some == socket_name(name@) is Some,
        r matches Some(x) ==> socket_name(name@) == Some((x.0@, x.1 as nat)),
{
    match strip_suffix(name, ".sock") {
        Some(stem) => {
            let x = chars_of(stem.as_str());
            let n: usize = x.len();
            match find_last(&x, '-') {
                Some(d) => {
                    let label = string_of(&x, 0, d);
                    let digits = string_of(&x, d + 1, n);
                    if d == 0 {
                        return None;
                    }
                    match parse_u32(digits.as_str()) {
                        Some(pid) => Some((label, pid)),
                        None => None,
                    }
                },
                None => None,
            }
        },
        None => None,
    }
}

/// The file name of a socket made of a label and a process id gives both back.
pub proof fn law_socket_name_round_trip(label: Seq<char>, pid: u32)
    requires
        label.len() > 0,
    ensures
        socket_name(label + "-"@ + decimal(pid as nat) + ".sock"@) == Some((label, pid as nat)),
{
    reveal_strlit("-");
    reveal_strlit(".sock");
    let digits = decimal(pid as nat);
    let stem = label + "-"@ + digits;
    let name = stem + ".sock"@;
    assert(name.subrange(0, name.len() - ".sock"@.len()) =~= stem);
    assert(name.subrange(name.len() - ".sock"@.len(), name.len() as int) =~= ".sock"@);
    lemma_decimal_parses(pid as nat, u32::MAX as nat);
    crate::text::lemma_decimal_digits(pid as nat);
    assert forall|j: int| label.len() < j < stem.len() implies stem[j] != '-' by {
        assert(stem[j] == digits[j - label.len() - 1]);
    }
    lemma_last_index(stem, '-', label.len() as int);
    assert(stem.subrange(0, label.len() as int) =~= label);
    assert(stem.subrange(label.len() as int + 1, stem.len() as int) =~= digits);
}

/// The socket that a record names. Label and process id are the record's own;
/// where it has none, those in the socket's file name; a label is in any case
/// given.
pub open spec fn socket_of(e: RecordView) -> Option<SocketView> {
    match e.socket {
        Some(path) => {
            let legacy = match path_name(path) {
                Some(n) => socket_name(n),
                None => None,
            };
            Some(
                SocketView {
                    path,
                    label: match (e.label, legacy) {
                        (Some(l), _) => l,
                        (None, Some(x)) => x.0,
                        (None, None) => "agent"@,
                    },
                    pid: match (e.pid, legacy) {
                        (Some(p), _) => Some(p),
                        (None, Some(x)) => Some(x.1 as u32),
                        (None, None) => None,
                    },
                    pid_namespace: e.pid_namespace,
                },
            )
        },
        None => None,
    }
}

/// The socket of a live record; a dormant one has none.
pub fn live_socket(entry: &RegistryEntry) -> (r: Option<SocketEntry>)
    ensures
        r is Some == socket_of(entry@) is Some,
        r matches Some(s) ==> socket_of(entry@) == Some(s@),
{
    match &entry.socket {
        Some(path) => {
            let legacy = match file_name(path.as_str()) {
                Some(n) => parse_socket_filename(n.as_str()),
                None => None,
            };
            let label = match &entry.label {
                Some(l) => l.clone(),
                None => match &legacy {
                    Some(x) => x.0.clone(),
                    None => "agent".to_owned(),
                },
            };
            let pid: Option<u32> = match entry.pid {
                Some(p) => Some(p),
                None => match &legacy {
                    Some(x) => Some(x.1),
                    None => None,
                },
            };
            Some(
                SocketEntry { path: path.clone(), label, pid, pid_namespace: entry.pid_namespace },
            )
        },
        None => None,
    }
}

// ---------------------------------------------------------------------------
// Process ids across namespaces
// ---------------------------------------------------------------------------
/// One process as the host sees it.
#[derive(Debug, Clone, Copy, PartialEq, Eq)]
pub struct ProcInfo {
    pub host_pid: u32,
    /// The inode of its process-id namespace.
    pub pid_ns_ino: u64,
    /// Its number in its own, deepest namespace.
    pub deepest_nspid: u32,
}

/// The process table that ids are translated by.
pub trait ProcTable {
    /// The inode of the reader's own process-id namespace.
    fn self_pid_ns_ino(&self) -> Option<u64>;

    /// Every process that the reader can see.
    fn processes(&self) -> Vec<ProcInfo>;
}

/// The host's number of the first process with the given number in the given
/// namespace.
pub open spec fn host_pid_in(procs: Seq<ProcInfo>, ns_pid: u32, ino: u64) -> Option<u32>
    decreases procs.len(),
{
    if procs.len() == 0 {
        None
    } else if procs[0].pid_ns_ino == ino && procs[0].deepest_nspid == ns_pid {
        Some(procs[0].host_pid)
    } else {
        host_pid_in(procs.drop_first(), ns_pid, ino)
    }
}

/// Finds a process by its number in its namespace.
pub fn find_host_pid(procs: &Vec<ProcInfo>, ns_pid: u32, ino: u64) -> (r: Option<u32>)
    ensures
        r == host_pid_in(procs@, ns_pid, ino),
{
    let mut i: usize = 0;
    assert(procs@.skip(0) =~= procs@);
    while i < procs.len()
        invariant
            i <= procs@.len(),
            host_pid_in(procs@, ns_pid, ino) == host_pid_in(procs@.skip(i as int), ns_pid, ino),
        decreases procs@.len() - i,
    {
        if procs[i].pid_ns_ino == ino && procs[i].deepest_nspid == ns_pid {
            return Some(procs[i].host_pid);
        }
        assert(procs@.skip(i as int).drop_first() =~= procs@.skip(i + 1));
        i = i + 1;
    }
    None
}

/// What translating a namespace's number may give: the number itself where the
/// reader shares the namespace, else what the process table says.
pub open spec fn host_pid_by<T: ProcTable>(table: &T, ns_pid: u32, ino: u64, r: Option<u32>) -> bool {
    exists|own: Option<u64>|
        #![trigger call_ensures(T::self_pid_ns_ino, (table,), own)]
        {
            &&& call_ensures(T::self_pid_ns_ino, (table,), own)
            &&& own == Some(ino) ==> r == Some(ns_pid)
            &&& own != Some(ino) ==> exists|ps: Vec<ProcInfo>|
                call_ensures(T::processes, (table,), ps) && r == host_pid_in(ps@, ns_pid, ino)
        }
}

/// Translates a namespace's process id to the host's.
pub fn resolve_host_pid<T: ProcTable>(table: &T, ns_pid: u32, pidns_ino: u64) -> (r: Option<u32>)
    ensures
        host_pid_by(table, ns_pid, pidns_ino, r),
{
    let own = table.self_pid_ns_ino();
    match own {
        Some(i) => if i == pidns_ino {
            return Some(ns_pid);
        },
        None => {},
    }
    let ps = table.processes();
    find_host_pid(&ps, ns_pid, pidns_ino)
}

/// The host's process id of a socket: nothing without an id, the id itself
/// without a namespace, else its translation.
pub fn resolve_socket_host_pid<T: ProcTable>(
    table: &T,
    pid: Option<u32>,
    pid_namespace: Option<u64>,
) -> (r: Option<u32>)
    ensures
        pid is None ==> r is None,
        pid is Some && pid_namespace is None ==> r == pid,
        pid is Some && pid_namespace is Some ==> host_pid_by(table, pid->0, pid_namespace->0, r),
{
    match pid {
        Some(p) => match pid_namespace {
            Some(ino) => resolve_host_pid(table, p, ino),
            None => Some(p),
        },
        None => None,
    }
}

/// The first of `ls` that begins with `prefix`.
pub open spec fn first_with_prefix(ls: Seq<Seq<char>>, prefix: Seq<char>) -> Option<Seq<char>>
    decreases ls.len(),
{
    if ls.len() == 0 {
        None
    } else if has_prefix(ls[0], prefix) {
        Some(ls[0])
    } else {
        first_with_prefix(ls.drop_first(), prefix)
    }
}

/// The first of `ls` that begins with `prefix`.
pub fn find_with_prefix(ls: &Vec<String>, prefix: &str) -> (r: Option<String>)
    ensures
        opt_text(r) == first_with_prefix(texts(ls@), prefix@),
{
    let ghost t = texts(ls@);
    let mut i: usize = 0;
    assert(t.skip(0) =~= t);
    while i < ls.len()
        invariant
            i <= ls@.len(),
            t == texts(ls@),
            first_with_prefix(t, prefix@) == first_with_prefix(t.skip(i as int), prefix@),
        decreases ls@.len() - i,
    {
        assert(t.skip(i as int)[0] == ls@[i as int]@);
        if starts_with(ls[i].as_str(), prefix) {
            return Some(ls[i].clone());
        }
        assert(t.skip(i as int).drop_first() =~= t.skip(i + 1));
        i = i + 1;
    }
    None
}

/// The last number on the `NSpid:` line of a process's status.
pub open spec fn nspid_of(status: Seq<char>) -> Option<nat> {
    match first_with_prefix(lines(status), "NSpid:"@) {
        Some(l) => if words(l).len() > 0 {
            parsed_number(words(l).last(), u32::MAX as nat)
        } else {
            None
        },
        None => None,
    }
}

/// The process's number in its deepest namespace, from the text of its status.
pub fn deepest_nspid(status: &str) -> (r: Option<u32>)
    ensures
        r is Some == nspid_of(status@) is Some,
        r matches Some(n) ==> nspid_of(status@) == Some(n as nat),
{
    let ls = split_lines(status);
    match find_with_prefix(&ls, "NSpid:") {
        Some(l) => {
            let ws = split_whitespace(l.as_str());
            if ws.len() == 0 {
                return None;
            }
            assert(ws@[ws@.len() - 1]@ == texts(ws@).last());
            parse_u32(ws[ws.len() - 1].as_str())
        },
        None => None,
    }
}

// ---------------------------------------------------------------------------
// Identity
// ---------------------------------------------------------------------------
pub open spec fn session_id_char(c: char) -> bool {
    ascii_alphanumeric(c) || c == '.' || c == '_' || c == '-'
}

/// A session id that can be trusted in a launch argv: letters, digits, dots,
/// underscores and dashes, at least one, and no dash in front.
pub open spec fn session_id_ok(id: Seq<char>) -> bool {
    &&& id.len() > 0
    &&& id[0] != '-'
    &&& forall|i: int| 0 <= i < id.len() ==> session_id_char(#[trigger] id[i])
}

/// Whether a session id is safe to trust.
pub fn valid_session_id(id: &str) -> (r: bool)
    ensures
        r == session_id_ok(id@),
{
    let x = chars_of(id);
    if x.len() == 0 || x[0] == '-' {
        return false;
    }
    let mut i: usize = 0;
    while i < x.len()
        invariant
            i <= x@.len(),
            x@ == id@,
            forall|j: int| 0 <= j < i ==> session_id_char(#[trigger] id@[j]),
        decreases x@.len() - i,
    {
        let c = x[i];
        if !(is_ascii_alphanumeric(c) || c == '.' || c == '_' || c == '-') {
            assert(!session_id_char(id@[i as int]));
            return false;
        }
        i = i + 1;
    }
    true
}

/// A valid session id can never be taken for a flag or reach into another
/// directory.
pub proof fn law_session_id_is_inert(id: Seq<char>)
    requires
        session_id_ok(id),
    ensures
        !has_prefix(id, "-"@),
        !id.contains('/'),
        !id.contains(' '),
        !id.contains('='),
{
    reveal_strlit("-");
    if has_prefix(id, "-"@) {
        assert(id.subrange(0, 1)[0] == '-');
    }
    assert forall|i: int| 0 <= i < id.len() implies id[i] != '/' && id[i] != ' ' && id[i] != '=' by {
        assert(session_id_char(id[i]));
    }
}

/// The directory that a record's place vouches for: the record lies in a
/// directory `.corral` of it.
pub open spec fn cwd_of_record(path: Seq<char>) -> Option<Seq<char>> {
    match path_parent(path) {
        Some(p) => if path_name(p) == Some(".corral"@) {
            path_parent(p)
        } else {
            None
        },
        None => None,
    }
}

/// The directory that a submission's place vouches for: the submission lies in
/// a directory `.corral/outbox` of it.
pub open spec fn cwd_of_outbox(path: Seq<char>) -> Option<Seq<char>> {
    match path_parent(path) {
        Some(p) => if path_name(p) == Some("outbox"@) {
            match path_parent(p) {
                Some(q) => if path_name(q) == Some(".corral"@) {
                    path_parent(q)
                } else {
                    None
                },
                None => None,
            }
        } else {
            None
        },
        None => None,
    }
}

fn has_name(p: &str, name: &str) -> (r: bool)
    ensures
        r == (path_name(p@) == Some(name@)),
{
    match file_name(p) {
        Some(n) => same(n.as_str(), name),
        None => false,
    }
}

/// Derives the authenticated directory of a record from its real path.
pub fn cwd_from_record_path(path: &str) -> (r: Option<String>)
    ensures
        opt_text(r) == cwd_of_record(path@),
{
    match parent(path) {
        Some(p) => if has_name(p.as_str(), ".corral") {
            parent(p.as_str())
        } else {
            None
        },
        None => None,
    }
}

/// Derives the authenticated directory of a submission from its real path.
pub fn cwd_from_outbox_path(path: &str) -> (r: Option<String>)
    ensures
        opt_text(r) == cwd_of_outbox(path@),
{
    match parent(path) {
        Some(p) => if has_name(p.as_str(), "outbox") {
            match parent(p.as_str()) {
                Some(q) => if has_name(q.as_str(), ".corral") {
                    parent(q.as_str())
                } else {
                    None
                },
                None => None,
            }
        } else {
            None
        },
        None => None,
    }
}

/// A file written to a directory's own `.corral/outbox` vouches for exactly
/// that directory.
pub proof fn law_outbox_place_is_identity(cwd: Seq<char>, name: Seq<char>)
    requires
        tidy(cwd),
        cwd.len() > 0,
        plain_name(name),
    ensures
        cwd_of_outbox(
            joined_path(joined_path(joined_path(cwd, ".corral"@), "outbox"@), name),
        ) == Some(cwd),
{
    reveal_strlit(".corral");
    reveal_strlit("outbox");
    reveal_strlit(".");
    reveal_strlit("..");
    let a = joined_path(cwd, ".corral"@);
    let b = joined_path(a, "outbox"@);
    lemma_join_take_apart(cwd, ".corral"@);
    lemma_join_take_apart(a, "outbox"@);
    lemma_join_take_apart(b, name);
}

/// A record written to a directory's own `.corral` vouches for exactly that
/// directory.
pub proof fn law_record_place_is_identity(cwd: Seq<char>, name: Seq<char>)
    requires
        tidy(cwd),
        cwd.len() > 0,
        plain_name(name),
    ensures
        cwd_of_record(joined_path(joined_path(cwd, ".corral"@), name)) == Some(cwd),
{
    reveal_strlit(".corral");
    reveal_strlit(".");
    reveal_strlit("..");
    lemma_join_take_apart(cwd, ".corral"@);
    lemma_join_take_apart(joined_path(cwd, ".corral"@), name);
}

// ---------------------------------------------------------------------------
// Addressing a session
// ---------------------------------------------------------------------------
/// `i` is the only record that claims the session.
pub open spec fn only_claim(entries: Seq<RecordView>, sid: Seq<char>, i: int) -> bool {
    &&& 0 <= i < entries.len()
    &&& entries[i].session_id == sid
    &&& forall|j: int| 0 <= j < entries.len() && j != i ==> (#[trigger] entries[j]).session_id != sid
}

/// The record of a session that exactly one record claims; nothing where none
/// or several do.
pub open spec fn sole_record(entries: Seq<RecordView>, sid: Seq<char>) -> Option<RecordView> {
    if exists|i: int| only_claim(entries, sid, i) {
        Some(entries[choose|i: int| only_claim(entries, sid, i)])
    } else {
        None
    }
}

/// The record that an action on a session may act on: the only one that claims
/// it.
pub fn unique_session<'a>(entries: &'a Vec<RegistryEntry>, sid: &str) -> (r: Option<
    &'a RegistryEntry,
>)
    ensures
        r is Some == sole_record(records(entries@), sid@) is Some,
        r matches Some(e) ==> sole_record(records(entries@), sid@) == Some(e@),
{
    let ghost s = records(entries@);
    let mut found: Option<usize> = None;
    let mut i: usize = 0;
    while i < entries.len()
        invariant
            i <= entries@.len(),
            s == records(entries@),
            found matches Some(k) ==> k < i && s[k as int].session_id == sid@,
            forall|j: int|
                0 <= j < i && found != Some(j as usize) ==> (#[trigger] s[j]).session_id != sid@,
        decreases entries@.len() - i,
    {
        assert(s[i as int] == entries@[i as int]@);
        if same(entries[i].session_id.as_str(), sid) {
            match found {
                Some(k) => {
                    proof {
                        assert(s[k as int].session_id == sid@);
                        assert forall|q: int| !only_claim(s, sid@, q) by {
                            if only_claim(s, sid@, q) {
                                if q != k {
                                    assert(s[k as int].session_id != sid@);
                                } else {
                                    assert(s[i as int].session_id != sid@);
                                }
                            }
                        }
                    }
                    return None;
                },
                None => {
                    found = Some(i);
                },
            }
        }
        i = i + 1;
    }
    match found {
        Some(k) => {
            proof {
                assert forall|j: int| 0 <= j < s.len() && j != k implies (#[trigger] s[j]).session_id
                    != sid@ by {
                    assert(found != Some(j as usize));
                }
                assert(only_claim(s, sid@, k as int));
                let c = choose|c: int| only_claim(s, sid@, c);
                assert(c == k) by {
                    if c != k {
                        assert(s[c].session_id != sid@);
                    }
                }
            }
            Some(&entries[k])
        },
        None => {
            assert forall|q: int| !only_claim(s, sid@, q) by {
                if only_claim(s, sid@, q) {
                    assert(found != Some(q as usize));
                }
            }
            None
        },
    }
}

/// An action on a session that two records claim reaches neither.
pub proof fn law_ambiguous_session_fails_closed(
    entries: Seq<RecordView>,
    sid: Seq<char>,
    i: int,
    j: int,
)
    requires
        0 <= i < j < entries.len(),
        entries[i].session_id == sid,
        entries[j].session_id == sid,
    ensures
        sole_record(entries, sid) is None,
{
    assert forall|q: int| !only_claim(entries, sid, q) by {
        if only_claim(entries, sid, q) {
            if q != i {
                assert(entries[i].session_id != sid);
            } else {
                assert(entries[j].session_id != sid);
            }
        }
    }
}

/// A record is read from its own members: each field from the text, number,
/// list or switch that stands under its key, and none where nothing of that
/// sort does. Only a record that names its session is one.
pub proof fn law_record_is_read_from_its_members(v: JsonView, t: Seq<char>, c: Seq<Seq<char>>, n: int)
    ensures
        record_of(v) is Some <==> v.get("sessionId"@) matches Some(JsonView::Str(_)),
        record_of(v) matches Some(r) ==> {
            &&& v.get("sessionId"@) == Some(JsonView::Str(r.session_id))
            &&& (r.cwd == Some(t) <==> v.get("cwd"@) == Some(JsonView::Str(t)))
            &&& (r.title == Some(t) <==> v.get("title"@) == Some(JsonView::Str(t)))
            &&& (r.socket == Some(t) <==> v.get("socket"@) == Some(JsonView::Str(t)))
            &&& (r.label == Some(t) <==> v.get("label"@) == Some(JsonView::Str(t)))
            &&& (r.last_seen == Some(t) <==> v.get("lastSeen"@) == Some(JsonView::Str(t)))
            &&& (r.message_flag == Some(t) <==> v.get("messageFlag"@) == Some(JsonView::Str(t)))
            &&& (r.description == Some(t) <==> v.get("description"@) == Some(JsonView::Str(t)))
            &&& (r.model == Some(t) <==> v.get("model"@) == Some(JsonView::Str(t)))
            &&& (r.context_age == Some(t) <==> v.get("contextAge"@) == Some(JsonView::Str(t)))
            &&& (r.gui <==> v.get("gui"@) == Some(JsonView::Bool(true)))
            &&& (r.hidden <==> v.get("hidden"@) == Some(JsonView::Bool(true)))
            &&& (r.spawn_command == Some(c) <==> v.get("spawnCommand"@) == Some(str_array(c)))
            &&& (r.resume_command == Some(c) <==> v.get("resumeCommand"@) == Some(str_array(c)))
            &&& 0 <= n <= u32::MAX && v.get("pid"@) == Some(JsonView::Int(n)) ==> r.pid == Some(
                n as u32,
            )
            &&& 0 <= n <= u64::MAX && v.get("pidNamespace"@) == Some(JsonView::Int(n))
                ==> r.pid_namespace == Some(n as u64)
            &&& 0 <= n <= u64::MAX && v.get("entries"@) == Some(JsonView::Int(n)) ==> r.entries == Some(
                n as u64,
            )
            &&& 0 <= n <= u32::MAX && v.get("contextPercent"@) == Some(JsonView::Int(n))
                ==> r.context_percent == Some(n as u32)
            &&& v.get("pid"@) is None ==> r.pid is None
            &&& v.get("pidNamespace"@) is None ==> r.pid_namespace is None
            &&& v.get("entries"@) is None ==> r.entries is None
            &&& v.get("contextPercent"@) is None ==> r.context_percent is None
        },
{
    law_member_is_read_as_what_it_is(v, "spawnCommand"@, c);
    law_member_is_read_as_what_it_is(v, "resumeCommand"@, c);
    if 0 <= n <= u32::MAX {
        assert(n % 0x1_0000_0000 == n) by (nonlinear_arith)
            requires
                0 <= n <= 0xffff_ffff,
        ;
    }
}

/// A record of a file that is no record, or of one that is not named as one,
/// counts for nothing; any other comes after those before it.
pub proof fn law_each_record_file_is_read(
    names: Seq<Seq<char>>,
    docs: Seq<Seq<char>>,
    name: Seq<char>,
    doc: Seq<char>,
)
    requires
        names.len() == docs.len(),
    ensures
        stem_and_extension(name).1 == Some("json"@) && record_text(doc) is Some ==> records_in(
            names.push(name),
            docs.push(doc),
        ) == records_in(names, docs).push(record_text(doc)->0),
        stem_and_extension(name).1 != Some("json"@) || record_text(doc) is None ==> records_in(
            names.push(name),
            docs.push(doc),
        ) == records_in(names, docs),
        records_in(Seq::empty(), Seq::empty()).len() == 0,
{
    assert(names.push(name).drop_last() =~= names);
    assert(docs.push(doc).drop_last() =~= docs);
}

/// A live record's socket is the one that it names, with the label and process
/// that it names; what it leaves out is taken from the socket's name, and an
/// unnamed label is that of any agent. A record without a socket has none.
pub proof fn law_socket_is_told_by_its_record(e: RecordView, l: Seq<char>, n: nat)
    ensures
        e.socket is None <==> socket_of(e) is None,
        socket_of(e) matches Some(s) ==> {
            &&& e.socket == Some(s.path)
            &&& s.pid_namespace == e.pid_namespace
            &&& e.label is Some ==> s.label == e.label->0
            &&& e.pid is Some ==> s.pid == e.pid
            &&& path_name(s.path) matches Some(f) ==> {
                &&& socket_name(f) == Some((l, n)) ==> (e.label is None ==> s.label == l) && (
                e.pid is None ==> s.pid == Some(n as u32))
                &&& socket_name(f) is None ==> (e.label is None ==> s.label == "agent"@) && (
                e.pid is None ==> s.pid is None)
            }
        },
{
}

/// A process that is found is one of those that were seen, with that number in
/// that namespace, the first such; none is found only where there is none.
pub proof fn law_found_process_is_the_one_looked_for(procs: Seq<ProcInfo>, ns_pid: u32, ino: u64, k: int)
    ensures
        0 <= k < procs.len() && procs[k].pid_ns_ino == ino && procs[k].deepest_nspid == ns_pid && (
        forall|i: int|
            0 <= i < k ==> !((#[trigger] procs[i]).pid_ns_ino == ino && procs[i].deepest_nspid
                == ns_pid)) ==> host_pid_in(procs, ns_pid, ino) == Some(procs[k].host_pid),
        (forall|i: int|
            0 <= i < procs.len() ==> !((#[trigger] procs[i]).pid_ns_ino == ino
                && procs[i].deepest_nspid == ns_pid)) ==> host_pid_in(procs, ns_pid, ino) is None,
    decreases procs.len(),
{
    if procs.len() > 0 {
        let t = procs.drop_first();
        assert forall|i: int| 0 <= i < t.len() implies t[i] == procs[i + 1] by {}
        law_found_process_is_the_one_looked_for(t, ns_pid, ino, k - 1);
        if 0 < k < procs.len() {
            assert(t[k - 1] == procs[k]);
        }
    }
}

/// The number of a process in its deepest namespace is the last on the first
/// line that lists them, and there is none without such a line.
pub proof fn law_deepest_number_is_the_last_listed(status: Seq<char>, k: int)
    ensures
        0 <= k < lines(status).len() && has_prefix(lines(status)[k], "NSpid:"@) && (forall|i: int|
            0 <= i < k ==> !has_prefix(#[trigger] lines(status)[i], "NSpid:"@)) && words(
            lines(status)[k],
        ).len() > 0 ==> nspid_of(status) == parsed_number(
            words(lines(status)[k]).last(),
            u32::MAX as nat,
        ),
        (forall|i: int|
            0 <= i < lines(status).len() ==> !has_prefix(#[trigger] lines(status)[i], "NSpid:"@))
            ==> nspid_of(status) is None,
{
    lemma_first_with_prefix(lines(status), "NSpid:"@, k);
}

proof fn lemma_first_with_prefix(ls: Seq<Seq<char>>, prefix: Seq<char>, k: int)
    ensures
        0 <= k < ls.len() && has_prefix(ls[k], prefix) && (forall|i: int|
            0 <= i < k ==> !has_prefix(#[trigger] ls[i], prefix)) ==> first_with_prefix(ls, prefix)
            == Some(ls[k]),
        (forall|i: int| 0 <= i < ls.len() ==> !has_prefix(#[trigger] ls[i], prefix))
            ==> first_with_prefix(ls, prefix) is None,
    decreases ls.len(),
{
    if ls.len() > 0 {
        let t = ls.drop_first();
        assert forall|i: int| 0 <= i < t.len() implies t[i] == ls[i + 1] by {}
        lemma_first_with_prefix(t, prefix, k - 1);
        if 0 < k < ls.len() {
            assert(t[k - 1] == ls[k]);
        }
    }
}

/// An id is fit exactly where it is not empty, does not start with a hyphen, and
/// is made of ASCII letters, digits, dots, underscores and hyphens. What is fit
/// stays so when such a character is added.
pub proof fn law_fit_ids_are_plain(id: Seq<char>, c: char)
    ensures
        !session_id_ok(Seq::empty()),
        session_id_ok(seq![c]) <==> ('a' <= c <= 'z' || 'A' <= c <= 'Z' || '0' <= c <= '9' || c == '.'
            || c == '_'),
        session_id_ok(id) ==> (session_id_ok(id.push(c)) <==> ('a' <= c <= 'z' || 'A' <= c <= 'Z'
            || '0' <= c <= '9' || c == '.' || c == '_' || c == '-')),
        session_id_ok(id.push(c)) && id.len() > 0 ==> session_id_ok(id),
{
    assert(seq![c][0] == c);
    let x = id.push(c);
    assert(x[id.len() as int] == c);
    if session_id_ok(id) {
        assert(x[0] == id[0]);
        if session_id_char(c) {
            assert forall|i: int| 0 <= i < x.len() implies session_id_char(#[trigger] x[i]) by {
                if i < id.len() {
                    assert(x[i] == id[i]);
                }
            }
        }
    }
    if session_id_ok(x) && id.len() > 0 {
        assert(x[0] == id[0]);
        assert forall|i: int| 0 <= i < id.len() implies session_id_char(#[trigger] id[i]) by {
            assert(x[i] == id[i]);
        }
    }
}

/// Only what lies in an outbox has an owner, and only what lies beside the
/// records of a directory belongs to it: a file in any other directory speaks
/// for nobody.
pub proof fn law_other_places_speak_for_nobody(path: Seq<char>)
    ensures
        path_parent(path) is None ==> cwd_of_outbox(path) is None && cwd_of_record(path) is None,
        path_parent(path) matches Some(p) ==> {
            &&& path_name(p) != Some("outbox"@) ==> cwd_of_outbox(path) is None
            &&& path_name(p) != Some(".corral"@) ==> cwd_of_record(path) is None
            &&& path_parent(p) matches Some(q) ==> (path_name(q) != Some(".corral"@) ==> cwd_of_outbox(
                path,
            ) is None)
        },
{
}

/// A session that one record alone claims is that record's, wherever it stands;
/// what is found for a session claims it and was announced.
pub proof fn law_sole_claim_is_honoured(entries: Seq<RecordView>, sid: Seq<char>, i: int)
    ensures
        0 <= i < entries.len() && entries[i].session_id == sid && (forall|j: int|
            0 <= j < entries.len() && j != i ==> (#[trigger] entries[j]).session_id != sid)
            ==> sole_record(entries, sid) == Some(entries[i]),
        sole_record(entries, sid) matches Some(e) ==> e.session_id == sid && entries.contains(e),
        (forall|j: int| 0 <= j < entries.len() ==> (#[trigger] entries[j]).session_id != sid)
            ==> sole_record(entries, sid) is None,
{
    if 0 <= i < entries.len() && entries[i].session_id == sid && (forall|j: int|
        0 <= j < entries.len() && j != i ==> (#[trigger] entries[j]).session_id != sid) {
        assert(only_claim(entries, sid, i));
        let k = choose|k: int| only_claim(entries, sid, k);
        assert(only_claim(entries, sid, k));
        assert(k == i);
    }
    if sole_record(entries, sid) is Some {
        let k = choose|k: int| only_claim(entries, sid, k);
        assert(only_claim(entries, sid, k));
        assert(entries[k] == sole_record(entries, sid)->0);
    }
}

/// A record launches as it was announced: with its own id and directory filled
/// into the command for that, whatever the other is.
pub proof fn law_record_launches_as_announced(e: RecordView, other: Option<Seq<Seq<char>>>)
    ensures
        e.resume_argv() is Some <==> e.resume_command is Some,
        e.spawn_argv() is Some <==> e.spawn_command is Some,
        e.resume_command matches Some(c) ==> filled_in(
            e.resume_argv()->0,
            c,
            e.session_id,
            if e.cwd is Some {
                e.cwd->0
            } else {
                Seq::empty()
            },
        ),
        e.spawn_command matches Some(c) ==> filled_in(
            e.spawn_argv()->0,
            c,
            e.session_id,
            if e.cwd is Some {
                e.cwd->0
            } else {
                Seq::empty()
            },
        ),
        (RecordView { spawn_command: other, ..e }).resume_argv() == e.resume_argv(),
        (RecordView { resume_command: other, ..e }).spawn_argv() == e.spawn_argv(),
        e.launch_mode().gui == e.gui,
        e.launch_mode().message_flag == e.message_flag,
        e.launch_mode().hidden == e.hidden,
{
    if e.resume_command is Some {
        law_template_is_filled_in(e.resume_command->0, e.session_id, e.cwd);
    }
    if e.spawn_command is Some {
        law_template_is_filled_in(e.spawn_command->0, e.session_id, e.cwd);
    }
}

} // verus!
