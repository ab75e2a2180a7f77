//! The parsing boundary of the registry: what agents wrote goes in, records
//! that can be trusted come out.
use vstd::prelude::*;

use crate::approved_commands::{candidate, fits, proposed, registered, Approved, Template, TemplateView};
use crate::discovery::{
    cwd_from_outbox_path, cwd_of_outbox, is_json_name, parse_registry_json, record_text, records,
    session_id_ok, valid_session_id, RecordView, RegistryEntry,
};
use crate::launch::{opt_str, outcome};
use crate::order::{distinct, law_distinct};
use crate::path::{join_path, joined_path, split_extension, stem_and_extension};
use crate::text::{
    cat, chars_of, contains_text, control, first_chars, is_control, lines, opt_text, same,
    split_lines, take_chars, texts, trim, trimmed,
};

verus! {

/// The most characters that a displayed text keeps.
pub const MAX_TEXT: usize = 200;

/// The most bytes that a submission may hold.
pub const MAX_SUBMISSION: u64 = 262144;

/// How long the record of a dormant session is kept, in nanoseconds.
pub const DORMANT_MAX_AGE: u128 = 1209600000000000;

/// How long a pointer is left alone, in nanoseconds: its record may still be on
/// its way.
pub const POINTER_GRACE: u128 = 300000000000;

// ---------------------------------------------------------------------------
// Submissions
// ---------------------------------------------------------------------------
/// Why a submission was refused.
#[derive(Debug, Clone, Copy, PartialEq, Eq, Structural)]
pub enum SubmissionError {
    /// The path could not be opened.
    Unopenable,
    /// Not a regular file.
    NotRegularFile,
    /// Larger than the cap.
    TooLarge,
    /// The real path is in no directory's outbox.
    OutsideOutbox,
    /// Opened, but reading failed.
    Unreadable,
}

impl SubmissionError {
    /// The reason in words.
    pub open spec fn reason(self) -> Seq<char> {
        match self {
            SubmissionError::Unopenable => "cannot open the submitted file (missing, or written inside a mount namespace corrald cannot see, e.g. a workdir under a sandbox-private /tmp)"@,
            SubmissionError::NotRegularFile => "the submitted path is not a regular file"@,
            SubmissionError::TooLarge => "the submitted file exceeds the size cap"@,
            SubmissionError::OutsideOutbox => "the submitted file is not under <cwd>/.corral/outbox/"@,
            SubmissionError::Unreadable => "the submitted file could not be read"@,
        }
    }

    /// The reason in words.
    pub fn message(&self) -> (r: &'static str)
        ensures
            r@ == self.reason(),
    {
        match self {
            SubmissionError::Unopenable => "cannot open the submitted file (missing, or written inside a mount namespace corrald cannot see, e.g. a workdir under a sandbox-private /tmp)",
            SubmissionError::NotRegularFile => "the submitted path is not a regular file",
            SubmissionError::TooLarge => "the submitted file exceeds the size cap",
            SubmissionError::OutsideOutbox => "the submitted file is not under <cwd>/.corral/outbox/",
            SubmissionError::Unreadable => "the submitted file could not be read",
        }
    }
}

/// What an opened file is.
#[derive(Debug, Clone, Copy, PartialEq, Eq)]
pub struct FileFacts {
    pub regular: bool,
    pub len: u64,
}

/// The directory that a submission's file vouches for, before it is read: the
/// file was opened, is regular and not too large, and its real path lies in
/// that directory's outbox.
pub open spec fn admitted(facts: Option<FileFacts>, real_path: Option<Seq<char>>) -> Result<
    Seq<char>,
    SubmissionError,
> {
    match facts {
        None => Err(SubmissionError::Unopenable),
        Some(f) => if !f.regular {
            Err(SubmissionError::NotRegularFile)
        } else if f.len > MAX_SUBMISSION {
            Err(SubmissionError::TooLarge)
        } else {
            match real_path {
                None => Err(SubmissionError::Unopenable),
                Some(p) => match cwd_of_outbox(p) {
                    Some(cwd) => Ok(cwd),
                    None => Err(SubmissionError::OutsideOutbox),
                },
            }
        },
    }
}

/// Decides whether an opened file may be read as a submission, and for which
/// directory it speaks. `facts` is missing where the file could not be opened,
/// `real_path` where its real path could not be told.
pub fn admit_submission(facts: Option<FileFacts>, real_path: Option<&str>) -> (r: Result<
    String,
    SubmissionError,
>)
    ensures
        match admitted(facts, crate::launch::opt_str(real_path)) {
            Ok(cwd) => r matches Ok(c) && c@ == cwd,
            Err(e) => r matches Err(x) && x == e,
        },
{
    match facts {
        None => Err(SubmissionError::Unopenable),
        Some(f) => if !f.regular {
            Err(SubmissionError::NotRegularFile)
        } else if f.len > MAX_SUBMISSION {
            Err(SubmissionError::TooLarge)
        } else {
            match real_path {
                None => Err(SubmissionError::Unopenable),
                Some(p) => match cwd_from_outbox_path(p) {
                    Some(cwd) => Ok(cwd),
                    None => Err(SubmissionError::OutsideOutbox),
                },
            }
        },
    }
}

/// Resolves a submission: the directory that its place vouches for, and its
/// content. `content` is missing where reading failed.
pub fn resolve_submission(
    facts: Option<FileFacts>,
    real_path: Option<&str>,
    content: Option<String>,
) -> (r: Result<(String, String), SubmissionError>)
    ensures
        match (admitted(facts, crate::launch::opt_str(real_path)), opt_text(content)) {
            (Ok(cwd), Some(text)) => r matches Ok(x) && x.0@ == cwd && x.1@ == text,
            (Ok(_), None) => r matches Err(e) && e == SubmissionError::Unreadable,
            (Err(e), _) => r matches Err(x) && x == e,
        },
{
    match admit_submission(facts, real_path) {
        Ok(cwd) => match content {
            Some(text) => Ok((cwd, text)),
            None => Err(SubmissionError::Unreadable),
        },
        Err(e) => Err(e),
    }
}

/// A submission is only ever attributed to the directory in whose outbox it
/// really lies.
pub proof fn law_sender_is_where_the_file_lies(facts: Option<FileFacts>, real_path: Option<Seq<char>>)
    ensures
        admitted(facts, real_path) matches Ok(cwd) ==> real_path is Some && cwd_of_outbox(real_path->0) == Some(
            cwd,
        ),
{
}

// ---------------------------------------------------------------------------
// Pointers
// ---------------------------------------------------------------------------
/// The first line with anything on it, trimmed.
pub open spec fn first_filled(ls: Seq<Seq<char>>) -> Option<Seq<char>>
    decreases ls.len(),
{
    if ls.len() == 0 {
        None
    } else if trimmed(ls[0]).len() > 0 {
        Some(trimmed(ls[0]))
    } else {
        first_filled(ls.drop_first())
    }
}

/// The directory that a pointer's text names.
pub open spec fn pointed_dir(text: Seq<char>) -> Option<Seq<char>> {
    first_filled(lines(text))
}

/// The directories that the pointers name, in order.
pub open spec fn pointed_dirs(docs: Seq<Seq<char>>) -> Seq<Seq<char>>
    decreases docs.len(),
{
    if docs.len() == 0 {
        Seq::empty()
    } else {
        match pointed_dir(docs.last()) {
            Some(d) => pointed_dirs(docs.drop_last()).push(d),
            None => pointed_dirs(docs.drop_last()),
        }
    }
}

/// The directory that a pointer's text names: its first line with anything on
/// it.
pub fn pointer_cwd(text: &str) -> (r: Option<String>)
    ensures
        opt_text(r) == pointed_dir(text@),
{
    let ls = split_lines(text);
    let ghost t = texts(ls@);
    let mut i: usize = 0;
    assert(t.skip(0) =~= t);
    while i < ls.len()
        invariant
            i <= ls@.len(),
            t == texts(ls@),
            t == lines(text@),
            first_filled(t) == first_filled(t.skip(i as int)),
        decreases ls@.len() - i,
    {
        assert(t.skip(i as int)[0] == ls@[i as int]@);
        let l = trim(ls[i].as_str());
        if !l.as_str().is_empty() {
            return Some(l);
        }
        assert(t.skip(i as int).drop_first() =~= t.skip(i + 1));
        i = i + 1;
    }
    None
}

/// The distinct directories that the pointers name, given the pointers' texts.
pub fn read_pointers(pointers: &Vec<String>) -> (r: Vec<String>)
    ensures
        texts(r@) == distinct(pointed_dirs(texts(pointers@))),
{
    let mut out: Vec<String> = Vec::new();
    let mut i: usize = 0;
    let ghost t = texts(pointers@);
    assert(texts(out@) =~= distinct(pointed_dirs(t.take(0))));
    while i < pointers.len()
        invariant
            i <= pointers@.len(),
            t == texts(pointers@),
            texts(out@) == distinct(pointed_dirs(t.take(i as int))),
        decreases pointers@.len() - i,
    {
        assert(t.take(i + 1).drop_last() =~= t.take(i as int));
        assert(t[i as int] == pointers@[i as int]@);
        let ghost before = pointed_dirs(t.take(i as int));
        match pointer_cwd(pointers[i].as_str()) {
            Some(d) => {
                proof {
                    assert(before.push(d@).drop_last() =~= before);
                }
                let ghost prior = out@;
                if !contains_text(&out, d.as_str()) {
                    out.push(d);
                    assert(texts(out@) =~= texts(prior).push(d@));
                }
            },
            None => {},
        }
        i = i + 1;
    }
    assert(t.take(i as int) =~= t);
    out
}

/// The distinct real directories among those that were resolved; a symlink and
/// its target count once.
pub fn canonical_dirs(resolved: &Vec<String>) -> (r: Vec<String>)
    ensures
        texts(r@) == distinct(texts(resolved@)),
{
    let mut out: Vec<String> = Vec::new();
    let mut i: usize = 0;
    let ghost t = texts(resolved@);
    assert(texts(out@) =~= distinct(t.take(0)));
    while i < resolved.len()
        invariant
            i <= resolved@.len(),
            t == texts(resolved@),
            texts(out@) == distinct(t.take(i as int)),
        decreases resolved@.len() - i,
    {
        assert(t.take(i + 1).drop_last() =~= t.take(i as int));
        assert(t[i as int] == resolved@[i as int]@);
        let ghost prior = out@;
        if !contains_text(&out, resolved[i].as_str()) {
            out.push(resolved[i].clone());
            assert(texts(out@) =~= texts(prior).push(t[i as int]));
        }
        i = i + 1;
    }
    assert(t.take(i as int) =~= t);
    out
}

// ---------------------------------------------------------------------------
// Vetting
// ---------------------------------------------------------------------------
/// A text fit for display: without control characters, and cut to a length.
pub open spec fn displayable(s: Seq<char>) -> Seq<char> {
    first_chars(s.filter(|c: char| !control(c)), MAX_TEXT as int)
}

pub open spec fn opt_displayable(s: Option<Seq<char>>) -> Option<Seq<char>> {
    match s {
        Some(t) => Some(displayable(t)),
        None => None,
    }
}

/// Strips control characters and caps the length.
pub fn sanitize(s: &str) -> (r: String)
    ensures
        r@ == displayable(s@),
{
    let x = chars_of(s);
    let ghost p = |c: char| !control(c);
    let mut out = String::new();
    let mut i: usize = 0;
    assert(out@ =~= x@.take(0).filter(p)) by {
        reveal(Seq::filter);
    }
    while i < x.len()
        invariant
            i <= x@.len(),
            p == (|c: char| !control(c)),
            out@ == x@.take(i as int).filter(p),
        decreases x@.len() - i,
    {
        proof {
            reveal(Seq::filter);
            assert(x@.take(i + 1).drop_last() =~= x@.take(i as int));
        }
        if !is_control(x[i]) {
            out.push(x[i]);
        }
        i = i + 1;
    }
    assert(x@.take(i as int) =~= s@);
    take_chars(out.as_str(), MAX_TEXT)
}

/// A text that can be shown as it stands: at most two hundred characters, none
/// of them a control character.
pub open spec fn fit_to_show(s: Seq<char>) -> bool {
    s.len() <= 200 && clean(s)
}

/// A text without control characters.
pub open spec fn clean(s: Seq<char>) -> bool {
    forall|i: int| 0 <= i < s.len() ==> !control(#[trigger] s[i])
}

/// Whatever was announced, what is shown is clean and short. A clean text loses
/// only what is over the cap, one that is short besides loses nothing, and
/// a control character makes no difference, wherever it stands.
pub proof fn law_shown_text_is_clean_and_short(s: Seq<char>, more: Seq<char>)
    ensures
        fit_to_show(displayable(s)),
        fit_to_show(s) ==> displayable(s) == s,
        clean(s) && s.len() > 200 ==> displayable(s) == s.subrange(0, 200),
        forall|c: char| control(c) ==> #[trigger] displayable(s.push(c) + more) == displayable(s + more),
{
    let p = |c: char| !control(c);
    let f = s.filter(p);
    assert forall|i: int| 0 <= i < f.len() implies !control(#[trigger] f[i]) by {
        s.lemma_filter_pred(p, i);
    }
    if clean(s) {
        lemma_filter_keeps_all(s, p);
    }
    assert forall|c: char| control(c) implies #[trigger] displayable(s.push(c) + more) == displayable(
        s + more,
    ) by {
        Seq::filter_distributes_over_add(s.push(c), more, p);
        Seq::filter_distributes_over_add(s, more, p);
        assert(s.push(c).filter(p) == s.filter(p)) by {
            reveal(Seq::filter);
            assert(s.push(c).drop_last() =~= s);
        }
    }
}

/// A sequence all of whose items pass is its own filtrate.
proof fn lemma_filter_keeps_all<A>(s: Seq<A>, p: spec_fn(A) -> bool)
    requires
        forall|i: int| 0 <= i < s.len() ==> p(#[trigger] s[i]),
    ensures
        s.filter(p) == s,
    decreases s.len(),
{
    reveal(Seq::filter);
    if s.len() > 0 {
        lemma_filter_keeps_all(s.drop_last(), p);
        assert(s.drop_last().push(s.last()) =~= s);
    }
}

fn sanitize_opt(s: &Option<String>) -> (r: Option<String>)
    ensures
        opt_text(r) == opt_displayable(opt_text(*s)),
{
    match s {
        Some(t) => Some(sanitize(t.as_str())),
        None => None,
    }
}

/// Where a record's socket really leads.
#[derive(Debug, Clone, Copy, PartialEq, Eq, Structural)]
pub enum SocketPlace {
    /// A socket inside the record's own `.corral`.
    Inside,
    /// Nothing is there.
    Absent,
    /// Somewhere else, or not a socket.
    Foreign,
}

/// Where a socket leads, from what the file system says: whether the
/// directory's `.corral` is a real directory, whether anything stands at the
/// socket's path and is itself a socket, and where the path's parent and the
/// `.corral` really are. What the file system does not say reads as nothing
/// there: the socket is not published, and the record is not quarantined.
pub fn locate_socket(
    own_corral: bool,
    is_socket: Option<bool>,
    parent_dir: Option<&str>,
    corral_dir: Option<&str>,
) -> (r: SocketPlace)
    ensures
        r == (if !own_corral {
            SocketPlace::Foreign
        } else {
            match is_socket {
                None => SocketPlace::Absent,
                Some(s) => if !s {
                    SocketPlace::Foreign
                } else if parent_dir is None || corral_dir is None {
                    SocketPlace::Absent
                } else if parent_dir->0@ == corral_dir->0@ {
                    SocketPlace::Inside
                } else {
                    SocketPlace::Foreign
                },
            }
        }),
        r == socket_place(own_corral, is_socket, opt_str(parent_dir), opt_str(corral_dir)),
{
    if !own_corral {
        return SocketPlace::Foreign;
    }
    match is_socket {
        None => SocketPlace::Absent,
        Some(s) => if !s {
            SocketPlace::Foreign
        } else {
            match (parent_dir, corral_dir) {
                (Some(p), Some(c)) => if same(p, c) {
                    SocketPlace::Inside
                } else {
                    SocketPlace::Foreign
                },
                _ => SocketPlace::Absent,
            }
        },
    }
}

/// Where a record's socket stands, by what the file system says of it.
pub open spec fn socket_place(
    own_corral: bool,
    is_socket: Option<bool>,
    parent: Option<Seq<char>>,
    corral: Option<Seq<char>>,
) -> SocketPlace {
    if !own_corral {
        SocketPlace::Foreign
    } else {
        match (is_socket, parent, corral) {
            (None, _, _) => SocketPlace::Absent,
            (Some(false), _, _) => SocketPlace::Foreign,
            (Some(true), Some(p), Some(c)) => if p == c {
                SocketPlace::Inside
            } else {
                SocketPlace::Foreign
            },
            _ => SocketPlace::Absent,
        }
    }
}

/// A socket is inside only where the record's own `.corral` is a real directory
/// and a real socket stands in that very directory. What is no socket, or stands
/// elsewhere, is foreign, and so is all of a `.corral` that is not real; where
/// nothing is there, or cannot be looked at, it is absent.
pub proof fn law_socket_is_inside_only_its_own_directory(
    own_corral: bool,
    is_socket: Option<bool>,
    parent: Option<Seq<char>>,
    corral: Option<Seq<char>>,
)
    ensures
        socket_place(own_corral, is_socket, parent, corral) == SocketPlace::Inside <==> own_corral
            && is_socket == Some(true) && parent is Some && parent == corral,
        !own_corral ==> socket_place(own_corral, is_socket, parent, corral) == SocketPlace::Foreign,
        own_corral && is_socket is None ==> socket_place(own_corral, is_socket, parent, corral)
            == SocketPlace::Absent,
        own_corral && is_socket == Some(false) ==> socket_place(own_corral, is_socket, parent, corral)
            == SocketPlace::Foreign,
        own_corral && is_socket == Some(true) && parent is Some && corral is Some && parent != corral
            ==> socket_place(own_corral, is_socket, parent, corral) == SocketPlace::Foreign,
        own_corral && is_socket == Some(true) && (parent is None || corral is None) ==> socket_place(
            own_corral,
            is_socket,
            parent,
            corral,
        ) == SocketPlace::Absent,
{
}

/// The record as it is trusted, or nothing where it is quarantined.
pub open spec fn vetted(
    dir: Seq<char>,
    stem: Seq<char>,
    rec: RecordView,
    place: SocketPlace,
) -> Option<RecordView> {
    if !session_id_ok(rec.session_id) || rec.session_id != stem {
        None
    } else if rec.socket is Some && place == SocketPlace::Foreign {
        None
    } else {
        Some(
            RecordView {
                socket: if place == SocketPlace::Absent {
                    None
                } else {
                    rec.socket
                },
                cwd: Some(dir),
                title: opt_displayable(rec.title),
                description: opt_displayable(rec.description),
                model: opt_displayable(rec.model),
                ..rec
            },
        )
    }
}

/// Vets one record found in the directory `dir` under the name
/// `<file_stem>.json`: the id must be valid and the file's name; a socket that
/// leads elsewhere quarantines it, one that leads nowhere is cleared; the
/// directory is stamped and displayed texts are sanitized.
pub fn vet(dir: &str, file_stem: &str, rec: RegistryEntry, place: SocketPlace) -> (r: Option<
    RegistryEntry,
>)
    ensures
        r is Some == vetted(dir@, file_stem@, rec@, place) is Some,
        r matches Some(e) ==> vetted(dir@, file_stem@, rec@, place) == Some(e@),
{
    if !valid_session_id(rec.session_id.as_str()) || !same(rec.session_id.as_str(), file_stem) {
        return None;
    }
    let mut e = rec;
    if e.socket.is_some() {
        match place {
            SocketPlace::Inside => {},
            SocketPlace::Foreign => {
                return None;
            },
            SocketPlace::Absent => {
                e.socket = None;
            },
        }
    }
    e.cwd = Some(dir.to_owned());
    let title = sanitize_opt(&e.title);
    e.title = title;
    let description = sanitize_opt(&e.description);
    e.description = description;
    let model = sanitize_opt(&e.model);
    e.model = model;
    Some(e)
}

/// What passes the vetting speaks for the directory it was found in, whatever
/// it claims, under a valid id that is its file's name, and never for a socket
/// outside that directory.
pub proof fn law_vetted_record_is_its_place(
    dir: Seq<char>,
    stem: Seq<char>,
    rec: RecordView,
    place: SocketPlace,
)
    ensures
        vetted(dir, stem, rec, place) matches Some(e) ==> {
            &&& e.cwd == Some(dir)
            &&& e.session_id == stem
            &&& session_id_ok(e.session_id)
            &&& e.socket is Some ==> place == SocketPlace::Inside
        },
        forall|claimed: Option<Seq<char>>|
            vetted(dir, stem, #[trigger] with_cwd(rec, claimed), place) == vetted(
                dir,
                stem,
                rec,
                place,
            ),
{
    assert forall|claimed: Option<Seq<char>>|
        vetted(dir, stem, #[trigger] with_cwd(rec, claimed), place) == vetted(dir, stem, rec, place) by {
        if let Some(e) = vetted(dir, stem, rec, place) {
            assert(vetted(dir, stem, with_cwd(rec, claimed), place)->0 =~= e);
        }
    }
}

/// A record that claims a directory.
pub open spec fn with_cwd(rec: RecordView, claimed: Option<Seq<char>>) -> RecordView {
    RecordView { cwd: claimed, ..rec }
}

/// A crashed session, whose socket is gone, stays as a dormant record.
pub proof fn law_crashed_session_stays_resumable(
    dir: Seq<char>,
    stem: Seq<char>,
    rec: RecordView,
)
    requires
        session_id_ok(rec.session_id),
        rec.session_id == stem,
    ensures
        vetted(dir, stem, rec, SocketPlace::Absent) is Some,
        vetted(dir, stem, rec, SocketPlace::Absent)->0.socket is None,
        vetted(dir, stem, rec, SocketPlace::Absent)->0.resume_command == rec.resume_command,
{
}

/// A record passes exactly where its session's id is fit for a name and is the
/// name of its file, and it names no socket of somebody else's.
pub proof fn law_record_passes_in_its_own_place(
    dir: Seq<char>,
    stem: Seq<char>,
    rec: RecordView,
    place: SocketPlace,
)
    ensures
        vetted(dir, stem, rec, place) is Some <==> session_id_ok(stem) && rec.session_id == stem
            && (rec.socket is None || place != SocketPlace::Foreign),
        rec.socket is None ==> vetted(dir, stem, rec, place) == vetted(
            dir,
            stem,
            rec,
            SocketPlace::Absent,
        ),
{
}

/// A record that passes is what was announced: its process, its commands, its
/// launch options, its label, when it was last seen and what it counts are kept
/// to the letter. Only its directory, a socket that is not there and the texts
/// that are displayed may differ, and a text is there exactly where one was
/// announced.
pub proof fn law_vetting_keeps_what_was_announced(
    dir: Seq<char>,
    stem: Seq<char>,
    rec: RecordView,
    place: SocketPlace,
)
    ensures
        vetted(dir, stem, rec, place) matches Some(e) ==> {
            &&& e.session_id == rec.session_id
            &&& e.pid == rec.pid
            &&& e.pid_namespace == rec.pid_namespace
            &&& e.spawn_command == rec.spawn_command
            &&& e.resume_command == rec.resume_command
            &&& e.label == rec.label
            &&& e.last_seen == rec.last_seen
            &&& e.gui == rec.gui
            &&& e.message_flag == rec.message_flag
            &&& e.hidden == rec.hidden
            &&& e.entries == rec.entries
            &&& e.context_percent == rec.context_percent
            &&& e.context_age == rec.context_age
            &&& place == SocketPlace::Inside ==> e.socket == rec.socket
            &&& e.socket is Some ==> e.socket == rec.socket
            &&& e.title is Some == rec.title is Some
            &&& e.description is Some == rec.description is Some
            &&& e.model is Some == rec.model is Some
            &&& rec.title matches Some(t) ==> (fit_to_show(t) ==> e.title == Some(t))
            &&& rec.description matches Some(t) ==> (fit_to_show(t) ==> e.description == Some(t))
            &&& rec.model matches Some(t) ==> (fit_to_show(t) ==> e.model == Some(t))
            &&& e.title matches Some(t) ==> fit_to_show(t)
            &&& e.description matches Some(t) ==> fit_to_show(t)
            &&& e.model matches Some(t) ==> fit_to_show(t)
        },
{
    if rec.title is Some {
        law_shown_text_is_clean_and_short(rec.title->0, Seq::empty());
    }
    if rec.description is Some {
        law_shown_text_is_clean_and_short(rec.description->0, Seq::empty());
    }
    if rec.model is Some {
        law_shown_text_is_clean_and_short(rec.model->0, Seq::empty());
    }
}

// ---------------------------------------------------------------------------
// One directory's records
// ---------------------------------------------------------------------------
/// A file in a directory's record store: its name, its text, and how long ago
/// it was changed, where that is known.
#[derive(Debug, PartialEq, Eq)]
pub struct RecordFile {
    pub name: String,
    pub text: String,
    pub age: Option<u128>,
}

pub struct RecordFileView {
    pub name: Seq<char>,
    pub text: Seq<char>,
    pub age: Option<u128>,
}

impl View for RecordFile {
    type V = RecordFileView;

    open spec fn view(&self) -> RecordFileView {
        RecordFileView { name: self.name@, text: self.text@, age: self.age }
    }
}

pub open spec fn record_files(v: Seq<RecordFile>) -> Seq<RecordFileView> {
    Seq::new(v.len(), |i: int| v[i]@)
}

/// The record in a file, if its name and its text are those of one.
pub open spec fn file_record(f: RecordFileView) -> Option<RecordView> {
    if stem_and_extension(f.name).1 == Some("json"@) {
        record_text(f.text)
    } else {
        None
    }
}

/// A dormant record that nobody touched for too long.
pub open spec fn is_stale(f: RecordFileView) -> bool {
    file_record(f) is Some && file_record(f)->0.socket is None && f.age is Some && f.age->0
        > DORMANT_MAX_AGE
}

/// What a directory's file contributes, given where sockets lead.
pub open spec fn curated_file(
    dir: Seq<char>,
    f: RecordFileView,
    place: spec_fn(Seq<char>) -> SocketPlace,
) -> Option<RecordView> {
    match file_record(f) {
        Some(rec) => if is_stale(f) {
            None
        } else {
            vetted(
                dir,
                stem_and_extension(f.name).0,
                rec,
                match rec.socket {
                    Some(s) => place(s),
                    None => SocketPlace::Absent,
                },
            )
        },
        None => None,
    }
}

/// The vetted records of a directory, in order.
pub open spec fn curated(
    dir: Seq<char>,
    files: Seq<RecordFileView>,
    place: spec_fn(Seq<char>) -> SocketPlace,
) -> Seq<RecordView> {
    files.filter_map(|f: RecordFileView| curated_file(dir, f, place))
}

/// The names of the stale records of a directory, in order.
pub open spec fn stale_files(files: Seq<RecordFileView>) -> Seq<Seq<char>> {
    files.filter_map(
        |f: RecordFileView|
            if is_stale(f) {
                Some(f.name)
            } else {
                None
            },
    )
}

/// A locator tells where sockets lead.
pub open spec fn locates<F: Fn(&str) -> SocketPlace>(
    f: F,
    place: spec_fn(Seq<char>) -> SocketPlace,
) -> bool {
    forall|s: &str, p: SocketPlace| #[trigger] call_ensures(f, (s,), p) ==> p == place(s@)
}

/// What became of a directory's record store.
#[derive(Debug, PartialEq, Eq)]
pub struct Curated {
    /// The vetted records.
    pub records: Vec<RegistryEntry>,
    /// The files that are to be deleted.
    pub stale: Vec<String>,
}

/// Vets the record store of one real directory. `locate` tells where a socket
/// leads.
pub fn curate_dir<F: Fn(&str) -> SocketPlace>(
    dir: &str,
    files: &Vec<RecordFile>,
    locate: &F,
) -> (r: Curated)
    requires
        forall|s: &str| call_requires(*locate, (s,)),
    ensures
        forall|i: int|
            0 <= i < r.records@.len() ==> (#[trigger] r.records@[i])@.cwd == Some(dir@)
                && session_id_ok(r.records@[i]@.session_id),
        texts(r.stale@) == stale_files(record_files(files@)),
        forall|place: spec_fn(Seq<char>) -> SocketPlace| #[trigger]
            locates(*locate, place) ==> records(r.records@) == curated(
                dir@,
                record_files(files@),
                place,
            ),
{
    let mut out: Vec<RegistryEntry> = Vec::new();
    let mut stale: Vec<String> = Vec::new();
    let ghost fv = record_files(files@);
    let ghost st = |f: RecordFileView|
        if is_stale(f) {
            Some(f.name)
        } else {
            None
        };
    let mut i: usize = 0;
    proof {
        reveal(Seq::filter_map);
        assert(texts(stale@) =~= fv.take(0).filter_map(st));
        assert forall|place: spec_fn(Seq<char>) -> SocketPlace| #[trigger]
            locates(*locate, place) implies records(out@) == curated(dir@, fv.take(0), place) by {
            assert(records(out@) =~= curated(dir@, fv.take(0), place));
        }
    }
    while i < files.len()
        invariant
            i <= files@.len(),
            fv == record_files(files@),
            st == (|f: RecordFileView|
                if is_stale(f) {
                    Some(f.name)
                } else {
                    None
                }),
            forall|s: &str| call_requires(*locate, (s,)),
            forall|k: int|
                0 <= k < out@.len() ==> (#[trigger] out@[k])@.cwd == Some(dir@) && session_id_ok(
                    out@[k]@.session_id,
                ),
            texts(stale@) == fv.take(i as int).filter_map(st),
            forall|place: spec_fn(Seq<char>) -> SocketPlace| #[trigger]
                locates(*locate, place) ==> records(out@) == curated(
                    dir@,
                    fv.take(i as int),
                    place,
                ),
        decreases files@.len() - i,
    {
        let f = &files[i];
        assert(fv[i as int] == f@);
        proof {
            fv.lemma_filter_map_take_succ(st, i as int);
            assert forall|place: spec_fn(Seq<char>) -> SocketPlace| #[trigger]
                locates(*locate, place) implies curated(dir@, fv.take(i + 1), place) == (
            match curated_file(dir@, fv[i as int], place) {
                Some(e) => curated(dir@, fv.take(i as int), place).push(e),
                None => curated(dir@, fv.take(i as int), place),
            }) by {
                fv.lemma_filter_map_take_succ(
                    |f: RecordFileView| curated_file(dir@, f, place),
                    i as int,
                );
            }
        }
        let rec = if is_json_name(f.name.as_str()) {
            parse_registry_json(f.text.as_str())
        } else {
            None
        };
        match rec {
            Some(e) => {
                let old_enough = match f.age {
                    Some(a) => a > DORMANT_MAX_AGE,
                    None => false,
                };
                if e.socket.is_none() && old_enough {
                    let ghost prior = stale@;
                    stale.push(f.name.clone());
                    assert(texts(stale@) =~= texts(prior).push(f@.name));
                } else {
                    let mut place = SocketPlace::Absent;
                    if let Some(s) = &e.socket {
                        let path = s.as_str();
                        place = locate(path);
                        assert(call_ensures(*locate, (path,), place));
                    }
                    let stem = split_extension(f.name.as_str()).0;
                    let ghost ev = e@;
                    let ghost prior = out@;
                    match vet(dir, stem.as_str(), e, place) {
                        Some(v) => {
                            out.push(v);
                            assert(records(out@) =~= records(prior).push(v@));
                        },
                        None => {},
                    }
                }
            },
            None => {},
        }
        i = i + 1;
    }
    assert(fv.take(i as int) =~= fv);
    Curated { records: out, stale }
}

/// The directory of a directory's own records.
pub fn record_dir(cwd: &str) -> (r: String)
    ensures
        r@ == joined_path(joined_path(cwd@, ".corral"@), "registry"@),
{
    join_path(join_path(cwd, ".corral").as_str(), "registry")
}

/// The path of a session's own record.
pub open spec fn record_path(cwd: Seq<char>, id: Seq<char>) -> Seq<char> {
    joined_path(joined_path(joined_path(cwd, ".corral"@), "registry"@), id + ".json"@)
}

/// The files of a dormant session: its record, and its pointer where the pointer
/// store is known.
pub open spec fn session_files(
    cwd: Seq<char>,
    id: Seq<char>,
    pointer_dir: Option<Seq<char>>,
) -> Seq<Seq<char>> {
    match pointer_dir {
        Some(d) => seq![record_path(cwd, id), joined_path(d, id)],
        None => seq![record_path(cwd, id)],
    }
}

/// The files that forgetting a dormant session deletes, in order: its record,
/// and its pointer where the pointer store is known.
pub fn forget_dormant(cwd: &str, session_id: &str, pointer_dir: Option<&str>) -> (r: Vec<String>)
    ensures
        texts(r@) == session_files(cwd@, session_id@, opt_str(pointer_dir)),
{
    let mut out: Vec<String> = Vec::new();
    let name = cat(session_id, ".json");
    out.push(join_path(record_dir(cwd).as_str(), name.as_str()));
    match pointer_dir {
        Some(d) => {
            out.push(join_path(d, session_id));
            assert(texts(out@) =~= seq![
                record_path(cwd@, session_id@),
                joined_path(d@, session_id@),
            ]);
        },
        None => {
            assert(texts(out@) =~= seq![record_path(cwd@, session_id@)]);
        },
    }
    out
}

/// What deleting a file came to.
#[derive(Debug, PartialEq, Eq)]
pub enum Removal {
    Removed,
    /// There was no such file.
    Missing,
    /// It could not be deleted, in these words.
    Failed(String),
}

/// The first fault among removals; a file that was not there is none.
pub open spec fn first_fault(v: Seq<Removal>) -> Result<(), Seq<char>>
    decreases v.len(),
{
    if v.len() == 0 {
        Ok(())
    } else {
        match v[0] {
            Removal::Failed(e) => Err(e@),
            _ => first_fault(v.drop_first()),
        }
    }
}

/// What forgetting a session came to: deleting what is gone already is no fault,
/// so that forgetting it twice is harmless.
pub fn forgotten(removals: &Vec<Removal>) -> (r: Result<(), String>)
    ensures
        outcome(r) == first_fault(removals@),
{
    let mut i: usize = 0;
    assert(removals@.skip(0) =~= removals@);
    while i < removals.len()
        invariant
            i <= removals@.len(),
            first_fault(removals@) == first_fault(removals@.skip(i as int)),
        decreases removals@.len() - i,
    {
        assert(removals@.skip(i as int).drop_first() =~= removals@.skip(i + 1));
        match &removals[i] {
            Removal::Failed(e) => {
                return Err(e.clone());
            },
            _ => {},
        }
        i = i + 1;
    }
    Ok(())
}

/// An answer is true of the files: a file that was removed or could not be was
/// there, a missing one was not.
pub open spec fn true_of(files: Set<Seq<char>>, path: Seq<char>, a: Removal) -> bool {
    files.contains(path) == !(a is Missing)
}

/// The files after a removal that answered so.
pub open spec fn left_by(files: Set<Seq<char>>, path: Seq<char>, a: Removal) -> Set<Seq<char>> {
    if a is Removed {
        files.remove(path)
    } else {
        files
    }
}

/// Each of the answers is true of the files that the removals before it left.
pub open spec fn truthful(files: Set<Seq<char>>, paths: Seq<Seq<char>>, v: Seq<Removal>) -> bool
    decreases paths.len(),
{
    v.len() == paths.len() && (paths.len() == 0 || (true_of(files, paths[0], v[0]) && truthful(
        left_by(files, paths[0], v[0]),
        paths.drop_first(),
        v.drop_first(),
    )))
}

/// The files that removals leave.
pub open spec fn left(
    files: Set<Seq<char>>,
    paths: Seq<Seq<char>>,
    v: Seq<Removal>,
) -> Set<Seq<char>>
    decreases paths.len(),
{
    if paths.len() == 0 || v.len() == 0 {
        files
    } else {
        left(left_by(files, paths[0], v[0]), paths.drop_first(), v.drop_first())
    }
}

/// Forgetting is without fault exactly when no removal failed; a missing file is
/// no failure.
pub proof fn law_forgetting_is_without_fault_unless_a_removal_failed(v: Seq<Removal>)
    ensures
        first_fault(v) is Ok <==> forall|i: int| 0 <= i < v.len() ==> !(#[trigger] v[i] is Failed),
    decreases v.len(),
{
    if v.len() > 0 {
        let t = v.drop_first();
        law_forgetting_is_without_fault_unless_a_removal_failed(t);
        if first_fault(v) is Ok {
            assert forall|i: int| 0 <= i < v.len() implies !(#[trigger] v[i] is Failed) by {
                if i > 0 {
                    assert(t[i - 1] == v[i]);
                }
            }
        } else if !(v[0] is Failed) {
            let k = choose|k: int| 0 <= k < t.len() && #[trigger] t[k] is Failed;
            assert(v[k + 1] == t[k]);
        }
    }
}

/// Forgetting touches no other file, adds none, and without a fault leaves none
/// of the session's. A file whose removal succeeded is gone also where that of
/// another failed.
pub proof fn law_forgetting_leaves_nothing(
    files: Set<Seq<char>>,
    paths: Seq<Seq<char>>,
    v: Seq<Removal>,
)
    requires
        truthful(files, paths, v),
    ensures
        left(files, paths, v).subset_of(files),
        forall|f: Seq<char>|
            !paths.contains(f) ==> (#[trigger] left(files, paths, v).contains(f) == files.contains(f)),
        forall|i: int|
            0 <= i < v.len() && !(#[trigger] v[i] is Failed) ==> !left(files, paths, v).contains(
                paths[i],
            ),
        first_fault(v) is Ok ==> forall|i: int|
            0 <= i < paths.len() ==> !left(files, paths, v).contains(#[trigger] paths[i]),
    decreases paths.len(),
{
    law_forgetting_is_without_fault_unless_a_removal_failed(v);
    let end = left(files, paths, v);
    if paths.len() > 0 {
        let (ps, t) = (paths.drop_first(), v.drop_first());
        law_forgetting_leaves_nothing(left_by(files, paths[0], v[0]), ps, t);
        assert forall|f: Seq<char>| !paths.contains(f) implies #[trigger] end.contains(f) == files.contains(f) by {
            assert(f != paths[0]);
            assert(!ps.contains(f)) by {
                if ps.contains(f) {
                    let k = choose|k: int| 0 <= k < ps.len() && ps[k] == f;
                    assert(paths[k + 1] == f);
                }
            }
        }
        assert forall|i: int| 0 <= i < v.len() && !(#[trigger] v[i] is Failed) implies !end.contains(paths[i]) by {
            if i > 0 {
                assert(t[i - 1] == v[i]);
                assert(ps[i - 1] == paths[i]);
            }
        }
    }
    if first_fault(v) is Ok {
        assert forall|i: int| 0 <= i < paths.len() implies !end.contains(#[trigger] paths[i]) by {
            assert(!(v[i] is Failed));
        }
    }
}

/// Where none of the files is there, forgetting is without fault and changes
/// nothing.
proof fn lemma_nothing_to_forget(files: Set<Seq<char>>, paths: Seq<Seq<char>>, v: Seq<Removal>)
    requires
        truthful(files, paths, v),
        forall|i: int| 0 <= i < paths.len() ==> !files.contains(#[trigger] paths[i]),
    ensures
        first_fault(v) is Ok,
        left(files, paths, v) == files,
    decreases paths.len(),
{
    if paths.len() > 0 {
        let ps = paths.drop_first();
        assert(!files.contains(paths[0]));
        assert forall|i: int| 0 <= i < ps.len() implies !files.contains(#[trigger] ps[i]) by {
            assert(ps[i] == paths[i + 1]);
        }
        lemma_nothing_to_forget(files, ps, v.drop_first());
    }
}

/// Forgetting twice is harmless: after one without fault a second is without
/// fault too, and changes nothing.
pub proof fn law_forgetting_twice_is_harmless(
    files: Set<Seq<char>>,
    paths: Seq<Seq<char>>,
    first: Seq<Removal>,
    second: Seq<Removal>,
)
    requires
        truthful(files, paths, first),
        first_fault(first) is Ok,
        truthful(left(files, paths, first), paths, second),
    ensures
        first_fault(second) is Ok,
        left(left(files, paths, first), paths, second) == left(files, paths, first),
{
    law_forgetting_leaves_nothing(files, paths, first);
    lemma_nothing_to_forget(left(files, paths, first), paths, second);
}

/// A record that cannot be deleted is the fault that is given, and the pointer
/// goes all the same.
pub proof fn law_the_pointer_goes_though_the_record_stays(
    files: Set<Seq<char>>,
    cwd: Seq<char>,
    id: Seq<char>,
    dir: Seq<char>,
    v: Seq<Removal>,
)
    requires
        truthful(files, session_files(cwd, id, Some(dir)), v),
        v[0] is Failed,
        v[1] is Removed,
    ensures
        v[0] matches Removal::Failed(e) && first_fault(v) == Err::<(), Seq<char>>(e@),
        !left(files, session_files(cwd, id, Some(dir)), v).contains(joined_path(dir, id)),
{
    law_forgetting_leaves_nothing(files, session_files(cwd, id, Some(dir)), v);
    assert(session_files(cwd, id, Some(dir))[1] == joined_path(dir, id));
}

/// A pointer: its name is the session's id. The text is missing where it could
/// not be read.
#[derive(Debug, PartialEq, Eq)]
pub struct PointerFile {
    pub name: String,
    pub text: Option<String>,
    pub age: Option<u128>,
}

pub struct PointerView {
    pub name: Seq<char>,
    pub text: Option<Seq<char>>,
    pub age: Option<u128>,
}

impl View for PointerFile {
    type V = PointerView;

    open spec fn view(&self) -> PointerView {
        PointerView { name: self.name@, text: opt_text(self.text), age: self.age }
    }
}

pub open spec fn pointers(v: Seq<PointerFile>) -> Seq<PointerView> {
    Seq::new(v.len(), |i: int| v[i]@)
}

/// The record that a pointer stands for.
pub open spec fn pointer_record(p: PointerView) -> Option<Seq<char>> {
    match p.text {
        Some(t) => match pointed_dir(t) {
            Some(cwd) => Some(record_path(cwd, p.name)),
            None => None,
        },
        None => None,
    }
}

/// A pointer past its grace whose record is gone, or that names no directory.
pub open spec fn orphaned(p: PointerView, there: spec_fn(Seq<char>) -> bool) -> bool {
    &&& p.age is Some && p.age->0 >= POINTER_GRACE
    &&& match pointer_record(p) {
        Some(r) => !there(r),
        None => true,
    }
}

/// Some pointer of that name is past its grace.
pub open spec fn past_grace(ps: Seq<PointerView>, name: Seq<char>) -> bool {
    exists|k: int|
        0 <= k < ps.len() && (#[trigger] ps[k]).name == name && ps[k].age is Some && ps[k].age->0
            >= POINTER_GRACE
}

/// The names of the orphaned pointers, in order.
pub open spec fn orphans(ps: Seq<PointerView>, there: spec_fn(Seq<char>) -> bool) -> Seq<Seq<char>> {
    ps.filter_map(
        |p: PointerView|
            if orphaned(p, there) {
                Some(p.name)
            } else {
                None
            },
    )
}

/// The names of the pointers to delete: those whose session's record is gone.
/// `exists_at` tells whether there is a file at a path.
pub fn prune_orphan_pointers<F: Fn(&str) -> bool>(ps: &Vec<PointerFile>, exists_at: &F) -> (r: Vec<
    String,
>)
    requires
        forall|s: &str| call_requires(*exists_at, (s,)),
    ensures
        forall|there: spec_fn(Seq<char>) -> bool| #[trigger]
            crate::launch::decides(*exists_at, there) ==> texts(r@) == orphans(
                pointers(ps@),
                there,
            ),
        forall|i: int| 0 <= i < r@.len() ==> past_grace(pointers(ps@), (#[trigger] r@[i])@),
{
    let mut out: Vec<String> = Vec::new();
    let ghost pv = pointers(ps@);
    let mut i: usize = 0;
    proof {
        reveal(Seq::filter_map);
        assert forall|there: spec_fn(Seq<char>) -> bool| #[trigger]
            crate::launch::decides(*exists_at, there) implies texts(out@) == orphans(
            pv.take(0),
            there,
        ) by {
            assert(texts(out@) =~= orphans(pv.take(0), there));
        }
    }
    while i < ps.len()
        invariant
            i <= ps@.len(),
            pv == pointers(ps@),
            forall|s: &str| call_requires(*exists_at, (s,)),
            forall|there: spec_fn(Seq<char>) -> bool| #[trigger]
                crate::launch::decides(*exists_at, there) ==> texts(out@) == orphans(
                    pv.take(i as int),
                    there,
                ),
            forall|j: int| 0 <= j < out@.len() ==> past_grace(pv, (#[trigger] out@[j])@),
        decreases ps@.len() - i,
    {
        let p = &ps[i];
        assert(pv[i as int] == p@);
        proof {
            assert forall|there: spec_fn(Seq<char>) -> bool| #[trigger]
                crate::launch::decides(*exists_at, there) implies orphans(pv.take(i + 1), there) == (
            if orphaned(pv[i as int], there) {
                orphans(pv.take(i as int), there).push(pv[i as int].name)
            } else {
                orphans(pv.take(i as int), there)
            }) by {
                pv.lemma_filter_map_take_succ(
                    |p: PointerView|
                        if orphaned(p, there) {
                            Some(p.name)
                        } else {
                            None
                        },
                    i as int,
                );
            }
        }
        let ripe = match p.age {
            Some(a) => a >= POINTER_GRACE,
            None => false,
        };
        if ripe {
            let cwd = match &p.text {
                Some(t) => pointer_cwd(t.as_str()),
                None => None,
            };
            let mut gone = true;
            if let Some(c) = &cwd {
                let name = cat(p.name.as_str(), ".json");
                let path = join_path(record_dir(c.as_str()).as_str(), name.as_str());
                let at = path.as_str();
                let b = exists_at(at);
                assert(call_ensures(*exists_at, (at,), b));
                gone = !b;
            }
            let ghost prior = out@;
            if gone {
                out.push(p.name.clone());
                assert(texts(out@) =~= texts(prior).push(p@.name));
                assert(past_grace(pv, p@.name)) by {
                    assert(pv[i as int].name == p@.name);
                }
            }
        }
        i = i + 1;
    }
    assert(pv.take(i as int) =~= pv);
    out
}

/// The pointers that stay.
pub open spec fn kept_pointers(
    ps: Seq<PointerView>,
    there: spec_fn(Seq<char>) -> bool,
) -> Seq<PointerView> {
    ps.filter(|p: PointerView| !orphaned(p, there))
}

/// A pointer stays while its record is there, and as long as it is young or of
/// unknown age.
pub proof fn law_pointer_in_use_stays(
    ps: Seq<PointerView>,
    there: spec_fn(Seq<char>) -> bool,
    i: int,
)
    requires
        0 <= i < ps.len(),
        (pointer_record(ps[i]) matches Some(r) && there(r)) || ps[i].age is None || ps[i].age->0
            < POINTER_GRACE,
    ensures
        kept_pointers(ps, there).contains(ps[i]),
{
    ps.lemma_filter_contains(|p: PointerView| !orphaned(p, there), i);
}

/// Pruning what a pruning left prunes nothing.
pub proof fn law_pruning_twice_is_harmless(
    ps: Seq<PointerView>,
    there: spec_fn(Seq<char>) -> bool,
)
    ensures
        orphans(kept_pointers(ps, there), there).len() == 0,
{
    let kept = kept_pointers(ps, there);
    assert forall|i: int| 0 <= i < kept.len() implies !orphaned(#[trigger] kept[i], there) by {
        ps.lemma_filter_pred(|p: PointerView| !orphaned(p, there), i);
    }
    lemma_no_orphans(kept, there);
}

proof fn lemma_no_orphans(ps: Seq<PointerView>, there: spec_fn(Seq<char>) -> bool)
    requires
        forall|i: int| 0 <= i < ps.len() ==> !orphaned(#[trigger] ps[i], there),
    ensures
        orphans(ps, there).len() == 0,
    decreases ps.len(),
{
    reveal(Seq::filter_map);
    if ps.len() > 0 {
        let f = |p: PointerView|
            if orphaned(p, there) {
                Some(p.name)
            } else {
                None
            };
        lemma_no_orphans(ps.drop_last(), there);
        ps.lemma_filter_map_take_succ(f, ps.len() - 1);
        assert(ps.take(ps.len() as int) =~= ps);
        assert(ps.take(ps.len() - 1) =~= ps.drop_last());
        assert(f(ps[ps.len() - 1]) is None);
    }
}

// ---------------------------------------------------------------------------
// The registration gate over all records
// ---------------------------------------------------------------------------
/// The vetted records by the registration gate.
#[derive(Debug, PartialEq, Eq)]
pub struct Split {
    /// Those that may be published and routed to.
    pub registered: Vec<RegistryEntry>,
    /// The distinct launch sets that still need the operator.
    pub pending: Vec<(String, Template)>,
}

pub open spec fn launch_sets(v: Seq<(String, Template)>) -> Seq<(Seq<char>, TemplateView)> {
    Seq::new(v.len(), |i: int| (v[i].0@, v[i].1@))
}

/// The launch set that a record still needs approved.
pub open spec fn needs_approval(
    e: RecordView,
    store: Map<Seq<char>, TemplateView>,
) -> Option<(Seq<char>, TemplateView)> {
    if fits(e, store) {
        None
    } else {
        match e.label {
            Some(l) => Some((l, proposed(e))),
            None => None,
        }
    }
}

/// The records that fit the store, in order.
pub open spec fn published(
    es: Seq<RecordView>,
    store: Map<Seq<char>, TemplateView>,
) -> Seq<RecordView> {
    es.filter(|e: RecordView| fits(e, store))
}

/// The launch sets of the records that do not fit, each once, in order.
pub open spec fn pending_sets(
    es: Seq<RecordView>,
    store: Map<Seq<char>, TemplateView>,
) -> Seq<(Seq<char>, TemplateView)> {
    distinct(es.filter_map(|e: RecordView| needs_approval(e, store)))
}

/// Whether a launch set is among `v`.
pub fn has_launch_set(v: &Vec<(String, Template)>, label: &str, t: &Template) -> (r: bool)
    ensures
        r == launch_sets(v@).contains((label@, t@)),
{
    let mut i: usize = 0;
    while i < v.len()
        invariant
            i <= v@.len(),
            forall|j: int| 0 <= j < i ==> #[trigger] launch_sets(v@)[j] != (label@, t@),
        decreases v@.len() - i,
    {
        assert(launch_sets(v@)[i as int] == (v@[i as int].0@, v@[i as int].1@));
        if same(v[i].0.as_str(), label) && v[i].1.same(t) {
            return true;
        }
        i = i + 1;
    }
    false
}

/// Applies the registration gate: only records that fit the store are
/// registered; of the others each distinct launch set is pending once. A record
/// without a kind is dropped.
pub fn partition(vetted: Vec<RegistryEntry>, approved: &Approved) -> (r: Split)
    ensures
        records(r.registered@) == published(records(vetted@), approved@),
        launch_sets(r.pending@) == pending_sets(records(vetted@), approved@),
{
    let ghost s = records(vetted@);
    let ghost p = |e: RecordView| fits(e, approved@);
    let ghost n = |e: RecordView| needs_approval(e, approved@);
    let mut registered_out: Vec<RegistryEntry> = Vec::new();
    let mut pending: Vec<(String, Template)> = Vec::new();
    let mut i: usize = 0;
    proof {
        reveal(Seq::filter);
        reveal(Seq::filter_map);
        assert(records(registered_out@) =~= s.take(0).filter(p));
        assert(launch_sets(pending@) =~= distinct(s.take(0).filter_map(n)));
    }
    while i < vetted.len()
        invariant
            i <= vetted@.len(),
            s == records(vetted@),
            p == (|e: RecordView| fits(e, approved@)),
            n == (|e: RecordView| needs_approval(e, approved@)),
            records(registered_out@) == s.take(i as int).filter(p),
            launch_sets(pending@) == distinct(s.take(i as int).filter_map(n)),
        decreases vetted@.len() - i,
    {
        let rec = &vetted[i];
        assert(s[i as int] == rec@);
        let ghost before = s.take(i as int).filter_map(n);
        proof {
            reveal(Seq::filter);
            assert(s.take(i + 1).drop_last() =~= s.take(i as int));
            s.lemma_filter_map_take_succ(n, i as int);
            assert(s.take(i + 1).filter_map(n) =~= (match n(s[i as int]) {
                Some(x) => before.push(x),
                None => before,
            }));
        }
        if registered(rec, approved) {
            let ghost prior = registered_out@;
            registered_out.push(rec.clone());
            assert(records(registered_out@) =~= records(prior).push(rec@));
        } else {
            match &rec.label {
                Some(label) => {
                    let cand = candidate(rec);
                    let ghost x = (label@, cand@);
                    assert(before.push(x).drop_last() =~= before);
                    let ghost prior = pending@;
                    if !has_launch_set(&pending, label.as_str(), &cand) {
                        pending.push((label.clone(), cand));
                        assert(launch_sets(pending@) =~= launch_sets(prior).push(x));
                    }
                },
                None => {},
            }
        }
        i = i + 1;
    }
    assert(s.take(i as int) =~= s);
    Split { registered: registered_out, pending }
}

/// Nothing is published whose kind and commands were not approved, and no
/// launch set is asked for twice.
pub proof fn law_only_registered_is_published(
    es: Seq<RecordView>,
    store: Map<Seq<char>, TemplateView>,
)
    ensures
        forall|i: int|
            0 <= i < published(es, store).len() ==> fits(#[trigger] published(es, store)[i], store),
        pending_sets(es, store).no_duplicates(),
{
    let p = |e: RecordView| fits(e, store);
    assert forall|i: int| 0 <= i < published(es, store).len() implies fits(
        #[trigger] published(es, store)[i],
        store,
    ) by {
        es.lemma_filter_pred(p, i);
    }
    law_distinct(es.filter_map(|e: RecordView| needs_approval(e, store)));
}

/// A submission is admitted exactly where it is a regular file within the cap, of
/// a quarter of a mebibyte, whose real place is an outbox, and its sender is the
/// owner of that outbox. Each other submission is refused for the first thing
/// that is wrong with it.
pub proof fn law_submission_is_admitted_from_an_outbox(
    facts: Option<FileFacts>,
    real_path: Option<Seq<char>>,
)
    ensures
        admitted(facts, real_path) is Ok <==> {
            &&& facts is Some && facts->0.regular && facts->0.len <= 256 * 1024
            &&& real_path is Some && cwd_of_outbox(real_path->0) is Some
        },
        facts is None ==> admitted(facts, real_path) == Err::<Seq<char>, SubmissionError>(
            SubmissionError::Unopenable,
        ),
        facts matches Some(f) ==> {
            &&& !f.regular ==> admitted(facts, real_path) == Err::<Seq<char>, SubmissionError>(
                SubmissionError::NotRegularFile,
            )
            &&& f.regular && f.len > 256 * 1024 ==> admitted(facts, real_path) == Err::<
                Seq<char>,
                SubmissionError,
            >(SubmissionError::TooLarge)
            &&& f.regular && f.len <= 256 * 1024 && real_path is None ==> admitted(facts, real_path)
                == Err::<Seq<char>, SubmissionError>(SubmissionError::Unopenable)
            &&& f.regular && f.len <= 256 * 1024 ==> (real_path matches Some(p) ==> (cwd_of_outbox(
                p,
            ) is None ==> admitted(facts, real_path) == Err::<Seq<char>, SubmissionError>(
                SubmissionError::OutsideOutbox,
            )))
        },
{
}

/// A pointer names the first line of it that is not blank, without the blanks
/// around it, and one without such a line names nothing.
pub proof fn law_pointer_names_its_first_line(text: Seq<char>, k: int)
    ensures
        0 <= k < lines(text).len() && trimmed(lines(text)[k]).len() > 0 && (forall|i: int|
            0 <= i < k ==> trimmed(#[trigger] lines(text)[i]).len() == 0) ==> pointed_dir(text)
            == Some(trimmed(lines(text)[k])),
        (forall|i: int| 0 <= i < lines(text).len() ==> trimmed(#[trigger] lines(text)[i]).len() == 0)
            ==> pointed_dir(text) is None,
{
    lemma_first_filled(lines(text), k);
}

proof fn lemma_first_filled(ls: Seq<Seq<char>>, k: int)
    ensures
        0 <= k < ls.len() && trimmed(ls[k]).len() > 0 && (forall|i: int|
            0 <= i < k ==> trimmed(#[trigger] ls[i]).len() == 0) ==> first_filled(ls) == Some(
            trimmed(ls[k]),
        ),
        (forall|i: int| 0 <= i < ls.len() ==> trimmed(#[trigger] ls[i]).len() == 0) ==> first_filled(
            ls,
        ) is None,
    decreases ls.len(),
{
    if ls.len() > 0 {
        let t = ls.drop_first();
        assert forall|i: int| 0 <= i < t.len() implies t[i] == ls[i + 1] by {}
        lemma_first_filled(t, k - 1);
        if 0 < k < ls.len() {
            assert(t[k - 1] == ls[k]);
        }
    }
}

/// The directories that are known are those that the pointers name.
pub proof fn law_known_directories_are_those_pointed_to(docs: Seq<Seq<char>>, dir: Seq<char>)
    ensures
        pointed_dirs(docs).contains(dir) <==> exists|i: int|
            0 <= i < docs.len() && pointed_dir(#[trigger] docs[i]) == Some(dir),
    decreases docs.len(),
{
    if docs.len() > 0 {
        let t = docs.drop_last();
        let p = pointed_dirs(t);
        let r = pointed_dirs(docs);
        let n = docs.len() - 1;
        law_known_directories_are_those_pointed_to(t, dir);
        if r.contains(dir) {
            let k = choose|k: int| 0 <= k < r.len() && r[k] == dir;
            if k < p.len() {
                assert(p[k] == dir);
                assert(p.contains(dir));
                let i = choose|i: int| 0 <= i < t.len() && pointed_dir(#[trigger] t[i]) == Some(dir);
                assert(docs[i] == t[i]);
            } else {
                assert(pointed_dir(docs[n]) == Some(dir));
            }
        }
        if exists|i: int| 0 <= i < docs.len() && pointed_dir(#[trigger] docs[i]) == Some(dir) {
            let i = choose|i: int| 0 <= i < docs.len() && pointed_dir(#[trigger] docs[i]) == Some(dir);
            if i < n {
                assert(t[i] == docs[i]);
                assert(p.contains(dir));
                let k = choose|k: int| 0 <= k < p.len() && p[k] == dir;
                assert(r[k] == dir);
            } else {
                assert(r[p.len() as int] == dir);
            }
        }
    }
}

/// A record goes stale when its session has no socket and nothing changed it for
/// more than two weeks; a session that has a socket never does, nor one of
/// unknown age. A pointer is spared for five minutes.
pub proof fn law_only_old_sleepers_go_stale(f: RecordFileView)
    ensures
        DORMANT_MAX_AGE == 14 * 24 * 3600 * 1000000000,
        POINTER_GRACE == 5 * 60 * 1000000000,
        file_record(f) matches Some(r) ==> (is_stale(f) <==> r.socket is None && f.age is Some
            && f.age->0 > 14 * 24 * 3600 * 1000000000),
        file_record(f) is None ==> !is_stale(f),
        stem_and_extension(f.name).1 != Some("json"@) ==> file_record(f) is None,
{
}

/// What a directory's records come to is what its files hold: a record file that
/// is not stale and whose record passes is kept, as it passed. What is stale is
/// deleted.
pub proof fn law_each_good_file_is_kept(
    dir: Seq<char>,
    files: Seq<RecordFileView>,
    place: spec_fn(Seq<char>) -> SocketPlace,
    i: int,
)
    requires
        0 <= i < files.len(),
    ensures
        is_stale(files[i]) ==> stale_files(files).contains(files[i].name) && curated_file(
            dir,
            files[i],
            place,
        ) is None,
        !is_stale(files[i]) ==> (file_record(files[i]) matches Some(r) ==> (r.socket is None ==> curated_file(
            dir,
            files[i],
            place,
        ) == vetted(dir, stem_and_extension(files[i].name).0, r, SocketPlace::Absent)) && (
        r.socket matches Some(s) ==> curated_file(dir, files[i], place) == vetted(
            dir,
            stem_and_extension(files[i].name).0,
            r,
            place(s),
        ))),
        curated_file(dir, files[i], place) matches Some(e) ==> curated(dir, files, place).contains(e),
        curated(dir, files, place).len() <= files.len(),
{
    lemma_filter_map_has(files, |f: RecordFileView| curated_file(dir, f, place), i);
    lemma_filter_map_has(
        files,
        |f: RecordFileView|
            if is_stale(f) {
                Some(f.name)
            } else {
                None
            },
        i,
    );
}

pub proof fn lemma_filter_map_has<A, B>(s: Seq<A>, f: spec_fn(A) -> Option<B>, i: int)
    requires
        0 <= i < s.len(),
    ensures
        s.filter_map(f).len() <= s.len(),
        f(s[i]) matches Some(b) ==> s.filter_map(f).contains(b),
    decreases s.len(),
{
    let t = s.drop_last();
    let r = s.filter_map(f);
    let q = t.filter_map(f);
    reveal(Seq::filter_map);
    assert(q.len() <= t.len()) by {
        if t.len() > 0 {
            lemma_filter_map_has(t, f, 0);
        }
    }
    if i < t.len() {
        lemma_filter_map_has(t, f, i);
        assert(t[i] == s[i]);
        if f(s[i]) is Some {
            let k = choose|k: int| 0 <= k < q.len() && q[k] == f(s[i])->0;
            assert(r[k] == q[k]);
        }
    } else if f(s[i]) is Some {
        assert(r[q.len() as int] == f(s[i])->0);
    }
}

/// A pointer goes when it is past its grace and the record that it stands for is
/// not there, or it stands for none.
pub proof fn law_orphaned_pointer_goes(
    ps: Seq<PointerView>,
    there: spec_fn(Seq<char>) -> bool,
    i: int,
)
    requires
        0 <= i < ps.len(),
        ps[i].age is Some,
        ps[i].age->0 >= 5 * 60 * 1000000000,
        ps[i].text matches Some(t) ==> (pointed_dir(t) matches Some(cwd) ==> !there(
            record_path(cwd, ps[i].name),
        )),
    ensures
        orphans(ps, there).contains(ps[i].name),
{
    lemma_filter_map_has(
        ps,
        |p: PointerView|
            if orphaned(p, there) {
                Some(p.name)
            } else {
                None
            },
        i,
    );
}

/// Forgetting a session deletes its own record in its own directory, and its
/// pointer where pointers are kept, and no other file.
pub proof fn law_forgetting_names_the_sessions_own_files(
    cwd: Seq<char>,
    id: Seq<char>,
    dir: Seq<char>,
)
    ensures
        session_files(cwd, id, None) == seq![record_path(cwd, id)],
        session_files(cwd, id, Some(dir)) == seq![record_path(cwd, id), joined_path(dir, id)],
        record_path(cwd, id) == joined_path(
            joined_path(joined_path(cwd, ".corral"@), "registry"@),
            id + ".json"@,
        ),
{
}

/// A record whose commands the operator has registered is published, and no
/// other; one that is not, and has a label, is put to the operator with its
/// launch set.
pub proof fn law_record_is_published_or_put_to_the_operator(
    es: Seq<RecordView>,
    store: Map<Seq<char>, TemplateView>,
    i: int,
)
    requires
        0 <= i < es.len(),
    ensures
        fits(es[i], store) ==> published(es, store).contains(es[i]),
        !fits(es[i], store) ==> !published(es, store).contains(es[i]),
        !fits(es[i], store) ==> (es[i].label matches Some(l) ==> pending_sets(es, store).contains(
            (l, proposed(es[i])),
        )),
        forall|k: int|
            0 <= k < published(es, store).len() ==> es.contains(#[trigger] published(es, store)[k]),
{
    let p = |e: RecordView| fits(e, store);
    let f = |e: RecordView| needs_approval(e, store);
    if p(es[i]) {
        es.lemma_filter_contains(p, i);
    } else if es.filter(p).contains(es[i]) {
        let k = choose|k: int| 0 <= k < es.filter(p).len() && es.filter(p)[k] == es[i];
        es.lemma_filter_pred(p, k);
    }
    lemma_filter_map_has(es, f, i);
    law_distinct(es.filter_map(f));
    assert forall|k: int| 0 <= k < published(es, store).len() implies es.contains(
        #[trigger] published(es, store)[k],
    ) by {
        assert(es.filter(p).contains(es.filter(p)[k]));
        es.lemma_filter_contains_rev(p, es.filter(p)[k]);
    }
}

pub proof fn lemma_filter_map_from<A, B>(s: Seq<A>, f: spec_fn(A) -> Option<B>, b: B) -> (i: int)
    requires
        s.filter_map(f).contains(b),
    ensures
        0 <= i < s.len(),
        f(s[i]) == Some(b),
    decreases s.len(),
{
    let t = s.drop_last();
    let r = s.filter_map(f);
    let q = t.filter_map(f);
    reveal(Seq::filter_map);
    let k = choose|k: int| 0 <= k < r.len() && r[k] == b;
    if k < q.len() {
        assert(q[k] == b);
        let i = lemma_filter_map_from(t, f, b);
        assert(t[i] == s[i]);
        i
    } else {
        s.len() - 1
    }
}

/// A record that is kept is that of one of the directory's files, as it passed,
/// and a file that is deleted is one that went stale.
pub proof fn law_kept_record_is_that_of_a_file(
    dir: Seq<char>,
    files: Seq<RecordFileView>,
    place: spec_fn(Seq<char>) -> SocketPlace,
    e: RecordView,
    name: Seq<char>,
)
    ensures
        curated(dir, files, place).contains(e) ==> exists|i: int|
            0 <= i < files.len() && curated_file(dir, #[trigger] files[i], place) == Some(e),
        stale_files(files).contains(name) ==> exists|i: int|
            0 <= i < files.len() && (#[trigger] files[i]).name == name && is_stale(files[i]),
{
    if curated(dir, files, place).contains(e) {
        let i = lemma_filter_map_from(files, |f: RecordFileView| curated_file(dir, f, place), e);
        assert(curated_file(dir, files[i], place) == Some(e));
    }
    if stale_files(files).contains(name) {
        let i = lemma_filter_map_from(
            files,
            |f: RecordFileView|
                if is_stale(f) {
                    Some(f.name)
                } else {
                    None
                },
            name,
        );
        assert(files[i].name == name && is_stale(files[i]));
    }
}

/// What is put to the operator is the launch set of a record that is not
/// registered, under its own label.
pub proof fn law_operator_is_asked_about_real_records(
    es: Seq<RecordView>,
    store: Map<Seq<char>, TemplateView>,
    label: Seq<char>,
    t: TemplateView,
)
    requires
        pending_sets(es, store).contains((label, t)),
    ensures
        exists|i: int|
            0 <= i < es.len() && (#[trigger] es[i]).label == Some(label) && proposed(es[i]) == t
                && !fits(es[i], store),
{
    let f = |e: RecordView| needs_approval(e, store);
    law_distinct(es.filter_map(f));
    let i = lemma_filter_map_from(es, f, (label, t));
    assert(es[i].label == Some(label));
}

} // verus!
