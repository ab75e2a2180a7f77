//! Messages that agents leave for other agents.
use vstd::prelude::*;

use crate::curation::{lemma_filter_map_from, lemma_filter_map_has};
use crate::daemon::mailbox::{grant_line, lists, some_line_grants, Target, TargetView, SEP};
use crate::discovery::is_json_name;
use crate::json::{json_parse, parse, Json, JsonView};
use crate::order::{lemma_sorted_contains, sort, sorted_by, views, Less};
use crate::path::{file_name, is_path_before, path_before, path_name, stem_and_extension};
use crate::launch::opt_str;
use crate::text::{cat, cat3, copy_opt_string, has_prefix, has_suffix, lines, opt_text};

verus! {

/// One message from an agent to another.
#[derive(Debug, PartialEq, Eq)]
pub struct Message {
    pub id: String,
    pub from_cwd: String,
    /// The sender's session, under which it can be answered.
    pub from_session: Option<String>,
    pub target: Target,
    pub message: String,
    /// Whether an agent is to be started for it in any case.
    pub force_new: bool,
}

#[verifier::ext_equal]
pub struct MessageView {
    pub id: Seq<char>,
    pub from_cwd: Seq<char>,
    pub from_session: Option<Seq<char>>,
    pub target: TargetView,
    pub message: Seq<char>,
    pub force_new: bool,
}

impl View for Message {
    type V = MessageView;

    open spec fn view(&self) -> MessageView {
        MessageView {
            id: self.id@,
            from_cwd: self.from_cwd@,
            from_session: opt_text(self.from_session),
            target: self.target@,
            message: self.message@,
            force_new: self.force_new,
        }
    }
}

impl MessageView {
    /// The text that is delivered: it says which agent it comes from, and under
    /// which session that agent is answered.
    pub open spec fn tagged(self) -> Seq<char> {
        match self.from_session {
            Some(sid) => "[from agent in "@ + self.from_cwd + " (session "@ + sid + ")] "@ + self.message,
            None => "[from agent in "@ + self.from_cwd + "] "@ + self.message,
        }
    }

    /// What the operator is shown of the target.
    pub open spec fn target_label(self) -> Seq<char> {
        match self.target {
            TargetView::Dir(d) => d,
            TargetView::Session(s) => "session "@ + s,
        }
    }
}

fn copy_target(t: &Target) -> (r: Target)
    ensures
        r@ == t@,
{
    match t {
        Target::Dir(d) => Target::Dir(d.clone()),
        Target::Session(s) => Target::Session(s.clone()),
    }
}

impl Clone for Message {
    fn clone(&self) -> (r: Self)
        ensures
            r@ == self@,
    {
        Message {
            id: self.id.clone(),
            from_cwd: self.from_cwd.clone(),
            from_session: copy_opt_string(&self.from_session),
            target: copy_target(&self.target),
            message: self.message.clone(),
            force_new: self.force_new,
        }
    }
}

impl Message {
    /// The text that is delivered.
    pub fn tagged(&self) -> (r: String)
        ensures
            r@ == self@.tagged(),
    {
        let mut s = cat("[from agent in ", self.from_cwd.as_str());
        match &self.from_session {
            Some(sid) => {
                s.append(" (session ");
                s.append(sid.as_str());
                s.append(")] ");
            },
            None => {
                s.append("] ");
            },
        }
        s.append(self.message.as_str());
        s
    }

    /// What the operator is shown of the target.
    pub fn target_label(&self) -> (r: String)
        ensures
            r@ == self@.target_label(),
    {
        match &self.target {
            Target::Dir(d) => d.clone(),
            Target::Session(s) => cat("session ", s.as_str()),
        }
    }
}

/// The message that a document holds, if it names a sender, a text and a target;
/// a session wins over a directory.
pub open spec fn message_of(v: JsonView) -> Option<MessageView> {
    let target = match (v.str_at("targetSession"@), v.str_at("targetDir"@)) {
        (Some(s), _) => Some(TargetView::Session(s)),
        (None, Some(d)) => Some(TargetView::Dir(d)),
        (None, None) => None,
    };
    match (target, v.str_at("id"@), v.str_at("fromCwd"@), v.str_at("message"@)) {
        (Some(target), Some(id), Some(from_cwd), Some(message)) => Some(
            MessageView {
                id,
                from_cwd,
                from_session: v.str_at("fromSession"@),
                target,
                message,
                force_new: v.true_at("forceNew"@),
            },
        ),
        _ => None,
    }
}

/// The message that a document holds.
pub fn message_from(v: &Json) -> (r: Option<Message>)
    ensures
        match r {
            Some(m) => message_of(v@) == Some(m@),
            None => message_of(v@) is None,
        },
{
    let target = match v.str_at("targetSession") {
        Some(s) => Target::Session(s),
        None => match v.str_at("targetDir") {
            Some(d) => Target::Dir(d),
            None => {
                return None;
            },
        },
    };
    match v.str_at("id") {
        None => None,
        Some(id) => match v.str_at("fromCwd") {
            None => None,
            Some(from_cwd) => match v.str_at("message") {
                None => None,
                Some(message) => Some(
                    Message {
                        id,
                        from_cwd,
                        from_session: v.str_at("fromSession"),
                        target,
                        message,
                        force_new: v.true_at("forceNew"),
                    },
                ),
            },
        },
    }
}

/// The message that a text holds.
pub open spec fn message_in(text: Seq<char>) -> Option<MessageView> {
    match json_parse(text) {
        Some(v) => message_of(v),
        None => None,
    }
}

/// The message that a text holds.
pub fn parse_message(text: &str) -> (r: Option<Message>)
    ensures
        match r {
            Some(m) => message_in(text@) == Some(m@),
            None => message_in(text@) is None,
        },
{
    match parse(text) {
        Some(v) => message_from(&v),
        None => None,
    }
}

/// A mailbox file: its path, and its text where it could be read.
pub struct MailFile {
    pub path: String,
    pub text: Option<String>,
}

impl View for MailFile {
    type V = (Seq<char>, Option<Seq<char>>);

    open spec fn view(&self) -> (Seq<char>, Option<Seq<char>>) {
        (self.path@, opt_text(self.text))
    }
}

/// A path has the extension of a mailbox file.
pub open spec fn is_mail(path: Seq<char>) -> bool {
    match path_name(path) {
        Some(n) => stem_and_extension(n).1 == Some("json"@),
        None => false,
    }
}

/// The message of a mailbox file, with the file's path.
pub open spec fn mail_of(f: (Seq<char>, Option<Seq<char>>)) -> Option<(Seq<char>, MessageView)> {
    if !is_mail(f.0) {
        None
    } else {
        match f.1 {
            None => None,
            Some(t) => match message_in(t) {
                Some(m) => Some((f.0, m)),
                None => None,
            },
        }
    }
}

/// Files in the order of their paths.
pub open spec fn file_before(a: (Seq<char>, Option<Seq<char>>), b: (Seq<char>, Option<Seq<char>>)) -> bool {
    path_before(a.0, b.0)
}

struct ByPath;

impl<'a> Less<&'a MailFile> for ByPath {
    open spec fn lt(&self, a: (Seq<char>, Option<Seq<char>>), b: (Seq<char>, Option<Seq<char>>)) -> bool {
        file_before(a, b)
    }

    fn less(&self, a: &&'a MailFile, b: &&'a MailFile) -> (r: bool) {
        is_path_before(a.path.as_str(), b.path.as_str())
    }
}

/// The messages with their paths, by their views.
pub open spec fn mail_views(v: Seq<(String, Message)>) -> Seq<(Seq<char>, MessageView)> {
    Seq::new(v.len(), |i: int| (v[i].0@, v[i].1@))
}

/// The files, by their views.
pub open spec fn file_views(v: Seq<MailFile>) -> Seq<(Seq<char>, Option<Seq<char>>)> {
    Seq::new(v.len(), |i: int| v[i]@)
}

/// The messages that lie in an outbox, in the order of their paths: a file that
/// is no mailbox file, cannot be read or holds no message is passed over.
pub fn scan_outbox(files: &Vec<MailFile>) -> (r: Vec<(String, Message)>)
    ensures
        mail_views(r@) == sorted_by(
            file_views(files@),
            |a: (Seq<char>, Option<Seq<char>>), b: (Seq<char>, Option<Seq<char>>)| file_before(a, b),
        ).filter_map(|f: (Seq<char>, Option<Seq<char>>)| mail_of(f)),
        mail_views(r@) == mail_among(file_views(files@)),
{
    let mut refs: Vec<&MailFile> = Vec::new();
    let mut i: usize = 0;
    while i < files.len()
        invariant
            i <= files@.len(),
            refs@.len() == i,
            forall|j: int| 0 <= j < i ==> *(#[trigger] refs@[j]) == files@[j],
        decreases files@.len() - i,
    {
        refs.push(&files[i]);
        i = i + 1;
    }
    let l = ByPath;
    let sorted = sort(&refs, &l);
    let ghost all = views(sorted@);
    let ghost f = |f: (Seq<char>, Option<Seq<char>>)| mail_of(f);
    proof {
        assert(views(refs@) =~= file_views(files@));
        assert((|a: (Seq<char>, Option<Seq<char>>), b: (Seq<char>, Option<Seq<char>>)| l.lt(a, b)) =~= (|
            a: (Seq<char>, Option<Seq<char>>),
            b: (Seq<char>, Option<Seq<char>>),
        | file_before(a, b)));
    }
    let mut out: Vec<(String, Message)> = Vec::new();
    let mut k: usize = 0;
    proof {
        reveal(Seq::filter_map);
        assert(mail_views(out@) =~= all.take(0).filter_map(f));
    }
    while k < sorted.len()
        invariant
            k <= sorted@.len(),
            all == views(sorted@),
            f == (|f: (Seq<char>, Option<Seq<char>>)| mail_of(f)),
            mail_views(out@) == all.take(k as int).filter_map(f),
        decreases sorted@.len() - k,
    {
        let file = sorted[k];
        proof {
            assert(all[k as int] == file@);
            all.lemma_filter_map_take_succ(f, k as int);
        }
        let ghost was = out@;
        let named = match file_name(file.path.as_str()) {
            Some(n) => is_json_name(n.as_str()),
            None => false,
        };
        if named {
            match &file.text {
                Some(t) => match parse_message(t.as_str()) {
                    Some(m) => {
                        out.push((file.path.clone(), m));
                        assert(mail_views(out@) =~= mail_views(was) + seq![f(file@)->0]);
                    },
                    None => {
                        assert(mail_views(out@) =~= mail_views(was) + Seq::empty());
                    },
                },
                None => {
                    assert(mail_views(out@) =~= mail_views(was) + Seq::empty());
                },
            }
        } else {
            assert(mail_views(out@) =~= mail_views(was) + Seq::empty());
        }
        k = k + 1;
    }
    assert(all.take(all.len() as int) =~= all);
    out
}

// ---------------------------------------------------------------------------
// The whitelist
// ---------------------------------------------------------------------------
/// A whitelist lists a pair: some line grants it. A missing file lists nothing.
pub open spec fn listed(whitelist: Option<Seq<char>>, from: Seq<char>, target: Seq<char>) -> bool {
    whitelist matches Some(text) && some_line_grants(lines(text), from, target)
}

/// Whether a pair of directories is authorized, given the whitelist's text.
pub fn is_whitelisted(whitelist: Option<&str>, from: &str, target: &str) -> (r: bool)
    ensures
        r == listed(opt_str(whitelist), from@, target@),
{
    match whitelist {
        Some(text) => lists(text, from, target),
        None => false,
    }
}

/// What is appended to the whitelist to list a pair: one line, whatever the paths
/// hold.
pub fn whitelist_add(from: &str, target: &str) -> (r: String)
    ensures
        r@ == grant_line(from@, target@) + "\n"@,
{
    let mut line = cat3(from, SEP, target);
    line.append("\n");
    line
}

/// A message is taken as it was written: its id, its sender, its text, and its
/// target, a session before a directory where it names both. What misses one of
/// them is no message.
pub proof fn law_message_is_taken_as_it_was_written(v: JsonView, x: Seq<char>)
    ensures
        message_of(v) is Some <==> (v.get("id"@) matches Some(JsonView::Str(_))) && (v.get(
            "fromCwd"@,
        ) matches Some(JsonView::Str(_))) && (v.get("message"@) matches Some(JsonView::Str(_))) && ((
        v.get("targetSession"@) matches Some(JsonView::Str(_))) || (v.get("targetDir"@) matches Some(
            JsonView::Str(_),
        ))),
        message_of(v) matches Some(m) ==> {
            &&& v.get("id"@) == Some(JsonView::Str(m.id))
            &&& v.get("fromCwd"@) == Some(JsonView::Str(m.from_cwd))
            &&& v.get("message"@) == Some(JsonView::Str(m.message))
            &&& (m.from_session == Some(x) <==> v.get("fromSession"@) == Some(JsonView::Str(x)))
            &&& (m.force_new <==> v.get("forceNew"@) == Some(JsonView::Bool(true)))
            &&& v.get("targetSession"@) == Some(JsonView::Str(x)) ==> m.target == TargetView::Session(x)
            &&& !(v.get("targetSession"@) matches Some(JsonView::Str(_))) && v.get("targetDir"@)
                == Some(JsonView::Str(x)) ==> m.target == TargetView::Dir(x)
        },
{
}

/// What arrives ends with the message to the letter and says where it is from,
/// and under which session it can be answered where it has one.
pub proof fn law_arriving_text_ends_with_the_message(m: MessageView, sid: Seq<char>)
    ensures
        has_suffix(m.tagged(), m.message),
        has_prefix(m.tagged(), "[from agent in "@ + m.from_cwd),
        m.from_session == Some(sid) ==> m.tagged() == "[from agent in "@ + m.from_cwd + " (session "@
            + sid + ")] "@ + m.message,
        m.target matches TargetView::Dir(d) ==> m.target_label() == d,
        m.target matches TargetView::Session(s) ==> m.target_label() == "session "@ + s,
{
    let t = m.tagged();
    let p = "[from agent in "@ + m.from_cwd;
    assert(t.subrange(t.len() - m.message.len(), t.len() as int) =~= m.message);
    assert(t.subrange(0, p.len() as int) =~= p);
}

/// A file is mail where it is named as one and holds a message, and nothing else
/// is; its message comes under its own path.
pub proof fn law_mail_is_a_message_in_its_file(path: Seq<char>, text: Option<Seq<char>>)
    ensures
        mail_of((path, text)) matches Some(x) ==> {
            &&& x.0 == path
            &&& text is Some && message_in(text->0) == Some(x.1)
            &&& path_name(path) is Some && stem_and_extension(path_name(path)->0).1 == Some("json"@)
        },
        path_name(path) is Some && stem_and_extension(path_name(path)->0).1 == Some("json"@)
            && text is Some && message_in(text->0) is Some ==> mail_of((path, text)) is Some,
{
}

/// The mail among the files of an outbox, by path.
pub open spec fn mail_among(files: Seq<(Seq<char>, Option<Seq<char>>)>) -> Seq<(Seq<char>, MessageView)> {
    sorted_by(
        files,
        |a: (Seq<char>, Option<Seq<char>>), b: (Seq<char>, Option<Seq<char>>)| file_before(a, b),
    ).filter_map(|f: (Seq<char>, Option<Seq<char>>)| mail_of(f))
}

/// Every file that is mail is delivered, and nothing else is.
pub proof fn law_every_mail_is_found(
    files: Seq<(Seq<char>, Option<Seq<char>>)>,
    m: (Seq<char>, MessageView),
)
    ensures
        mail_among(files).contains(m) <==> exists|i: int|
            0 <= i < files.len() && mail_of(#[trigger] files[i]) == Some(m),
{
    let lt = |a: (Seq<char>, Option<Seq<char>>), b: (Seq<char>, Option<Seq<char>>)| file_before(a, b);
    let g = |f: (Seq<char>, Option<Seq<char>>)| mail_of(f);
    let s = sorted_by(files, lt);
    lemma_sorted_contains(files, lt);
    if mail_among(files).contains(m) {
        let i = lemma_filter_map_from(s, g, m);
        assert(s.contains(s[i]));
        assert(files.contains(s[i]));
        let k = choose|k: int| 0 <= k < files.len() && files[k] == s[i];
        assert(mail_of(files[k]) == Some(m));
    }
    if exists|i: int| 0 <= i < files.len() && mail_of(#[trigger] files[i]) == Some(m) {
        let i = choose|i: int| 0 <= i < files.len() && mail_of(#[trigger] files[i]) == Some(m);
        assert(files.contains(files[i]));
        assert(s.contains(files[i]));
        let k = choose|k: int| 0 <= k < s.len() && s[k] == files[i];
        lemma_filter_map_has(s, g, k);
    }
}

} // verus!
