//! The control socket's conversation: a request line in, one reply line out,
//! and at most one submission handed to the router.
use vstd::prelude::*;

use crate::daemon::mailbox::{
    asks_list, authorize, build_roster, claims_other_dir, is_list, judged, may_reach, parse,
    parse_submit, reachable, roster_json, roster_of, roster_reply, session_claims_other_dir,
    submission_text, target_dir, Ack, Submission, SubmissionView, Target, TargetView,
};
use crate::discovery::{records, RecordView, RegistryEntry};
use crate::json::{json_parse, json_print, JsonView};
use crate::launch::{decides, opt_str};
use crate::text::{
    cat, cat3, chars_of, control, ends_with, has_prefix, has_suffix, is_control, opt_text, trim, trimmed,
};

verus! {

/// The most bytes of one request line.
pub const MAX_REQUEST: u64 = 8192;

/// The most connections that are served at once.
pub const MAX_CONCURRENT: usize = 64;

// ---------------------------------------------------------------------------
// Replies
// ---------------------------------------------------------------------------
/// How a character stands inside a quoted text.
pub open spec fn escaped(c: char) -> Seq<char> {
    if c == '"' {
        "\\\""@
    } else if c == '\\' {
        "\\\\"@
    } else if control(c) {
        " "@
    } else {
        seq![c]
    }
}

pub open spec fn escaped_text(s: Seq<char>) -> Seq<char>
    decreases s.len(),
{
    if s.len() == 0 {
        Seq::empty()
    } else {
        escaped_text(s.drop_last()) + escaped(s.last())
    }
}

/// A text in quotes.
pub open spec fn quoted(s: Seq<char>) -> Seq<char> {
    "\""@ + escaped_text(s) + "\""@
}

/// Quotes a text: quotes and backslashes are escaped, control characters become
/// blanks.
pub fn json_string(s: &str) -> (r: String)
    ensures
        r@ == quoted(s@),
{
    let x = chars_of(s);
    let mut out = "\"".to_owned();
    let mut i: usize = 0;
    assert(out@ =~= "\""@ + escaped_text(x@.take(0)));
    while i < x.len()
        invariant
            i <= x@.len(),
            out@ == "\""@ + escaped_text(x@.take(i as int)),
        decreases x@.len() - i,
    {
        let c = x[i];
        proof {
            assert(x@.take(i + 1).drop_last() =~= x@.take(i as int));
        }
        let ghost was = out@;
        if c == '"' {
            out.append("\\\"");
        } else if c == '\\' {
            out.append("\\\\");
        } else if is_control(c) {
            out.append(" ");
        } else {
            out.push(c);
        }
        assert(out@ =~= was + escaped(c));
        i = i + 1;
    }
    assert(x@.take(i as int) =~= s@);
    out.append("\"");
    out
}

/// The reply line that gives a verdict.
pub open spec fn ack_line(status: Seq<char>) -> Seq<char> {
    "{\"status\":\""@ + status + "\"}\n"@
}

/// The reply line that refuses a request.
pub open spec fn reject_line(reason: Seq<char>) -> Seq<char> {
    "{\"status\":\"malformed\",\"reason\":"@ + quoted(reason) + "}\n"@
}

/// The reply line that gives a verdict.
pub fn ack(status: &str) -> (r: String)
    ensures
        r@ == ack_line(status@),
{
    cat3("{\"status\":\"", status, "\"}\n")
}

/// The reply line that refuses a request, with the reason.
pub fn reject(reason: &str) -> (r: String)
    ensures
        r@ == reject_line(reason@),
{
    let q = json_string(reason);
    cat3("{\"status\":\"malformed\",\"reason\":", q.as_str(), "}\n")
}

/// A quoted reason never ends its line early.
pub proof fn law_quoted_is_one_line(s: Seq<char>)
    ensures
        !quoted(s).contains('\n'),
    decreases s.len(),
{
    reveal_strlit("\"");
    lemma_escaped_one_line(s);
    let q = quoted(s);
    assert forall|i: int| 0 <= i < q.len() implies q[i] != '\n' by {
        if 0 < i < q.len() - 1 {
            assert(escaped_text(s)[i - 1] == q[i]);
        }
    }
}

proof fn lemma_escaped_one_line(s: Seq<char>)
    ensures
        forall|i: int| 0 <= i < escaped_text(s).len() ==> #[trigger] escaped_text(s)[i] != '\n',
    decreases s.len(),
{
    reveal_strlit("\\\"");
    reveal_strlit("\\\\");
    reveal_strlit(" ");
    if s.len() > 0 {
        lemma_escaped_one_line(s.drop_last());
        let e = escaped_text(s.drop_last());
        assert forall|i: int| 0 <= i < escaped_text(s).len() implies #[trigger] escaped_text(s)[i]
            != '\n' by {
            if i < e.len() {
                assert(escaped_text(s)[i] == e[i]);
            } else {
                assert(escaped_text(s)[i] == escaped(s.last())[i - e.len()]);
            }
        }
    }
}

// ---------------------------------------------------------------------------
// Requests
// ---------------------------------------------------------------------------
/// What a request line asks for.
#[derive(Debug, PartialEq, Eq)]
pub enum Request {
    /// To open the submission at a path.
    Open(String),
    /// Nothing that can be served; the reply line says why.
    Refuse(String),
}

/// What a request line asks for: `line` is what was read, `read` how many bytes
/// that took, at most the cap.
pub fn read_request(line: &str, read: u64) -> (r: Request)
    ensures
        if read == MAX_REQUEST && !has_suffix(line@, "\n"@) {
            r matches Request::Refuse(l) && l@ == reject_line(
                "the request line exceeds the size cap"@,
            )
        } else {
            match json_parse(trimmed(line@)) {
                Some(v) => match v.str_at("submit"@) {
                    Some(path) => r matches Request::Open(p) && p@ == path,
                    None => r matches Request::Refuse(l) && l@ == reject_line(
                        "the request is not a {\"submit\":\"<path>\"} envelope"@,
                    ),
                },
                None => r matches Request::Refuse(l) && l@ == reject_line(
                    "the request is not a {\"submit\":\"<path>\"} envelope"@,
                ),
            }
        },
        asked_to_open(line@, read) == (match r {
            Request::Open(p) => Some(p@),
            Request::Refuse(_) => None,
        }),
{
    if read == MAX_REQUEST && !ends_with(line, "\n") {
        return Request::Refuse(reject("the request line exceeds the size cap"));
    }
    let t = trim(line);
    match parse_submit(t.as_str()) {
        Some(path) => Request::Open(path),
        None => Request::Refuse(
            reject("the request is not a {\"submit\":\"<path>\"} envelope"),
        ),
    }
}

/// The directory that a submission's content asks to spawn in, which is to be
/// resolved before the submission is answered.
pub fn spawn_dir(content: &str) -> (r: Option<String>)
    ensures
        opt_text(r) == (match submission_text(content@) {
            Some(s) => match s.kind.target() {
                TargetView::Dir(d) => Some(d),
                TargetView::Session(_) => None,
            },
            None => None,
        }),
        opt_text(r) == directory_asked_for(content@),
{
    match parse(content) {
        Some(s) => match s.target() {
            Target::Dir(d) => Some(d),
            Target::Session(_) => None,
        },
        None => None,
    }
}

/// The answer to a submission: the reply line, what is handed to the router,
/// and what goes to the journal.
#[derive(Debug, PartialEq, Eq)]
pub struct Answer {
    pub line: String,
    pub route: Option<Submission>,
    pub note: Option<String>,
}

#[verifier::ext_equal]
pub struct AnswerView {
    pub line: Seq<char>,
    pub route: Option<SubmissionView>,
    pub note: Option<Seq<char>>,
}

impl View for Answer {
    type V = AnswerView;

    open spec fn view(&self) -> AnswerView {
        AnswerView {
            line: self.line@,
            route: match self.route {
                Some(s) => Some(s@),
                None => None,
            },
            note: opt_text(self.note),
        }
    }
}

pub open spec fn refusal(reason: Seq<char>) -> AnswerView {
    AnswerView { line: reject_line(reason), route: None, note: None }
}

/// The journal line for a submission whose target does not resolve.
pub open spec fn dropped_note(sub: SubmissionView) -> Seq<char> {
    "dropped submission to "@ + (match sub.kind.target() {
        TargetView::Dir(d) => "dir "@ + d,
        TargetView::Session(s) => "session "@ + s,
    }) + " from "@ + sub.from_cwd + " (target does not resolve)"@
}

/// The answer once a submission was judged: the verdict, and the submission
/// with its authenticated target where that resolves and the verdict lets it
/// go on.
pub open spec fn acked(sub: SubmissionView, target: Option<Seq<char>>, ack: Ack) -> AnswerView {
    let routable = ack == Ack::Accepted || ack == Ack::ApprovalNeeded;
    AnswerView {
        line: ack_line(ack.word()),
        route: match target {
            Some(c) => if routable {
                Some(SubmissionView { target_cwd: c, ..sub })
            } else {
                None
            },
            None => None,
        },
        note: if routable && target is None {
            Some(dropped_note(sub))
        } else {
            None
        },
    }
}

/// The answer to a submission's content from an authenticated directory.
pub open spec fn answered(
    from_cwd: Seq<char>,
    content: Seq<char>,
    canonical: Option<Seq<char>>,
    entries: Seq<RecordView>,
    whitelist: Option<Seq<char>>,
) -> AnswerView {
    if asks_list(content) {
        AnswerView {
            line: json_print(
                roster_reply(
                    roster_of(entries, |c: Seq<char>| may_reach(whitelist, from_cwd, c)),
                ),
            ) + "\n"@,
            route: None,
            note: None,
        }
    } else {
        match submission_text(content) {
            None => refusal("the submission is not a valid corral request"@),
            Some(s) => {
                let sub = SubmissionView { from_cwd, ..s };
                if sub.from_session is Some && claims_other_dir(
                    entries,
                    sub.from_session->0,
                    from_cwd,
                ) {
                    refusal("the reply handle names a session in another directory"@)
                } else {
                    acked(
                        sub,
                        target_dir(sub.kind.target(), entries, canonical),
                        judged(whitelist, sub, entries, canonical),
                    )
                }
            },
        }
    }
}

/// Gives the verdict, and stamps the authenticated target on what goes on.
pub fn ack_and_route(sub: Submission, target_cwd: Option<String>, verdict: Ack) -> (r: Answer)
    ensures
        r@ == acked(sub@, opt_text(target_cwd), verdict),
{
    let ghost sv = sub@;
    let line = ack(verdict.wire());
    if !verdict.routable() {
        return Answer { line, route: None, note: None };
    }
    match target_cwd {
        Some(cwd) => {
            let mut s = sub;
            s.target_cwd = cwd;
            Answer { line, route: Some(s), note: None }
        },
        None => {
            let to = match sub.target() {
                Target::Dir(d) => cat("dir ", d.as_str()),
                Target::Session(s) => cat("session ", s.as_str()),
            };
            let mut n = cat3("dropped submission to ", to.as_str(), " from ");
            n.append(sub.from_cwd.as_str());
            n.append(" (target does not resolve)");
            Answer { line, route: None, note: Some(n) }
        },
    }
}

/// Answers a submission: `from_cwd` is the directory that its place vouches
/// for, `canonical` the real path of the directory that it asks to spawn in.
pub fn handle(
    from_cwd: &str,
    content: &str,
    canonical: Option<&str>,
    entries: &Vec<RegistryEntry>,
    whitelist: Option<&str>,
) -> (r: Answer)
    ensures
        r@ == answered(
            from_cwd@,
            content@,
            opt_str(canonical),
            records(entries@),
            opt_str(whitelist),
        ),
{
    if is_list(content) {
        let visible = |cwd: &str| -> (b: bool)
            ensures
                b == may_reach(opt_str(whitelist), from_cwd@, cwd@),
            { reachable(whitelist, from_cwd, cwd) };
        let ghost p = |c: Seq<char>| may_reach(opt_str(whitelist), from_cwd@, c);
        assert(decides(visible, p));
        let roster = build_roster(entries, visible);
        let body = roster_json(&roster);
        return Answer { line: cat(body.as_str(), "\n"), route: None, note: None };
    }
    let mut sub = match parse(content) {
        Some(s) => s,
        None => {
            return Answer {
                line: reject("the submission is not a valid corral request"),
                route: None,
                note: None,
            };
        },
    };
    sub.from_cwd = from_cwd.to_owned();
    let forged = match &sub.from_session {
        Some(sid) => session_claims_other_dir(entries, sid.as_str(), from_cwd),
        None => false,
    };
    if forged {
        return Answer {
            line: reject("the reply handle names a session in another directory"),
            route: None,
            note: None,
        };
    }
    let (target_cwd, verdict) = authorize(whitelist, &sub, entries, canonical);
    ack_and_route(sub, target_cwd, verdict)
}

/// What reaches the router always carries the directory that its outbox vouches
/// for, and the target's resolved directory, whatever the content claims; a
/// forged reply handle never reaches it.
pub proof fn law_routed_pair_is_authenticated(
    from_cwd: Seq<char>,
    content: Seq<char>,
    canonical: Option<Seq<char>>,
    entries: Seq<RecordView>,
    whitelist: Option<Seq<char>>,
)
    ensures
        answered(from_cwd, content, canonical, entries, whitelist).route matches Some(s) ==> {
            &&& s.from_cwd == from_cwd
            &&& target_dir(s.kind.target(), entries, canonical) == Some(s.target_cwd)
            &&& s.from_session matches Some(sid) ==> !claims_other_dir(entries, sid, from_cwd)
        },
{
}

/// A valid request is answered with its verdict, and what is routed is the
/// request itself: exactly where the verdict lets it through and its target is
/// known, with its id, its kind and its session as they were written, from the
/// directory that vouches for it.
pub proof fn law_verdict_is_answered_and_acted_on(
    from_cwd: Seq<char>,
    content: Seq<char>,
    canonical: Option<Seq<char>>,
    entries: Seq<RecordView>,
    whitelist: Option<Seq<char>>,
    s: SubmissionView,
)
    requires
        !asks_list(content),
        submission_text(content) == Some(s),
        s.from_session matches Some(sid) ==> !claims_other_dir(entries, sid, from_cwd),
    ensures
        ({
            let sub = SubmissionView { from_cwd, ..s };
            let a = answered(from_cwd, content, canonical, entries, whitelist);
            let v = judged(whitelist, sub, entries, canonical);
            &&& a.line == "{\"status\":\""@ + v.word() + "\"}\n"@
            &&& a.route is Some <==> (v == Ack::Accepted || v == Ack::ApprovalNeeded) && target_dir(
                s.kind.target(),
                entries,
                canonical,
            ) is Some
            &&& a.route matches Some(r) ==> {
                &&& r.id == s.id
                &&& r.kind == s.kind
                &&& r.from_session == s.from_session
                &&& r.from_cwd == from_cwd
                &&& target_dir(s.kind.target(), entries, canonical) == Some(r.target_cwd)
            }
            &&& a.note is Some <==> (v == Ack::Accepted || v == Ack::ApprovalNeeded) && target_dir(
                s.kind.target(),
                entries,
                canonical,
            ) is None
        }),
{
}

/// What is no request, and a reply handle that another directory's session
/// claims, are refused in so many words, and nothing of them is routed. A list is
/// answered and routes nothing.
pub proof fn law_refused_request_goes_nowhere(
    from_cwd: Seq<char>,
    content: Seq<char>,
    canonical: Option<Seq<char>>,
    entries: Seq<RecordView>,
    whitelist: Option<Seq<char>>,
)
    requires
        asks_list(content) || submission_text(content) is None || (submission_text(
            content,
        )->0.from_session matches Some(sid) && claims_other_dir(entries, sid, from_cwd)),
    ensures
        answered(from_cwd, content, canonical, entries, whitelist).route is None,
        answered(from_cwd, content, canonical, entries, whitelist).note is None,
        asks_list(content) ==> answered(from_cwd, content, canonical, entries, whitelist).line
            == json_print(
            roster_reply(roster_of(entries, |c: Seq<char>| may_reach(whitelist, from_cwd, c))),
        ) + "\n"@,
        !asks_list(content) ==> has_prefix(
            answered(from_cwd, content, canonical, entries, whitelist).line,
            "{\"status\":\"malformed\",\"reason\":"@,
        ),
{
    let l = answered(from_cwd, content, canonical, entries, whitelist).line;
    let p = "{\"status\":\"malformed\",\"reason\":"@;
    if !asks_list(content) {
        assert(l.subrange(0, p.len() as int) =~= p);
    }
}

/// A plain text is quoted as it stands, and a text is quoted piece by piece: only
/// quotes and backslashes are escaped, and a control character becomes a blank.
pub proof fn law_text_is_quoted_piece_by_piece(s: Seq<char>, c: char)
    ensures
        (forall|i: int|
            0 <= i < s.len() ==> (#[trigger] s[i]) != '"' && s[i] != '\\' && !control(s[i]))
            ==> escaped_text(s) == s,
        c == '"' ==> escaped_text(s.push(c)) == escaped_text(s).push('\\').push('"'),
        c == '\\' ==> escaped_text(s.push(c)) == escaped_text(s).push('\\').push('\\'),
        control(c) ==> escaped_text(s.push(c)) == escaped_text(s).push(' '),
        c != '"' && c != '\\' && !control(c) ==> escaped_text(s.push(c)) == escaped_text(s).push(c),
    decreases s.len(),
{
    reveal_strlit("\\\"");
    reveal_strlit("\\\\");
    reveal_strlit(" ");
    assert(s.push(c).drop_last() =~= s);
    assert(escaped_text(s.push(c)) =~= escaped_text(s) + escaped(c));
    if s.len() > 0 {
        let t = s.drop_last();
        law_text_is_quoted_piece_by_piece(t, s.last());
        assert(t.push(s.last()) =~= s);
        if forall|i: int|
            0 <= i < s.len() ==> (#[trigger] s[i]) != '"' && s[i] != '\\' && !control(s[i]) {
            assert(s[s.len() - 1] == s.last());
            assert forall|i: int| 0 <= i < t.len() implies (#[trigger] t[i]) != '"' && t[i] != '\\'
                && !control(t[i]) by {
                assert(t[i] == s[i]);
            }
        }
    }
}

/// The path that a request line asks to be opened.
pub open spec fn asked_to_open(line: Seq<char>, read: u64) -> Option<Seq<char>> {
    if read == MAX_REQUEST && !has_suffix(line, "\n"@) {
        None
    } else {
        match json_parse(trimmed(line)) {
            Some(v) => v.str_at("submit"@),
            None => None,
        }
    }
}

/// The directory that a submission asks an agent to be started in.
pub open spec fn directory_asked_for(content: Seq<char>) -> Option<Seq<char>> {
    match submission_text(content) {
        Some(s) => match s.kind.target() {
            TargetView::Dir(d) => Some(d),
            TargetView::Session(_) => None,
        },
        None => None,
    }
}

/// A request line that was read whole opens the path that it names, blanks
/// around it aside; one that was cut off at eight kibibytes opens nothing, and
/// neither does one that names none. Only a spawn asks for a directory.
pub proof fn law_request_line_opens_what_it_names(
    line: Seq<char>,
    read: u64,
    v: JsonView,
    path: Seq<char>,
    content: Seq<char>,
    s: SubmissionView,
)
    ensures
        read == 8 * 1024 && !has_suffix(line, "\n"@) ==> asked_to_open(line, read) is None,
        (read != 8 * 1024 || has_suffix(line, "\n"@)) && json_parse(trimmed(line)) == Some(v) ==> (
        asked_to_open(line, read) == Some(path) <==> v.get("submit"@) == Some(JsonView::Str(path))),
        json_parse(trimmed(line)) is None ==> asked_to_open(line, read) is None,
        submission_text(content) == Some(s) ==> (directory_asked_for(content) == Some(path)
            <==> s.kind is Spawn && s.kind->dir == path),
        submission_text(content) is None ==> directory_asked_for(content) is None,
{
}

/// What is put on record of a dropped submission says whom it was for and where
/// it came from.
pub proof fn law_dropped_submission_is_put_on_record(sub: SubmissionView)
    ensures
        has_suffix(dropped_note(sub), " from "@ + sub.from_cwd + " (target does not resolve)"@),
        sub.kind.target() matches TargetView::Dir(d) ==> has_prefix(
            dropped_note(sub),
            "dropped submission to dir "@ + d,
        ),
        sub.kind.target() matches TargetView::Session(s) ==> has_prefix(
            dropped_note(sub),
            "dropped submission to session "@ + s,
        ),
{
    reveal_strlit("dropped submission to ");
    reveal_strlit("dropped submission to dir ");
    reveal_strlit("dropped submission to session ");
    reveal_strlit("dir ");
    reveal_strlit("session ");
    let n = dropped_note(sub);
    let t = " from "@ + sub.from_cwd + " (target does not resolve)"@;
    assert(n.subrange(n.len() - t.len(), n.len() as int) =~= t);
    match sub.kind.target() {
        TargetView::Dir(d) => {
            let p = "dropped submission to dir "@ + d;
            assert(n.subrange(0, p.len() as int) =~= p);
        },
        TargetView::Session(s) => {
            let p = "dropped submission to session "@ + s;
            assert(n.subrange(0, p.len() as int) =~= p);
        },
    }
}

} // verus!
