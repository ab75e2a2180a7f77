//! The desktop notification of a submission that waits: what it shows, and what
//! a chosen action means.
use vstd::prelude::*;

use crate::daemon::router::ApprovalAction;
use crate::path::name_start;
use crate::text::{
    cat3, chars_of, first_chars, has_infix, has_prefix, has_suffix, infix_at, same, string_of, take_chars,
    trim, trimmed,
};

verus! {

/// The most characters of a message in a notification.
pub const MAX_MESSAGE: usize = 140;

/// `s` cut to `n` characters, the last then an ellipsis.
pub open spec fn clipped(s: Seq<char>, n: int) -> Seq<char> {
    if s.len() <= n {
        s
    } else {
        first_chars(s, if n > 0 {
            n - 1
        } else {
            0
        }) + "…"@
    }
}

/// Cuts a text to `n` characters with an ellipsis.
pub fn clip(s: &str, n: usize) -> (r: String)
    ensures
        r@ == clipped(s@, n as int),
{
    let len: usize = chars_of(s).len();
    if len <= n {
        s.to_owned()
    } else {
        let keep: usize = if n > 0 {
            n - 1
        } else {
            0
        };
        let mut t = take_chars(s, keep);
        t.append("…");
        t
    }
}

/// A clipped text is no longer than asked, unless not even the ellipsis fits.
pub proof fn law_clip_bounds(s: Seq<char>, n: int)
    requires
        n >= 1,
    ensures
        clipped(s, n).len() <= n,
{
    reveal_strlit("…");
}

/// The decision that an action's name stands for.
pub open spec fn action_of(name: Seq<char>) -> Option<ApprovalAction> {
    let t = trimmed(name);
    if t == "once"@ {
        Some(ApprovalAction::AllowOnce)
    } else if t == "always"@ {
        Some(ApprovalAction::AllowAlways)
    } else if t == "deny"@ {
        Some(ApprovalAction::Deny)
    } else {
        None
    }
}

/// Maps the name of a chosen action to a decision; a dismissal is none.
pub fn parse_action(name: &str) -> (r: Option<ApprovalAction>)
    ensures
        r == action_of(name@),
{
    let t = trim(name);
    if same(t.as_str(), "once") {
        Some(ApprovalAction::AllowOnce)
    } else if same(t.as_str(), "always") {
        Some(ApprovalAction::AllowAlways)
    } else if same(t.as_str(), "deny") {
        Some(ApprovalAction::Deny)
    } else {
        None
    }
}

/// What follows the last separator.
pub open spec fn tail(p: Seq<char>) -> Seq<char> {
    p.subrange(name_start(p), p.len() as int)
}

fn path_tail(p: &str) -> (r: String)
    ensures
        r@ == tail(p@),
{
    let x = chars_of(p);
    let n: usize = x.len();
    let mut s: usize = n;
    assert(x@.take(n as int) =~= p@);
    while s > 0 && x[s - 1] != '/'
        invariant
            s <= n == x@.len(),
            x@ == p@,
            name_start(p@) == name_start(x@.take(s as int)),
        decreases s,
    {
        assert(x@.take(s as int).drop_last() =~= x@.take(s - 1));
        s = s - 1;
    }
    string_of(&x, s, n)
}

/// The body of a notification: who to whom, then the beginning of the message.
pub fn notification_body(from: &str, target: &str, message: &str) -> (r: String)
    ensures
        r@ == tail(from@) + " → "@ + tail(target@) + "\n"@ + clipped(message@, MAX_MESSAGE as int),
        r@ == notice_text(from@, target@, message@),
{
    let (f, t) = (path_tail(from), path_tail(target));
    let mut s = cat3(f.as_str(), " → ", t.as_str());
    s.append("\n");
    let m = clip(message, MAX_MESSAGE);
    s.append(m.as_str());
    s
}

/// The text of the full view of a submission.
pub fn detail_text(from: &str, target: &str, body: &str) -> (r: String)
    ensures
        r@ == "from: "@ + from@ + "\nto:   "@ + target@ + "\n\n"@ + body@,
        r@ == details(from@, target@, body@),
{
    let mut s = cat3("from: ", from, "\nto:   ");
    s.append(target);
    s.append("\n\n");
    s.append(body);
    s
}

/// A text that fits is shown whole; one that does not is shown up to the room
/// there is, from its start, and ends in an ellipsis.
pub proof fn law_clipped_text_is_its_start(s: Seq<char>, n: int)
    requires
        n >= 1,
    ensures
        s.len() <= n ==> clipped(s, n) == s,
        s.len() > n ==> clipped(s, n).len() == n && clipped(s, n).last() == '…' && clipped(
            s,
            n,
        ).drop_last() == s.subrange(0, n - 1),
{
    reveal_strlit("…");
    if s.len() > n {
        assert(clipped(s, n).drop_last() =~= s.subrange(0, n - 1));
    }
}

/// Each button names its decision, blanks aside, and nothing else names any.
pub proof fn law_buttons_name_decisions(name: Seq<char>)
    ensures
        trimmed(name) == "once"@ <==> action_of(name) == Some(ApprovalAction::AllowOnce),
        trimmed(name) == "always"@ <==> action_of(name) == Some(ApprovalAction::AllowAlways),
        trimmed(name) == "deny"@ <==> action_of(name) == Some(ApprovalAction::Deny),
{
    reveal_strlit("once");
    reveal_strlit("always");
    reveal_strlit("deny");
    assert("once"@[0] == 'o');
    assert("always"@[0] == 'a');
    assert("deny"@[0] == 'd');
}

/// What a notification says.
pub open spec fn notice_text(from: Seq<char>, target: Seq<char>, message: Seq<char>) -> Seq<char> {
    tail(from) + " → "@ + tail(target) + "\n"@ + clipped(message, MAX_MESSAGE as int)
}

/// What the details of a submission say.
pub open spec fn details(from: Seq<char>, target: Seq<char>, body: Seq<char>) -> Seq<char> {
    "from: "@ + from + "\nto:   "@ + target + "\n\n"@ + body
}

/// A notification tells whom a message is from and for, and as much of it as is
/// shown; the details tell all of it.
pub proof fn law_notification_tells_the_message(from: Seq<char>, target: Seq<char>, message: Seq<char>)
    ensures
        has_prefix(notice_text(from, target, message), tail(from) + " → "@ + tail(target)),
        message.len() <= 140 ==> has_suffix(notice_text(from, target, message), message),
        message.len() > 140 ==> has_suffix(
            notice_text(from, target, message),
            message.subrange(0, 139).push('…'),
        ),
        has_prefix(details(from, target, message), "from: "@ + from),
        has_suffix(details(from, target, message), message),
        has_infix(details(from, target, message), "to:   "@ + target),
{
    reveal_strlit("…");
    reveal_strlit("\nto:   ");
    reveal_strlit("to:   ");
    let n = notice_text(from, target, message);
    let p = tail(from) + " → "@ + tail(target);
    let c = clipped(message, 140);
    assert(n.subrange(0, p.len() as int) =~= p);
    assert(n.subrange(n.len() - c.len(), n.len() as int) =~= c);
    if message.len() > 140 {
        assert(c =~= message.subrange(0, 139).push('…'));
    }
    let d = details(from, target, message);
    let q = "from: "@ + from;
    let t = "to:   "@ + target;
    let k: int = q.len() + 1int;
    assert(d.subrange(0, q.len() as int) =~= q);
    assert(d.subrange(d.len() - message.len(), d.len() as int) =~= message);
    assert(d.subrange(k, k + t.len()) =~= t);
    assert(infix_at(d, t, k));
}

} // verus!
