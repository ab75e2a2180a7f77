//! The lines that drive an agent over its socket.
use vstd::prelude::*;

use crate::json::{json_views, lemma_array_view, lemma_storable_members, storable, Json, JsonView, ObjectBuilder};
use crate::rpc::{
    empty_params, is_line, lemma_storable_deeper, no_params, notice, notice_line, request, request_line,
};

verus! {

/// The parameters of a prompt: one block of text.
pub open spec fn prompt_params(text: Seq<char>) -> JsonView {
    JsonView::Object(
        map![
            "prompt"@ => JsonView::Array(
                seq![
                    JsonView::Object(
                        map!["type"@ => JsonView::Str("text"@), "text"@ => JsonView::Str(text)],
                    ),
                ],
            ),
        ],
    )
}

/// The line that hands an agent `text` as a user message.
pub fn prompt_line(text: &str) -> (r: String)
    ensures
        is_line(r@, request(0, "session/prompt"@, prompt_params(text@))),
{
    let mut b = ObjectBuilder::new();
    b.put("type", Json::of_str("text"));
    b.put("text", Json::of_str(text));
    let block = b.build();
    let ghost bv = block@;
    let mut blocks: Vec<Json> = Vec::new();
    blocks.push(block);
    let list = Json::Array(blocks);
    let ghost lv = list@;
    proof {
        lemma_array_view(&list);
        assert(json_views(blocks@) =~= seq![bv]);
    }
    let mut p = ObjectBuilder::new();
    p.put("prompt", list);
    let params = p.build();
    proof {
        let inner = bv->Object_0;
        lemma_storable_members(inner, 124);
        assert forall|k: Seq<char>| #[trigger] inner.dom().contains(k) implies storable(inner[k], 123) by {}
        assert(storable(bv, 124));
        assert(storable(lv, 125)) by {
            assert forall|i: int| 0 <= i < lv->Array_0.len() implies storable(#[trigger] lv->Array_0[i], 124) by {}
        }
        let outer = params@->Object_0;
        lemma_storable_members(outer, 126);
        assert forall|k: Seq<char>| #[trigger] outer.dom().contains(k) implies storable(outer[k], 125) by {}
    }
    request_line(0, "session/prompt", params)
}

/// The line that stops an agent's turn; it carries no id.
pub fn cancel_line() -> (r: String)
    ensures
        is_line(r@, notice("session/cancel"@, no_params())),
{
    let p = empty_params();
    proof {
        lemma_storable_deeper(p@, 1, 126);
    }
    notice_line("session/cancel", p)
}

/// What a sender does next, while the agent is given time to finish its first
/// lines and to read what it was sent.
#[derive(Debug, Clone, Copy, PartialEq, Eq, Structural)]
pub enum Drain {
    /// Read for at most so many nanoseconds.
    Read(u128),
    /// Close the connection.
    Close,
}

/// How long a sender stays connected behind its line, in nanoseconds.
pub const DRAIN_GRACE: u128 = 200000000;

/// What a read brought.
#[derive(Debug, Clone, Copy, PartialEq, Eq, Structural)]
pub enum Chunk {
    /// Bytes; more may follow.
    Bytes,
    /// The end of what the agent sends.
    End,
    /// Nothing within the time, or a fault.
    Fault,
}

/// What a sender does that connected at `start`: it reads until the grace is
/// over, whatever it is sent, and closes before only where the agent has
/// nothing more to send.
pub fn drain_grace(start: u128, now: u128, last: Option<Chunk>) -> (r: Drain)
    ensures
        r == (if last == Some(Chunk::End) || last == Some(Chunk::Fault) || now >= start + DRAIN_GRACE {
            Drain::Close
        } else if now <= start {
            Drain::Read(DRAIN_GRACE)
        } else {
            Drain::Read((start + DRAIN_GRACE - now) as u128)
        }),
        r == drain_step(start, now, last),
{
    match last {
        Some(Chunk::End) => Drain::Close,
        Some(Chunk::Fault) => Drain::Close,
        _ => if now <= start {
            Drain::Read(DRAIN_GRACE)
        } else {
            let spent: u128 = now - start;
            if spent >= DRAIN_GRACE {
                Drain::Close
            } else {
                Drain::Read(DRAIN_GRACE - spent)
            }
        },
    }
}

/// A prompt carries the text, whole and once, as a text.
pub proof fn law_prompt_carries_the_text(text: Seq<char>)
    ensures
        prompt_params(text).get("prompt"@) matches Some(JsonView::Array(a)) && a.len() == 1 && {
            &&& a[0].get("type"@) == Some(JsonView::Str("text"@))
            &&& a[0].get("text"@) == Some(JsonView::Str(text))
        },
{
    reveal_strlit("type");
    reveal_strlit("text");
    assert("type"@[1] != "text"@[1]);
}

/// What is done next about what the agent still sends.
pub open spec fn drain_step(start: u128, now: u128, last: Option<Chunk>) -> Drain {
    if last == Some(Chunk::End) || last == Some(Chunk::Fault) || now >= start + DRAIN_GRACE {
        Drain::Close
    } else if now <= start {
        Drain::Read(DRAIN_GRACE)
    } else {
        Drain::Read((start + DRAIN_GRACE - now) as u128)
    }
}

/// The connection is closed when the agent is done or fails, and in any case when
/// a fifth of a second is over; until then it is read, never for longer than is
/// left.
pub proof fn law_drain_ends_in_time(start: u128, now: u128, last: Option<Chunk>)
    ensures
        drain_step(start, now, Some(Chunk::End)) == Drain::Close,
        drain_step(start, now, Some(Chunk::Fault)) == Drain::Close,
        now - start >= 200000000 ==> drain_step(start, now, last) == Drain::Close,
        now - start < 200000000 && last != Some(Chunk::End) && last != Some(Chunk::Fault) ==> (
        drain_step(start, now, last) matches Drain::Read(d) && 0 < d <= 200000000 && (now >= start ==> now
            + d == start + 200000000)),
{
}

} // verus!
