//! The lines in which agents are spoken to: JSON-RPC messages, one a line.
use vstd::prelude::*;

use crate::json::{
    json_parse, json_print, lemma_storable_members, print, storable, Json, JsonView, ObjectBuilder,
};

verus! {

/// A request.
pub open spec fn request(id: u64, method: Seq<char>, params: JsonView) -> JsonView {
    JsonView::Object(
        map![
            "jsonrpc"@ => JsonView::Str("2.0"@),
            "id"@ => JsonView::Int(id as int),
            "method"@ => JsonView::Str(method),
            "params"@ => params,
        ],
    )
}

/// A notification: a message without an id, which gets no reply.
pub open spec fn notice(method: Seq<char>, params: JsonView) -> JsonView {
    JsonView::Object(
        map![
            "jsonrpc"@ => JsonView::Str("2.0"@),
            "method"@ => JsonView::Str(method),
            "params"@ => params,
        ],
    )
}

/// An object without members.
pub open spec fn no_params() -> JsonView {
    JsonView::Object(Map::empty())
}

/// The line that holds a message.
pub open spec fn line_of(v: JsonView) -> Seq<char> {
    json_print(v) + "\n"@
}

/// A text is one line, ended by its line feed, and reads as the message.
pub open spec fn is_line(s: Seq<char>, v: JsonView) -> bool {
    &&& s == line_of(v)
    &&& s.len() > 0
    &&& s.last() == '\n'
    &&& !s.drop_last().contains('\n')
    &&& json_parse(s.drop_last()) == Some(v)
}

/// The parameter object without members.
pub fn empty_params() -> (r: Json)
    ensures
        r@ == no_params(),
        storable(r@, 1),
{
    let r = ObjectBuilder::new().build();
    proof {
        lemma_storable_members(Map::empty(), 1);
    }
    r
}

fn line(v: &Json) -> (r: String)
    requires
        storable(v@, 127),
    ensures
        is_line(r@, v@),
{
    let mut s = print(v);
    let ghost p = s@;
    s.append("\n");
    proof {
        reveal_strlit("\n");
        assert(s@.drop_last() =~= p);
    }
    s
}

/// The line of a request.
pub(crate) fn request_line(id: u64, method: &str, params: Json) -> (r: String)
    requires
        storable(params@, 126),
    ensures
        is_line(r@, request(id, method@, params@)),
{
    let mut b = ObjectBuilder::new();
    b.put("jsonrpc", Json::of_str("2.0"));
    b.put("id", Json::Int(id as i128));
    b.put("method", Json::of_str(method));
    b.put("params", params);
    let v = b.build();
    proof {
        let m = v@->Object_0;
        lemma_storable_members(m, 127);
        assert forall|k: Seq<char>| #[trigger] m.dom().contains(k) implies storable(m[k], 126) by {}
    }
    line(&v)
}

/// The line of a notification.
pub(crate) fn notice_line(method: &str, params: Json) -> (r: String)
    requires
        storable(params@, 126),
    ensures
        is_line(r@, notice(method@, params@)),
{
    let mut b = ObjectBuilder::new();
    b.put("jsonrpc", Json::of_str("2.0"));
    b.put("method", Json::of_str(method));
    b.put("params", params);
    let v = b.build();
    proof {
        let m = v@->Object_0;
        lemma_storable_members(m, 127);
        assert forall|k: Seq<char>| #[trigger] m.dom().contains(k) implies storable(m[k], 126) by {}
    }
    line(&v)
}

/// What can be stored is stored at any greater depth too.
pub proof fn lemma_storable_deeper(v: JsonView, d: nat, e: nat)
    requires
        storable(v, d),
        d <= e,
    ensures
        storable(v, e),
    decreases d,
{
    match v {
        JsonView::Array(a) => {
            assert forall|i: int| 0 <= i < a.len() implies storable(#[trigger] a[i], (e - 1) as nat) by {
                lemma_storable_deeper(a[i], (d - 1) as nat, (e - 1) as nat);
            }
        },
        JsonView::Object(m) => {
            lemma_storable_members(m, d);
            lemma_storable_members(m, e);
            assert forall|k: Seq<char>| #[trigger] m.dom().contains(k) implies storable(m[k], (e - 1) as nat) by {
                lemma_storable_deeper(m[k], (d - 1) as nat, (e - 1) as nat);
            }
        },
        _ => {},
    }
}

/// The line that opens a conversation.
pub fn initialize_line() -> (r: String)
    ensures
        is_line(r@, request(0, "initialize"@, no_params())),
{
    let p = empty_params();
    proof {
        lemma_storable_deeper(p@, 1, 126);
    }
    request_line(0, "initialize", p)
}

/// The line that asks for the sessions of an agent.
pub fn session_list_line() -> (r: String)
    ensures
        is_line(r@, request(1, "session/list"@, no_params())),
{
    let p = empty_params();
    proof {
        lemma_storable_deeper(p@, 1, 126);
    }
    request_line(1, "session/list", p)
}

/// A request says what it asks for: its number, its method and its parameters are
/// read from it as they were given, and a notice has no number.
pub proof fn law_request_says_what_it_asks_for(id: u64, method: Seq<char>, params: JsonView)
    ensures
        request(id, method, params).get("jsonrpc"@) == Some(JsonView::Str("2.0"@)),
        request(id, method, params).get("id"@) == Some(JsonView::Int(id as int)),
        request(id, method, params).get("method"@) == Some(JsonView::Str(method)),
        request(id, method, params).get("params"@) == Some(params),
        notice(method, params).get("jsonrpc"@) == Some(JsonView::Str("2.0"@)),
        notice(method, params).get("method"@) == Some(JsonView::Str(method)),
        notice(method, params).get("params"@) == Some(params),
        notice(method, params).get("id"@) is None,
{
    reveal_strlit("jsonrpc");
    reveal_strlit("id");
    reveal_strlit("method");
    reveal_strlit("params");
    assert("jsonrpc"@.len() == 7);
    assert("id"@.len() == 2);
    assert("method"@.len() == 6 && "method"@[0] == 'm');
    assert("params"@.len() == 6 && "params"@[0] == 'p');
}

} // verus!
