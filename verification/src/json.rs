//! JSON values as plain data: what the crate reads out of records, stores and
//! protocol lines, and writes back to them.
use vstd::prelude::*;

use crate::text::{opt_text, opt_texts, same, texts};

verus! {

/// A JSON value. An integer is one that fits in 64 bits, signed or unsigned;
/// any other number is kept as its text. Of two members of an object under one
/// key, the later counts.
#[derive(Debug, PartialEq, Eq)]
pub enum Json {
    Null,
    Bool(bool),
    Int(i128),
    Float(String),
    Str(String),
    Array(Vec<Json>),
    Object(Vec<(String, Json)>),
}

/// What a JSON value holds.
#[verifier::ext_equal]
pub enum JsonView {
    Null,
    Bool(bool),
    Int(int),
    Float(Seq<char>),
    Str(Seq<char>),
    Array(Seq<JsonView>),
    Object(Map<Seq<char>, JsonView>),
}

impl JsonView {
    /// The member under `key`, if this is an object that has one.
    pub open spec fn get(self, key: Seq<char>) -> Option<JsonView> {
        match self {
            JsonView::Object(m) => if m.dom().contains(key) {
                Some(m[key])
            } else {
                None
            },
            _ => None,
        }
    }

    pub open spec fn str(self) -> Option<Seq<char>> {
        match self {
            JsonView::Str(s) => Some(s),
            _ => None,
        }
    }

    /// The value, if this is an integer from 0 to 2^64 - 1.
    pub open spec fn u64(self) -> Option<int> {
        match self {
            JsonView::Int(n) => if 0 <= n <= u64::MAX {
                Some(n)
            } else {
                None
            },
            _ => None,
        }
    }

    /// The value of an integer from -2^63 to 2^63 - 1.
    pub open spec fn i64(self) -> Option<int> {
        match self {
            JsonView::Int(n) => if i64::MIN <= n <= i64::MAX {
                Some(n)
            } else {
                None
            },
            _ => None,
        }
    }

    pub open spec fn array(self) -> Option<Seq<JsonView>> {
        match self {
            JsonView::Array(a) => Some(a),
            _ => None,
        }
    }

    /// The text under `key`.
    pub open spec fn str_at(self, key: Seq<char>) -> Option<Seq<char>> {
        match self.get(key) {
            Some(v) => v.str(),
            None => None,
        }
    }

    /// The signed integer under `key`.
    pub open spec fn i64_at(self, key: Seq<char>) -> Option<int> {
        match self.get(key) {
            Some(v) => v.i64(),
            None => None,
        }
    }

    /// The unsigned integer under `key`.
    pub open spec fn u64_at(self, key: Seq<char>) -> Option<int> {
        match self.get(key) {
            Some(v) => v.u64(),
            None => None,
        }
    }

    /// Whether `true` stands under `key`.
    pub open spec fn true_at(self, key: Seq<char>) -> bool {
        self.get(key) == Some(JsonView::Bool(true))
    }

    /// The texts in the array under `key`, which holds nothing but texts.
    pub open spec fn strs_at(self, key: Seq<char>) -> Option<Seq<Seq<char>>> {
        match self.get(key) {
            Some(JsonView::Array(a)) => strs_of(a),
            _ => None,
        }
    }
}

/// The texts of an array, in order; none if a member is no text.
pub open spec fn strs_of(a: Seq<JsonView>) -> Option<Seq<Seq<char>>> {
    if forall|i: int| 0 <= i < a.len() ==> #[trigger] a[i] is Str {
        Some(a.map_values(|v: JsonView| v->Str_0))
    } else {
        None
    }
}

/// The array of the given texts.
pub open spec fn str_array(t: Seq<Seq<char>>) -> JsonView {
    JsonView::Array(t.map_values(|s: Seq<char>| JsonView::Str(s)))
}

/// Every text of an array of texts is found in it again.
pub proof fn lemma_strs_of_str_array(t: Seq<Seq<char>>)
    ensures
        strs_of(t.map_values(|s: Seq<char>| JsonView::Str(s))) == Some(t),
{
    let a = t.map_values(|s: Seq<char>| JsonView::Str(s));
    assert(a.map_values(|v: JsonView| v->Str_0) =~= t);
}

/// The members of an object: each key with the last value listed under it.
pub open spec fn members(m: Seq<(String, Json)>, n: nat) -> Map<Seq<char>, JsonView>
    decreases m, n,
{
    if n == 0 || n > m.len() {
        Map::empty()
    } else {
        members(m, (n - 1) as nat).insert(m[n - 1].0@, m[n - 1].1.model())
    }
}

impl Json {
    /// What the value holds.
    pub open spec fn model(&self) -> JsonView
        decreases self, 0nat,
    {
        match self {
            Json::Null => JsonView::Null,
            Json::Bool(b) => JsonView::Bool(*b),
            Json::Int(n) => JsonView::Int(*n as int),
            Json::Float(t) => JsonView::Float(t@),
            Json::Str(t) => JsonView::Str(t@),
            Json::Array(a) => JsonView::Array(
                Seq::new(
                    a@.len(),
                    |i: int|
                        if 0 <= i < a@.len() {
                            a@[i].model()
                        } else {
                            JsonView::Null
                        },
                ),
            ),
            Json::Object(m) => JsonView::Object(members(m@, m@.len())),
        }
    }
}

impl View for Json {
    type V = JsonView;

    open spec fn view(&self) -> JsonView {
        self.model()
    }
}

/// The view of a list of values.
pub open spec fn json_views(a: Seq<Json>) -> Seq<JsonView> {
    Seq::new(a.len(), |i: int| a[i]@)
}

pub proof fn lemma_array_view(v: &Json)
    ensures
        v matches Json::Array(a) ==> v@ == JsonView::Array(json_views(a@)),
{
    if let Json::Array(a) = v {
        assert(v@->Array_0 =~= json_views(a@));
    }
}

/// What `serde_json::from_str` makes of a text: a value, or the words in which
/// it refuses the text.
pub uninterp spec fn json_read(text: Seq<char>) -> Result<JsonView, Seq<char>>;

/// The value that a text is the document of, if it is one.
pub open spec fn json_parse(text: Seq<char>) -> Option<JsonView> {
    match json_read(text) {
        Ok(v) => Some(v),
        Err(_) => None,
    }
}

/// What a `serde_json::Value` is written as.
pub uninterp spec fn json_print(v: JsonView) -> Seq<char>;

/// What `serde_json::to_string_pretty` writes for a value.
pub uninterp spec fn json_pretty(v: JsonView) -> Seq<char>;

/// A value that a document can hold and give back: nested at most `depth`
/// deep, its integers within 64 bits, and without other numbers.
pub open spec fn storable(v: JsonView, depth: nat) -> bool
    decreases depth,
{
    match v {
        JsonView::Int(n) => i64::MIN <= n <= u64::MAX,
        JsonView::Float(_) => false,
        JsonView::Array(a) => depth > 0 && forall|i: int|
            0 <= i < a.len() ==> storable(#[trigger] a[i], (depth - 1) as nat),
        JsonView::Object(m) => depth > 0 && forall|k: Seq<char>| #[trigger]
            m.dom().contains(k) ==> storable(m[k], (depth - 1) as nat),
        _ => true,
    }
}

/// A value that is nested at most `depth` deep.
pub open spec fn shallow(v: JsonView, depth: nat) -> bool
    decreases depth,
{
    match v {
        JsonView::Array(a) => depth > 0 && forall|i: int|
            0 <= i < a.len() ==> shallow(#[trigger] a[i], (depth - 1) as nat),
        JsonView::Object(m) => depth > 0 && forall|k: Seq<char>| #[trigger]
            m.dom().contains(k) ==> shallow(m[k], (depth - 1) as nat),
        _ => true,
    }
}

/// An object is nested one deeper than its members.
pub proof fn lemma_shallow_members(m: Map<Seq<char>, JsonView>, depth: nat)
    requires
        depth > 0,
    ensures
        shallow(JsonView::Object(m), depth) == forall|k: Seq<char>| #[trigger]
            m.dom().contains(k) ==> shallow(m[k], (depth - 1) as nat),
{
    let v = JsonView::Object(m);
    let d = (depth - 1) as nat;
    assert(v->Object_0 == m);
    if shallow(v, depth) {
        assert forall|k: Seq<char>| #[trigger] m.dom().contains(k) implies shallow(m[k], d) by {
            assert(v->Object_0.dom().contains(k));
            assert(shallow(v->Object_0[k], d));
        }
    }
}

/// A member is nested less deep than its object.
pub proof fn lemma_shallow_get(v: JsonView, key: Seq<char>, depth: nat)
    requires
        shallow(v, depth),
    ensures
        v.get(key) matches Some(x) ==> depth > 0 && shallow(x, (depth - 1) as nat),
{
    if v.get(key) is Some {
        let m = v->Object_0;
        lemma_shallow_members(m, depth);
        assert(m.dom().contains(key));
    }
}

/// The members of a value that can be stored can be stored.
pub proof fn lemma_storable_members(m: Map<Seq<char>, JsonView>, depth: nat)
    requires
        depth > 0,
    ensures
        storable(JsonView::Object(m), depth) == forall|k: Seq<char>| #[trigger]
            m.dom().contains(k) ==> storable(m[k], (depth - 1) as nat),
{
    let v = JsonView::Object(m);
    let d = (depth - 1) as nat;
    assert(v->Object_0 == m);
    if storable(v, depth) {
        assert forall|k: Seq<char>| #[trigger] m.dom().contains(k) implies storable(m[k], d) by {
            assert(v->Object_0.dom().contains(k));
            assert(storable(v->Object_0[k], d));
        }
    }
}

/// What can be stored is nested no deeper.
pub proof fn lemma_storable_shallow(v: JsonView, depth: nat)
    requires
        storable(v, depth),
    ensures
        shallow(v, depth),
    decreases depth,
{
    match v {
        JsonView::Array(a) => {
            assert forall|i: int| 0 <= i < a.len() implies shallow(#[trigger] a[i], (depth - 1) as nat) by {
                lemma_storable_shallow(a[i], (depth - 1) as nat);
            }
        },
        JsonView::Object(m) => {
            lemma_storable_members(m, depth);
            lemma_shallow_members(m, depth);
            assert forall|k: Seq<char>| #[trigger] m.dom().contains(k) implies shallow(
                m[k],
                (depth - 1) as nat,
            ) by {
                lemma_storable_shallow(m[k], (depth - 1) as nat);
            }
        },
        _ => {},
    }
}

pub proof fn lemma_str_array_storable(t: Seq<Seq<char>>, depth: nat)
    requires
        depth > 0,
    ensures
        storable(str_array(t), depth),
{
    let a = t.map_values(|s: Seq<char>| JsonView::Str(s));
    assert forall|i: int| 0 <= i < a.len() implies storable(#[trigger] a[i], (depth - 1) as nat) by {
        assert(a[i] == JsonView::Str(t[i]));
    }
}

/// Declares `serde_json::Value`, which only passes between the functions below.
#[verifier::external_type_specification]
#[verifier::external_body]
pub struct ExValue(serde_json::Value);

/// Converts a `serde_json::Value` one for one. An integer comes as
/// `Number::as_i128` gives it, any other number as its text. Nothing is claimed
/// of the result: `read` claims it of the whole.
#[verifier::external_body]
fn from_value(v: serde_json::Value) -> Json {
    match v {
        serde_json::Value::Null => Json::Null,
        serde_json::Value::Bool(b) => Json::Bool(b),
        serde_json::Value::Number(n) => match n.as_i128() {
            Some(i) => Json::Int(i),
            None => Json::Float(n.to_string()),
        },
        serde_json::Value::String(s) => Json::Str(s),
        serde_json::Value::Array(a) => Json::Array(a.into_iter().map(from_value).collect()),
        serde_json::Value::Object(m) => Json::Object(
            m.into_iter().map(|(k, x)| (k, from_value(x))).collect(),
        ),
    }
}

/// Converts a value to a `serde_json::Value` one for one. Nothing is claimed of
/// the result: `print` and `print_pretty` claim it of the whole.
#[verifier::external_body]
fn to_value(v: &Json) -> serde_json::Value {
    match v {
        Json::Null => serde_json::Value::Null,
        Json::Bool(b) => serde_json::Value::Bool(*b),
        Json::Int(n) => serde_json::Number::from_i128(*n).into(),
        Json::Float(t) => t.parse::<serde_json::Number>().ok().into(),
        Json::Str(s) => serde_json::Value::String(s.clone()),
        Json::Array(a) => serde_json::Value::Array(a.iter().map(to_value).collect()),
        Json::Object(m) => serde_json::Value::Object(
            m.iter().map(|(k, x)| (k.clone(), to_value(x))).collect(),
        ),
    }
}

/// Wraps `serde_json::from_str`: the value, or the words of the refusal, are a
/// function of the text alone. A text that is nested deeper than its recursion
/// limit is refused.
#[verifier::external_body]
pub(crate) fn read(text: &str) -> (r: Result<Json, String>)
    ensures
        match r {
            Ok(v) => json_read(text@) == Ok::<JsonView, Seq<char>>(v@) && shallow(v@, 127),
            Err(e) => json_read(text@) == Err::<JsonView, Seq<char>>(e@),
        },
{
    serde_json::from_str::<serde_json::Value>(text).map(from_value).map_err(|e| e.to_string())
}

/// The value that a text is the document of.
pub fn parse(text: &str) -> (r: Option<Json>)
    ensures
        r is Some == json_parse(text@) is Some,
        r matches Some(v) ==> json_parse(text@) == Some(v@) && shallow(v@, 127),
{
    match read(text) {
        Ok(v) => Some(v),
        Err(_) => None,
    }
}

/// Wraps `serde_json::Value::to_string`: the text is a function of the value
/// alone and holds no line feed, and `serde_json::from_str` reads it back as
/// the value. A value nested deeper than the parser reads is left out.
#[verifier::external_body]
pub(crate) fn print(v: &Json) -> (r: String)
    requires
        storable(v@, 127),
    ensures
        r@ == json_print(v@),
        json_parse(r@) == Some(v@),
        !r@.contains('\n'),
{
    to_value(v).to_string()
}

/// Wraps `serde_json::to_string_pretty`: the text is a function of the value
/// alone, and `serde_json::from_str` reads it back as the value, which is not
/// claimed where a number in it is no integer. A value nested deeper than the
/// parser reads is left out.
#[verifier::external_body]
pub(crate) fn print_pretty(v: &Json) -> (r: String)
    requires
        shallow(v@, 127),
    ensures
        r@ == json_pretty(v@),
        storable(v@, 127) ==> json_parse(r@) == Some(v@),
{
    serde_json::to_string_pretty(&to_value(v)).unwrap_or_default()
}

impl Json {
    /// The member under `key`, if this is an object that has one.
    pub fn get(&self, key: &str) -> (r: Option<&Json>)
        ensures
            r is Some == self@.get(key@) is Some,
            r matches Some(v) ==> self@.get(key@) == Some(v@),
            r matches Some(v) ==> decreases_to!(*self => *v),
    {
        match self {
            Json::Object(m) => {
                let mut i: usize = m.len();
                while i > 0
                    invariant
                        i <= m@.len(),
                        *self == Json::Object(*m),
                        self@ == JsonView::Object(members(m@, m@.len())),
                        members(m@, m@.len()).dom().contains(key@) == members(m@, i as nat).dom().contains(key@),
                        members(m@, m@.len()).dom().contains(key@) ==> members(m@, m@.len())[key@]
                            == members(m@, i as nat)[key@],
                    decreases i,
                {
                    if same(m[i - 1].0.as_str(), key) {
                        proof {
                            assert(decreases_to!(*self => *m));
                            assert(decreases_to!(*m => m@));
                            assert(decreases_to!(m@ => m@[i - 1]));
                            assert(decreases_to!(m@[i - 1] => m@[i - 1].1));
                        }
                        return Some(&m[i - 1].1);
                    }
                    i = i - 1;
                }
                None
            },
            _ => None,
        }
    }

    pub fn as_str(&self) -> (r: Option<&str>)
        ensures
            r is Some == self@.str() is Some,
            r matches Some(s) ==> self@.str() == Some(s@),
    {
        match self {
            Json::Str(s) => Some(s.as_str()),
            _ => None,
        }
    }

    /// The value, if this is an integer from 0 to 2^64 - 1.
    pub fn as_u64(&self) -> (r: Option<u64>)
        ensures
            r is Some == self@.u64() is Some,
            r matches Some(n) ==> self@.u64() == Some(n as int),
    {
        match self {
            Json::Int(n) => if 0 <= *n && *n <= u64::MAX as i128 {
                Some(*n as u64)
            } else {
                None
            },
            _ => None,
        }
    }

    /// The value, if this is an integer from -2^63 to 2^63 - 1.
    pub fn as_i64(&self) -> (r: Option<i64>)
        ensures
            r is Some == self@.i64() is Some,
            r matches Some(n) ==> self@.i64() == Some(n as int),
    {
        match self {
            Json::Int(n) => if i64::MIN as i128 <= *n && *n <= i64::MAX as i128 {
                Some(*n as i64)
            } else {
                None
            },
            _ => None,
        }
    }

    pub fn as_array(&self) -> (r: Option<&Vec<Json>>)
        ensures
            r is Some == self@.array() is Some,
            r matches Some(a) ==> self@.array() == Some(json_views(a@)) && *self == Json::Array(*a),
    {
        proof {
            lemma_array_view(self);
        }
        match self {
            Json::Array(a) => Some(a),
            _ => None,
        }
    }

    /// The text under `key`.
    pub fn str_at(&self, key: &str) -> (r: Option<String>)
        ensures
            opt_text(r) == self@.str_at(key@),
    {
        match self.get(key) {
            Some(v) => match v.as_str() {
                Some(s) => Some(s.to_owned()),
                None => None,
            },
            None => None,
        }
    }

    /// The unsigned integer under `key`.
    pub fn u64_at(&self, key: &str) -> (r: Option<u64>)
        ensures
            r is Some == self@.u64_at(key@) is Some,
            r matches Some(n) ==> self@.u64_at(key@) == Some(n as int),
    {
        match self.get(key) {
            Some(v) => v.as_u64(),
            None => None,
        }
    }

    /// The signed integer under `key`.
    pub fn i64_at(&self, key: &str) -> (r: Option<i64>)
        ensures
            r is Some == self@.i64_at(key@) is Some,
            r matches Some(n) ==> self@.i64_at(key@) == Some(n as int),
    {
        match self.get(key) {
            Some(v) => v.as_i64(),
            None => None,
        }
    }

    /// Whether `true` stands under `key`.
    pub fn true_at(&self, key: &str) -> (r: bool)
        ensures
            r == self@.true_at(key@),
    {
        match self.get(key) {
            Some(Json::Bool(b)) => *b,
            _ => false,
        }
    }

    /// The texts in the array under `key`, which holds nothing but texts.
    pub fn strs_at(&self, key: &str) -> (r: Option<Vec<String>>)
        ensures
            opt_texts(r) == self@.strs_at(key@),
    {
        match self.get(key) {
            Some(v) => match v.as_array() {
                Some(a) => strings_of(a),
                None => None,
            },
            None => None,
        }
    }

    /// The same value anew.
    pub fn copy(&self) -> (r: Json)
        ensures
            r@ == self@,
        decreases *self,
    {
        match self {
            Json::Null => Json::Null,
            Json::Bool(b) => Json::Bool(*b),
            Json::Int(n) => Json::Int(*n),
            Json::Float(t) => Json::Float(t.clone()),
            Json::Str(t) => Json::Str(t.clone()),
            Json::Array(a) => {
                let mut v: Vec<Json> = Vec::new();
                let mut i: usize = 0;
                while i < a.len()
                    invariant
                        i <= a@.len(),
                        *self == Json::Array(*a),
                        v@.len() == i,
                        forall|j: int| 0 <= j < i ==> (#[trigger] v@[j])@ == a@[j]@,
                    decreases a@.len() - i,
                {
                    proof {
                        assert(decreases_to!(*self => self->Array_0));
                        assert(decreases_to!(*a => a@));
                        assert(decreases_to!(a@ => a@[i as int]));
                    }
                    v.push(a[i].copy());
                    i = i + 1;
                }
                let r = Json::Array(v);
                proof {
                    lemma_array_view(&r);
                    lemma_array_view(self);
                    assert(json_views(v@) =~= json_views(a@));
                }
                r
            },
            Json::Object(m) => {
                let mut v: Vec<(String, Json)> = Vec::new();
                let mut i: usize = 0;
                while i < m.len()
                    invariant
                        i <= m@.len(),
                        *self == Json::Object(*m),
                        v@.len() == i,
                        members(v@, i as nat) == members(m@, i as nat),
                    decreases m@.len() - i,
                {
                    let ghost was = v@;
                    proof {
                        assert(decreases_to!(*self => self->Object_0));
                        assert(decreases_to!(*m => m@));
                        assert(decreases_to!(m@ => m@[i as int]));
                        assert(decreases_to!(m@[i as int] => m@[i as int].1));
                    }
                    v.push((m[i].0.clone(), m[i].1.copy()));
                    proof {
                        lemma_members_prefix(was, v@, i as nat);
                    }
                    i = i + 1;
                }
                Json::Object(v)
            },
        }
    }

    /// The text as a value.
    pub fn of_str(s: &str) -> (r: Json)
        ensures
            r@ == JsonView::Str(s@),
    {
        Json::Str(s.to_owned())
    }

    /// The texts as an array.
    pub fn of_strs(v: &Vec<String>) -> (r: Json)
        ensures
            r@ == str_array(texts(v@)),
    {
        let mut a: Vec<Json> = Vec::new();
        let mut i: usize = 0;
        while i < v.len()
            invariant
                i <= v@.len(),
                a@.len() == i,
                forall|j: int| 0 <= j < i ==> (#[trigger] a@[j])@ == JsonView::Str(v@[j]@),
            decreases v@.len() - i,
        {
            a.push(Json::of_str(v[i].as_str()));
            i = i + 1;
        }
        let r = Json::Array(a);
        proof {
            lemma_array_view(&r);
            assert(json_views(a@) =~= texts(v@).map_values(|s: Seq<char>| JsonView::Str(s)));
        }
        r
    }
}

/// The texts among `a`, in order.
fn strings_of(a: &Vec<Json>) -> (r: Option<Vec<String>>)
    ensures
        opt_texts(r) == strs_of(json_views(a@)),
{
    let mut out: Vec<String> = Vec::new();
    let mut i: usize = 0;
    let ghost t = json_views(a@);
    while i < a.len()
        invariant
            i <= a@.len(),
            t == json_views(a@),
            out@.len() == i,
            forall|j: int| 0 <= j < i ==> t[j] == JsonView::Str((#[trigger] out@[j])@),
        decreases a@.len() - i,
    {
        assert(t[i as int] == a@[i as int]@);
        match a[i].as_str() {
            Some(s) => {
                out.push(s.to_owned());
            },
            None => {
                assert(!(t[i as int] is Str));
                return None;
            },
        }
        i = i + 1;
    }
    proof {
        assert forall|j: int| 0 <= j < t.len() implies #[trigger] t[j] is Str by {
            assert(t[j] == JsonView::Str(out@[j]@));
        }
        assert(texts(out@) =~= t.map_values(|v: JsonView| v->Str_0));
    }
    Some(out)
}

/// The object whose members are listed, built one by one.
pub struct ObjectBuilder {
    items: Vec<(String, Json)>,
}

impl View for ObjectBuilder {
    type V = Map<Seq<char>, JsonView>;

    closed spec fn view(&self) -> Map<Seq<char>, JsonView> {
        members(self.items@, self.items@.len())
    }
}

impl ObjectBuilder {
    pub fn new() -> (r: Self)
        ensures
            r@ == Map::<Seq<char>, JsonView>::empty(),
    {
        ObjectBuilder { items: Vec::new() }
    }

    pub fn put(&mut self, key: &str, v: Json)
        ensures
            final(self)@ == old(self)@.insert(key@, v@),
    {
        let ghost was = self.items@;
        self.items.push((key.to_owned(), v));
        proof {
            lemma_members_prefix(was, self.items@, was.len());
        }
    }

    pub fn build(self) -> (r: Json)
        ensures
            r@ == JsonView::Object(self@),
    {
        Json::Object(self.items)
    }
}

proof fn lemma_members_prefix(a: Seq<(String, Json)>, b: Seq<(String, Json)>, n: nat)
    requires
        n <= a.len(),
        n <= b.len(),
        forall|i: int| 0 <= i < n ==> a[i] == b[i],
    ensures
        members(a, n) == members(b, n),
    decreases n,
{
    if n > 0 {
        lemma_members_prefix(a, b, (n - 1) as nat);
    }
}

/// What is put into an object under a key is read from it under that key, and
/// what is under the other keys stays. What is no object has no members.
pub proof fn law_member_is_read_under_its_key(
    m: Map<Seq<char>, JsonView>,
    k: Seq<char>,
    v: JsonView,
    other: Seq<char>,
    none: JsonView,
)
    requires
        other != k,
        !(none is Object),
    ensures
        JsonView::Object(m.insert(k, v)).get(k) == Some(v),
        JsonView::Object(m.insert(k, v)).get(other) == JsonView::Object(m).get(other),
        JsonView::Object(m.remove(k)).get(k) is None,
        JsonView::Object(Map::empty()).get(k) is None,
        none.get(k) is None,
{
}

/// A member is read as what it is and as nothing else: a text as its characters,
/// a number that fits as its value, a list of texts as its texts, and a switch
/// as on only where it is true.
pub proof fn law_member_is_read_as_what_it_is(o: JsonView, k: Seq<char>, t: Seq<Seq<char>>)
    ensures
        o.get(k) is None ==> o.str_at(k) is None && o.u64_at(k) is None && o.i64_at(k) is None
            && !o.true_at(k) && o.strs_at(k) is None,
        o.get(k) matches Some(v) ==> {
            &&& v matches JsonView::Str(s) ==> o.str_at(k) == Some(s)
            &&& o.str_at(k) is Some <==> v is Str
            &&& v matches JsonView::Int(n) ==> (o.u64_at(k) == Some(n) <==> 0 <= n <= u64::MAX) && (
            o.i64_at(k) == Some(n) <==> i64::MIN <= n <= i64::MAX)
            &&& o.u64_at(k) matches Some(n) ==> v == JsonView::Int(n)
            &&& o.i64_at(k) matches Some(n) ==> v == JsonView::Int(n)
            &&& o.true_at(k) <==> v == JsonView::Bool(true)
            &&& v == str_array(t) ==> o.strs_at(k) == Some(t)
            &&& o.strs_at(k) matches Some(x) ==> v == str_array(x)
        },
{
    if o.get(k) is Some {
        let v = o.get(k)->0;
        if v == str_array(t) {
            let a = v->Array_0;
            assert forall|i: int| 0 <= i < a.len() implies #[trigger] a[i] is Str by {}
            assert(a.map_values(|v: JsonView| v->Str_0) =~= t);
        }
        if o.strs_at(k) is Some {
            let a = v->Array_0;
            let x = o.strs_at(k)->0;
            assert forall|i: int| 0 <= i < a.len() implies a[i] == JsonView::Str(x[i]) by {
                assert(a[i] is Str);
            }
            assert(a =~= x.map_values(|s: Seq<char>| JsonView::Str(s)));
        }
    }
}

} // verus!
