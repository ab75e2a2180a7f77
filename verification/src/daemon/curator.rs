//! The vetted store: under which name and as which document a record is
//! published, and what no longer belongs there.
use vstd::prelude::*;
use vstd::utf8::encode_utf8;

use crate::approved_commands::{read_approved, Template, TemplateView};
use crate::curation::{launch_sets, partition, pending_sets, published};
use crate::daemon::registrations::stored;
use crate::discovery::{
    is_json_name, record_of, record_text, records, RecordView, RegistryEntry,
};
use crate::json::{
    json_pretty, lemma_storable_members, lemma_storable_shallow, lemma_str_array_storable, lemma_strs_of_str_array, print_pretty,
    storable, str_array, Json, JsonView, ObjectBuilder,
};
use crate::launch::opt_str;
use crate::model::{or_empty, str_or_empty};
use crate::palette::{fnv, fnv1a};
use crate::path::stem_and_extension;
use crate::text::{
    cat, cat3, contains_text, decimal, has_suffix, hex, join, joined, lemma_decimal_digits, lemma_lines_append,
    lines, on_one_line, same, texts, to_decimal, to_hex, to_one_line, without_cr,
};

verus! {

// ---------------------------------------------------------------------------
// Names
// ---------------------------------------------------------------------------
/// The file name of a record: a hash of its directory, and its session id.
pub open spec fn published_name(cwd: Seq<char>, session_id: Seq<char>) -> Seq<char> {
    hex(fnv(encode_utf8(cwd)) as nat, 16) + "-"@ + session_id + ".json"@
}

/// The file name of a record in the vetted store. Two directories that claim
/// one session get two names.
pub fn vetted_name(cwd: &str, session_id: &str) -> (r: String)
    ensures
        r@ == published_name(cwd@, session_id@),
{
    let h = to_hex(fnv1a(cwd), 16);
    let mut s = cat3(h.as_str(), "-", session_id);
    s.append(".json");
    s
}

proof fn lemma_hex_len(n: nat, width: nat)
    ensures
        hex(n, width).len() == width,
    decreases width,
{
    if width > 0 {
        lemma_hex_len(n / 16, (width - 1) as nat);
    }
}

/// A record never takes the place of one of another session.
pub proof fn law_names_keep_sessions_apart(
    cwd_a: Seq<char>,
    sid_a: Seq<char>,
    cwd_b: Seq<char>,
    sid_b: Seq<char>,
)
    requires
        published_name(cwd_a, sid_a) == published_name(cwd_b, sid_b),
    ensures
        sid_a == sid_b,
{
    reveal_strlit("-");
    reveal_strlit(".json");
    let (a, b) = (published_name(cwd_a, sid_a), published_name(cwd_b, sid_b));
    lemma_hex_len(fnv(encode_utf8(cwd_a)) as nat, 16);
    lemma_hex_len(fnv(encode_utf8(cwd_b)) as nat, 16);
    assert(a.subrange(17, a.len() - 5) =~= sid_a);
    assert(b.subrange(17, b.len() - 5) =~= sid_b);
}

// ---------------------------------------------------------------------------
// Documents
// ---------------------------------------------------------------------------
/// An object with those of the listed members that have a value.
pub open spec fn object_of(fields: Seq<(Seq<char>, Option<JsonView>)>) -> Map<Seq<char>, JsonView>
    decreases fields.len(),
{
    if fields.len() == 0 {
        Map::empty()
    } else {
        let m = object_of(fields.drop_last());
        match fields.last().1 {
            Some(v) => m.insert(fields.last().0, v),
            None => m,
        }
    }
}

/// No key is listed twice.
pub open spec fn keys_differ(fields: Seq<(Seq<char>, Option<JsonView>)>) -> bool {
    forall|i: int, j: int|
        0 <= i < j < fields.len() ==> (#[trigger] fields[i]).0 != (#[trigger] fields[j]).0
}

proof fn lemma_object_absent(fields: Seq<(Seq<char>, Option<JsonView>)>, key: Seq<char>)
    requires
        forall|i: int| 0 <= i < fields.len() ==> (#[trigger] fields[i]).0 != key,
    ensures
        !object_of(fields).dom().contains(key),
    decreases fields.len(),
{
    if fields.len() > 0 {
        let t = fields.drop_last();
        assert forall|i: int| 0 <= i < t.len() implies (#[trigger] t[i]).0 != key by {
            assert(t[i] == fields[i]);
        }
        lemma_object_absent(t, key);
        assert(fields[fields.len() - 1].0 != key);
    }
}

/// Each listed member is found under its key.
pub proof fn lemma_object_field(fields: Seq<(Seq<char>, Option<JsonView>)>, i: int)
    requires
        keys_differ(fields),
        0 <= i < fields.len(),
    ensures
        JsonView::Object(object_of(fields)).get(fields[i].0) == fields[i].1,
    decreases fields.len(),
{
    let t = fields.drop_last();
    if i < t.len() {
        assert(keys_differ(t)) by {
            assert forall|a: int, b: int| 0 <= a < b < t.len() implies (#[trigger] t[a]).0 != (
            #[trigger] t[b]).0 by {
                assert(fields[a].0 != fields[b].0);
            }
        }
        lemma_object_field(t, i);
        assert(t[i] == fields[i]);
        assert(fields[i].0 != fields[fields.len() - 1].0);
    } else {
        assert forall|k: int| 0 <= k < t.len() implies (#[trigger] t[k]).0 != fields[i].0 by {
            assert(fields[k].0 != fields[i].0);
        }
        lemma_object_absent(t, fields[i].0);
    }
}

proof fn lemma_object_storable(fields: Seq<(Seq<char>, Option<JsonView>)>, depth: nat)
    requires
        forall|i: int|
            0 <= i < fields.len() && (#[trigger] fields[i]).1 is Some ==> storable(
                fields[i].1->0,
                depth,
            ),
    ensures
        storable(JsonView::Object(object_of(fields)), depth + 1),
    decreases fields.len(),
{
    if fields.len() > 0 {
        let t = fields.drop_last();
        assert forall|i: int| 0 <= i < t.len() && (#[trigger] t[i]).1 is Some implies storable(
            t[i].1->0,
            depth,
        ) by {
            assert(t[i] == fields[i]);
        }
        lemma_object_storable(t, depth);
        let m = object_of(fields);
        let n = object_of(t);
        lemma_storable_members(n, depth + 1);
        lemma_storable_members(m, depth + 1);
        assert(fields[fields.len() - 1].1 is Some ==> storable(
            fields[fields.len() - 1].1->0,
            depth,
        ));
        assert forall|k: Seq<char>| #[trigger] m.dom().contains(k) implies storable(m[k], depth) by {
            if n.dom().contains(k) {
                assert(storable(n[k], depth));
            }
        }
    }
}

pub open spec fn str_field(s: Option<Seq<char>>) -> Option<JsonView> {
    match s {
        Some(t) => Some(JsonView::Str(t)),
        None => None,
    }
}

pub open spec fn strs_field(s: Option<Seq<Seq<char>>>) -> Option<JsonView> {
    match s {
        Some(t) => Some(str_array(t)),
        None => None,
    }
}

pub open spec fn flag_field(b: bool) -> Option<JsonView> {
    if b {
        Some(JsonView::Bool(true))
    } else {
        None
    }
}

pub open spec fn u32_field(n: Option<u32>) -> Option<JsonView> {
    match n {
        Some(x) => Some(JsonView::Int(x as int)),
        None => None,
    }
}

pub open spec fn u64_field(n: Option<u64>) -> Option<JsonView> {
    match n {
        Some(x) => Some(JsonView::Int(x as int)),
        None => None,
    }
}

/// The members of a record's document.
pub open spec fn record_fields(r: RecordView) -> Seq<(Seq<char>, Option<JsonView>)> {
    seq![
        ("sessionId"@, Some(JsonView::Str(r.session_id))),
        ("cwd"@, str_field(r.cwd)),
        ("title"@, str_field(r.title)),
        ("socket"@, str_field(r.socket)),
        ("pid"@, u32_field(r.pid)),
        ("pidNamespace"@, u64_field(r.pid_namespace)),
        ("spawnCommand"@, strs_field(r.spawn_command)),
        ("resumeCommand"@, strs_field(r.resume_command)),
        ("label"@, str_field(r.label)),
        ("lastSeen"@, str_field(r.last_seen)),
        ("gui"@, flag_field(r.gui)),
        ("messageFlag"@, str_field(r.message_flag)),
        ("hidden"@, flag_field(r.hidden)),
        ("description"@, str_field(r.description)),
        ("model"@, str_field(r.model)),
        ("entries"@, u64_field(r.entries)),
        ("contextPercent"@, u32_field(r.context_percent)),
        ("contextAge"@, str_field(r.context_age)),
    ]
}

/// A record as a JSON value.
pub open spec fn record_value(r: RecordView) -> JsonView {
    JsonView::Object(object_of(record_fields(r)))
}

proof fn lemma_record_keys(r: RecordView)
    ensures
        keys_differ(record_fields(r)),
{
    reveal_strlit("sessionId");
    reveal_strlit("cwd");
    reveal_strlit("title");
    reveal_strlit("socket");
    reveal_strlit("pid");
    reveal_strlit("pidNamespace");
    reveal_strlit("spawnCommand");
    reveal_strlit("resumeCommand");
    reveal_strlit("label");
    reveal_strlit("lastSeen");
    reveal_strlit("gui");
    reveal_strlit("messageFlag");
    reveal_strlit("hidden");
    reveal_strlit("description");
    reveal_strlit("model");
    reveal_strlit("entries");
    reveal_strlit("contextPercent");
    reveal_strlit("contextAge");
    // Keys of one length differ in their first letter.
    let mark = |k: Seq<char>| (k.len(), k[0]);
    let f = record_fields(r);
    assert(mark("sessionId"@) == (9nat, 's'));
    assert(mark("cwd"@) == (3nat, 'c'));
    assert(mark("title"@) == (5nat, 't'));
    assert(mark("socket"@) == (6nat, 's'));
    assert(mark("pid"@) == (3nat, 'p'));
    assert(mark("pidNamespace"@) == (12nat, 'p'));
    assert(mark("spawnCommand"@) == (12nat, 's'));
    assert(mark("resumeCommand"@) == (13nat, 'r'));
    assert(mark("label"@) == (5nat, 'l'));
    assert(mark("lastSeen"@) == (8nat, 'l'));
    assert(mark("gui"@) == (3nat, 'g'));
    assert(mark("messageFlag"@) == (11nat, 'm'));
    assert(mark("hidden"@) == (6nat, 'h'));
    assert(mark("description"@) == (11nat, 'd'));
    assert(mark("model"@) == (5nat, 'm'));
    assert(mark("entries"@) == (7nat, 'e'));
    assert(mark("contextPercent"@) == (14nat, 'c'));
    assert(mark("contextAge"@) == (10nat, 'c'));
    assert forall|i: int, j: int| 0 <= i < j < f.len() implies (#[trigger] f[i]).0 != (
    #[trigger] f[j]).0 by {
        assert(mark(f[i].0) != mark(f[j].0));
    }
}

/// A record published as a document is read back as it was.
pub proof fn law_record_round_trip(r: RecordView)
    ensures
        record_of(record_value(r)) == Some(r),
        storable(record_value(r), 127),
{
    lemma_record_keys(r);
    let f = record_fields(r);
    assert forall|i: int| 0 <= i < f.len() implies record_value(r).get((#[trigger] f[i]).0)
        == f[i].1 by {
        lemma_object_field(f, i);
    }
    let v = record_value(r);
    assert(v.get(f[0].0) == f[0].1);
    assert(v.get(f[1].0) == f[1].1);
    assert(v.get(f[2].0) == f[2].1);
    assert(v.get(f[3].0) == f[3].1);
    assert(v.get(f[4].0) == f[4].1);
    assert(v.get(f[5].0) == f[5].1);
    assert(v.get(f[6].0) == f[6].1);
    assert(v.get(f[7].0) == f[7].1);
    assert(v.get(f[8].0) == f[8].1);
    assert(v.get(f[9].0) == f[9].1);
    assert(v.get(f[10].0) == f[10].1);
    assert(v.get(f[11].0) == f[11].1);
    assert(v.get(f[12].0) == f[12].1);
    assert(v.get(f[13].0) == f[13].1);
    assert(v.get(f[14].0) == f[14].1);
    assert(v.get(f[15].0) == f[15].1);
    assert(v.get(f[16].0) == f[16].1);
    assert(v.get(f[17].0) == f[17].1);
    if let Some(c) = r.spawn_command {
        lemma_strs_of_str_array(c);
        lemma_str_array_storable(c, 126);
    }
    if let Some(c) = r.resume_command {
        lemma_strs_of_str_array(c);
        lemma_str_array_storable(c, 126);
    }
    assert(record_of(v)->0 =~= r);
    lemma_object_storable(f, 126);
}

fn put_str(b: &mut ObjectBuilder, key: &str, v: &Option<String>)
    ensures
        final(b)@ == (match str_field(crate::text::opt_text(*v)) {
            Some(x) => old(b)@.insert(key@, x),
            None => old(b)@,
        }),
{
    match v {
        Some(t) => b.put(key, Json::of_str(t.as_str())),
        None => {},
    }
}

fn put_strs(b: &mut ObjectBuilder, key: &str, v: &Option<Vec<String>>)
    ensures
        final(b)@ == (match strs_field(crate::text::opt_texts(*v)) {
            Some(x) => old(b)@.insert(key@, x),
            None => old(b)@,
        }),
{
    match v {
        Some(t) => b.put(key, Json::of_strs(t)),
        None => {},
    }
}

fn put_flag(b: &mut ObjectBuilder, key: &str, v: bool)
    ensures
        final(b)@ == (match flag_field(v) {
            Some(x) => old(b)@.insert(key@, x),
            None => old(b)@,
        }),
{
    if v {
        b.put(key, Json::Bool(true));
    }
}

fn put_u32(b: &mut ObjectBuilder, key: &str, v: Option<u32>)
    ensures
        final(b)@ == (match u32_field(v) {
            Some(x) => old(b)@.insert(key@, x),
            None => old(b)@,
        }),
{
    match v {
        Some(n) => b.put(key, Json::Int(n as i128)),
        None => {},
    }
}

fn put_u64(b: &mut ObjectBuilder, key: &str, v: Option<u64>)
    ensures
        final(b)@ == (match u64_field(v) {
            Some(x) => old(b)@.insert(key@, x),
            None => old(b)@,
        }),
{
    match v {
        Some(n) => b.put(key, Json::Int(n as i128)),
        None => {},
    }
}

proof fn lemma_object_next(f: Seq<(Seq<char>, Option<JsonView>)>, n: int)
    requires
        0 <= n < f.len(),
    ensures
        object_of(f.take(n + 1)) == (match f[n].1 {
            Some(v) => object_of(f.take(n)).insert(f[n].0, v),
            None => object_of(f.take(n)),
        }),
{
    assert(f.take(n + 1).drop_last() =~= f.take(n));
}

/// A record as a JSON value.
pub fn record_json_value(rec: &RegistryEntry) -> (r: Json)
    ensures
        r@ == record_value(rec@),
{
    let ghost f = record_fields(rec@);
    let mut b = ObjectBuilder::new();
    proof {
        assert(f.take(0) =~= Seq::empty());
        assert(b@ == object_of(f.take(0)));
        lemma_object_next(f, 0);
        lemma_object_next(f, 1);
        lemma_object_next(f, 2);
        lemma_object_next(f, 3);
        lemma_object_next(f, 4);
        lemma_object_next(f, 5);
        lemma_object_next(f, 6);
        lemma_object_next(f, 7);
        lemma_object_next(f, 8);
        lemma_object_next(f, 9);
        lemma_object_next(f, 10);
        lemma_object_next(f, 11);
        lemma_object_next(f, 12);
        lemma_object_next(f, 13);
        lemma_object_next(f, 14);
        lemma_object_next(f, 15);
        lemma_object_next(f, 16);
        lemma_object_next(f, 17);
    }
    b.put("sessionId", Json::of_str(rec.session_id.as_str()));
    assert(b@ == object_of(f.take(1)));
    put_str(&mut b, "cwd", &rec.cwd);
    assert(b@ == object_of(f.take(2)));
    put_str(&mut b, "title", &rec.title);
    assert(b@ == object_of(f.take(3)));
    put_str(&mut b, "socket", &rec.socket);
    assert(b@ == object_of(f.take(4)));
    put_u32(&mut b, "pid", rec.pid);
    assert(b@ == object_of(f.take(5)));
    put_u64(&mut b, "pidNamespace", rec.pid_namespace);
    assert(b@ == object_of(f.take(6)));
    put_strs(&mut b, "spawnCommand", &rec.spawn_command);
    assert(b@ == object_of(f.take(7)));
    put_strs(&mut b, "resumeCommand", &rec.resume_command);
    assert(b@ == object_of(f.take(8)));
    put_str(&mut b, "label", &rec.label);
    assert(b@ == object_of(f.take(9)));
    put_str(&mut b, "lastSeen", &rec.last_seen);
    assert(b@ == object_of(f.take(10)));
    put_flag(&mut b, "gui", rec.gui);
    assert(b@ == object_of(f.take(11)));
    put_str(&mut b, "messageFlag", &rec.message_flag);
    assert(b@ == object_of(f.take(12)));
    put_flag(&mut b, "hidden", rec.hidden);
    assert(b@ == object_of(f.take(13)));
    put_str(&mut b, "description", &rec.description);
    assert(b@ == object_of(f.take(14)));
    put_str(&mut b, "model", &rec.model);
    assert(b@ == object_of(f.take(15)));
    put_u64(&mut b, "entries", rec.entries);
    assert(b@ == object_of(f.take(16)));
    put_u32(&mut b, "contextPercent", rec.context_percent);
    assert(b@ == object_of(f.take(17)));
    put_str(&mut b, "contextAge", &rec.context_age);
    assert(b@ == object_of(f.take(18)));
    assert(f.take(18) =~= f);
    b.build()
}

/// The document of a vetted record. Reading it gives the record back.
pub fn record_json(rec: &RegistryEntry) -> (r: String)
    ensures
        r@ == json_pretty(record_value(rec@)),
        record_text(r@) == Some(rec@),
{
    proof {
        law_record_round_trip(rec@);
    }
    let v = record_json_value(rec);
    proof {
        lemma_storable_shallow(v@, 127);
    }
    print_pretty(&v)
}

// ---------------------------------------------------------------------------
// Publishing
// ---------------------------------------------------------------------------
/// The file name and document of each record.
pub open spec fn published_files(es: Seq<RecordView>) -> Seq<(Seq<char>, Seq<char>)> {
    es.map_values(
        |e: RecordView|
            (published_name(or_empty(e.cwd), e.session_id), json_pretty(record_value(e))),
    )
}

pub open spec fn file_views(v: Seq<(String, String)>) -> Seq<(Seq<char>, Seq<char>)> {
    Seq::new(v.len(), |i: int| (v[i].0@, v[i].1@))
}

/// The files that the vetted store is to hold: the name and the document of
/// each registered record.
pub fn refresh(registered: &Vec<RegistryEntry>) -> (r: Vec<(String, String)>)
    ensures
        file_views(r@) == published_files(records(registered@)),
{
    let mut out: Vec<(String, String)> = Vec::new();
    let mut i: usize = 0;
    while i < registered.len()
        invariant
            i <= registered@.len(),
            out@.len() == i,
            forall|j: int|
                0 <= j < i ==> (#[trigger] out@[j]).0@ == published_name(
                    or_empty(registered@[j]@.cwd),
                    registered@[j]@.session_id,
                ) && out@[j].1@ == json_pretty(record_value(registered@[j]@)),
        decreases registered@.len() - i,
    {
        let e = &registered[i];
        let name = vetted_name(str_or_empty(&e.cwd), e.session_id.as_str());
        out.push((name, record_json(e)));
        i = i + 1;
    }
    assert(file_views(out@) =~= published_files(records(registered@)));
    out
}

/// The names in the vetted store that are to be removed: records that are not
/// published any more. Files of another kind stay.
pub fn vanished(existing: &Vec<String>, present: &Vec<String>) -> (r: Vec<String>)
    ensures
        texts(r@) == texts(existing@).filter(
            |n: Seq<char>| stem_and_extension(n).1 == Some("json"@) && !texts(present@).contains(n),
        ),
        texts(r@) == no_longer_there(texts(existing@), texts(present@)),
{
    let ghost s = texts(existing@);
    let ghost p = |n: Seq<char>|
        stem_and_extension(n).1 == Some("json"@) && !texts(present@).contains(n);
    let mut out: Vec<String> = Vec::new();
    let mut i: usize = 0;
    proof {
        reveal(Seq::filter);
        assert(s.take(0) =~= Seq::empty());
        assert(texts(out@) =~= s.take(0).filter(p));
    }
    while i < existing.len()
        invariant
            i <= existing@.len(),
            s == texts(existing@),
            p == (|n: Seq<char>|
                stem_and_extension(n).1 == Some("json"@) && !texts(present@).contains(n)),
            texts(out@) == s.take(i as int).filter(p),
        decreases existing@.len() - i,
    {
        proof {
            reveal(Seq::filter);
            assert(s.take(i + 1).drop_last() =~= s.take(i as int));
            assert(s[i as int] == existing@[i as int]@);
        }
        let ghost prior = out@;
        if is_json_name(existing[i].as_str()) && !contains_text(present, existing[i].as_str()) {
            out.push(existing[i].clone());
            assert(texts(out@) =~= texts(prior).push(s[i as int]));
        }
        i = i + 1;
    }
    assert(s.take(i as int) =~= s);
    out
}

/// A file of the vetted store. The text is missing where it cannot be read.
#[derive(Debug, PartialEq, Eq)]
pub struct StoreFile {
    pub name: String,
    pub text: Option<String>,
}

/// The names of files.
pub open spec fn file_names(v: Seq<StoreFile>) -> Seq<Seq<char>> {
    Seq::new(v.len(), |i: int| v[i].name@)
}

/// The texts of the files that can be read, by their names.
pub open spec fn file_texts(v: Seq<StoreFile>) -> Map<Seq<char>, Seq<char>>
    decreases v.len(),
{
    if v.len() == 0 {
        Map::empty()
    } else {
        let m = file_texts(v.drop_last());
        match v.last().text {
            Some(t) => m.insert(v.last().name@, t@),
            None => m.remove(v.last().name@),
        }
    }
}

/// The files of a store once others were written, one after the other.
pub open spec fn written(
    files: Map<Seq<char>, Seq<char>>,
    w: Seq<(Seq<char>, Seq<char>)>,
) -> Map<Seq<char>, Seq<char>>
    decreases w.len(),
{
    if w.len() == 0 {
        files
    } else {
        written(files, w.drop_last()).insert(w.last().0, w.last().1)
    }
}

/// A file holds a text.
pub open spec fn holds(
    files: Map<Seq<char>, Seq<char>>,
    name: Seq<char>,
    text: Seq<char>,
) -> bool {
    files.contains_key(name) && files[name] == text
}

/// Those of the wanted files that have to be written, one after the other: each
/// that the store does not hold as it is wanted.
pub open spec fn to_write(
    files: Map<Seq<char>, Seq<char>>,
    wanted: Seq<(Seq<char>, Seq<char>)>,
) -> Seq<(Seq<char>, Seq<char>)>
    decreases wanted.len(),
{
    if wanted.len() == 0 {
        Seq::empty()
    } else {
        let w = to_write(files, wanted.drop_last());
        if holds(written(files, w), wanted.last().0, wanted.last().1) {
            w
        } else {
            w.push(wanted.last())
        }
    }
}

/// The names of wanted files.
pub open spec fn wanted_names(wanted: Seq<(Seq<char>, Seq<char>)>) -> Seq<Seq<char>> {
    wanted.map_values(|f: (Seq<char>, Seq<char>)| f.0)
}

/// The names of records in a store that are wanted no more, in order.
pub open spec fn unwanted(
    names: Seq<Seq<char>>,
    wanted: Seq<(Seq<char>, Seq<char>)>,
) -> Seq<Seq<char>> {
    names.filter(
        |n: Seq<char>| stem_and_extension(n).1 == Some("json"@) && !wanted_names(wanted).contains(n),
    )
}

/// Whether a store holds a file as it is wanted, once others were written.
fn is_held(
    existing: &Vec<StoreFile>,
    writes: &Vec<(String, String)>,
    name: &str,
    text: &str,
) -> (r: bool)
    ensures
        r == holds(written(file_texts(existing@), file_views(writes@)), name@, text@),
{
    let ghost files = file_texts(existing@);
    let ghost w = file_views(writes@);
    let mut i: usize = writes.len();
    assert(w.take(i as int) =~= w);
    while i > 0
        invariant
            i <= writes@.len(),
            files == file_texts(existing@),
            w == file_views(writes@),
            holds(written(files, w), name@, text@) == holds(
                written(files, w.take(i as int)),
                name@,
                text@,
            ),
        decreases i,
    {
        let f = &writes[i - 1];
        assert(w.take(i as int).drop_last() =~= w.take(i - 1));
        assert(w.take(i as int).last() == (f.0@, f.1@));
        if same(f.0.as_str(), name) {
            return same(f.1.as_str(), text);
        }
        i = i - 1;
    }
    let ghost e = existing@;
    let mut j: usize = existing.len();
    proof {
        assert(w.take(0) =~= Seq::empty());
        assert(e.take(j as int) =~= e);
    }
    while j > 0
        invariant
            j <= existing@.len(),
            e == existing@,
            files == file_texts(existing@),
            w == file_views(writes@),
            holds(written(files, w), name@, text@) == holds(
                file_texts(e.take(j as int)),
                name@,
                text@,
            ),
        decreases j,
    {
        let f = &existing[j - 1];
        assert(e.take(j as int).drop_last() =~= e.take(j - 1));
        assert(e.take(j as int).last() == *f);
        if same(f.name.as_str(), name) {
            return match &f.text {
                Some(t) => same(t.as_str(), text),
                None => false,
            };
        }
        j = j - 1;
    }
    assert(e.take(0) =~= Seq::empty());
    false
}

/// Those of the wanted files that have to be written.
fn changed(existing: &Vec<StoreFile>, wanted: &Vec<(String, String)>) -> (r: Vec<(String, String)>)
    ensures
        file_views(r@) == to_write(file_texts(existing@), file_views(wanted@)),
{
    let ghost files = file_texts(existing@);
    let ghost w = file_views(wanted@);
    let mut out: Vec<(String, String)> = Vec::new();
    let mut i: usize = 0;
    assert(file_views(out@) =~= to_write(files, w.take(0)));
    while i < wanted.len()
        invariant
            i <= wanted@.len(),
            files == file_texts(existing@),
            w == file_views(wanted@),
            file_views(out@) == to_write(files, w.take(i as int)),
        decreases wanted@.len() - i,
    {
        let f = &wanted[i];
        assert(w.take(i + 1).drop_last() =~= w.take(i as int));
        assert(w.take(i + 1).last() == (f.0@, f.1@));
        let ghost prior = out@;
        if !is_held(existing, &out, f.0.as_str(), f.1.as_str()) {
            out.push((f.0.clone(), f.1.clone()));
            assert(file_views(out@) =~= file_views(prior).push((f.0@, f.1@)));
        }
        i = i + 1;
    }
    assert(w.take(i as int) =~= w);
    out
}

/// What brings the vetted store up to date: the files to write, those to remove
/// afterwards, and the launch sets that wait for the operator.
#[derive(Debug, PartialEq, Eq)]
pub struct Reflection {
    pub writes: Vec<(String, String)>,
    pub removals: Vec<String>,
    pub pending: Vec<(String, Template)>,
}

/// Reflects vetted records into the store. Only those that fit the approved kinds
/// are published; a file is written only where it changes; and what is not
/// published any more is removed. `approved` is the text of the approved kinds,
/// `existing` the store as it is.
pub fn reflect(
    vetted: Vec<RegistryEntry>,
    approved: Option<&str>,
    existing: &Vec<StoreFile>,
) -> (r: Reflection)
    ensures
        ({
            let kinds = stored(opt_str(approved));
            let wanted = published_files(published(records(vetted@), kinds));
            &&& file_views(r.writes@) == to_write(file_texts(existing@), wanted)
            &&& texts(r.removals@) == unwanted(file_names(existing@), wanted)
            &&& launch_sets(r.pending@) == pending_sets(records(vetted@), kinds)
        }),
{
    let kinds = read_approved(approved);
    let split = partition(vetted, &kinds);
    let files = refresh(&split.registered);
    let ghost wanted = file_views(files@);
    let writes = changed(existing, &files);
    let mut present: Vec<String> = Vec::new();
    let mut i: usize = 0;
    while i < files.len()
        invariant
            i <= files@.len(),
            wanted == file_views(files@),
            texts(present@) == wanted_names(wanted).take(i as int),
        decreases files@.len() - i,
    {
        let ghost prior = present@;
        present.push(files[i].0.clone());
        assert(texts(present@) =~= texts(prior).push(wanted[i as int].0));
        assert(texts(present@) =~= wanted_names(wanted).take(i + 1));
        i = i + 1;
    }
    assert(texts(present@) =~= wanted_names(wanted));
    let mut names: Vec<String> = Vec::new();
    let mut j: usize = 0;
    while j < existing.len()
        invariant
            j <= existing@.len(),
            texts(names@) == file_names(existing@).take(j as int),
        decreases existing@.len() - j,
    {
        let ghost prior = names@;
        names.push(existing[j].name.clone());
        assert(texts(names@) =~= texts(prior).push(existing@[j as int].name@));
        assert(texts(names@) =~= file_names(existing@).take(j + 1));
        j = j + 1;
    }
    assert(texts(names@) =~= file_names(existing@));
    let removals = vanished(&names, &present);
    Reflection { writes, removals, pending: split.pending }
}

/// Writing only what changes leaves the store as writing everything would.
pub proof fn law_unchanged_files_need_no_writing(
    files: Map<Seq<char>, Seq<char>>,
    wanted: Seq<(Seq<char>, Seq<char>)>,
)
    ensures
        written(files, to_write(files, wanted)) == written(files, wanted),
    decreases wanted.len(),
{
    if wanted.len() > 0 {
        let t = wanted.drop_last();
        law_unchanged_files_need_no_writing(files, t);
        let w = to_write(files, t);
        if holds(written(files, w), wanted.last().0, wanted.last().1) {
            assert(written(files, wanted) =~= written(files, t));
        } else {
            assert(w.push(wanted.last()).drop_last() =~= w);
        }
    }
}

proof fn lemma_written(
    files: Map<Seq<char>, Seq<char>>,
    w: Seq<(Seq<char>, Seq<char>)>,
    name: Seq<char>,
)
    ensures
        written(files, w).contains_key(name) == (files.contains_key(name) || wanted_names(w).contains(
            name,
        )),
        !wanted_names(w).contains(name) && files.contains_key(name) ==> written(files, w)[name]
            == files[name],
        forall|i: int|
            0 <= i < w.len() && (#[trigger] w[i]).0 == name && (forall|j: int|
                i < j < w.len() ==> (#[trigger] w[j]).0 != name) ==> written(files, w)[name]
                == w[i].1,
    decreases w.len(),
{
    let n = wanted_names(w);
    if w.len() > 0 {
        let t = w.drop_last();
        let m = wanted_names(t);
        lemma_written(files, t, name);
        assert(n =~= m.push(w.last().0));
        assert(n.contains(name) == (m.contains(name) || w.last().0 == name)) by {
            if n.contains(name) {
                let k = choose|k: int| 0 <= k < n.len() && n[k] == name;
                if k < m.len() {
                    assert(m[k] == name);
                }
            }
            if m.contains(name) {
                let k = choose|k: int| 0 <= k < m.len() && m[k] == name;
                assert(n[k] == name);
            }
            assert(n[m.len() as int] == w.last().0);
        }
        assert forall|i: int|
            0 <= i < w.len() && (#[trigger] w[i]).0 == name && (forall|j: int|
                i < j < w.len() ==> (#[trigger] w[j]).0 != name) implies written(files, w)[name]
            == w[i].1 by {
            if i < t.len() {
                assert(w[w.len() - 1].0 != name);
                assert(t[i] == w[i]);
                assert forall|j: int| i < j < t.len() implies (#[trigger] t[j]).0 != name by {
                    assert(t[j] == w[j]);
                }
            }
        }
    }
}

/// Once the writes and the removals are done, the store holds exactly the published
/// records: a record's file is there just where one of its name is wanted, with
/// the text that is wanted last under it. Files of another kind stay as they are.
pub proof fn law_store_holds_what_is_published(
    files: Map<Seq<char>, Seq<char>>,
    names: Seq<Seq<char>>,
    wanted: Seq<(Seq<char>, Seq<char>)>,
    name: Seq<char>,
)
    requires
        files.contains_key(name) ==> names.contains(name),
    ensures
        ({
            let end = written(files, to_write(files, wanted)).remove_keys(
                unwanted(names, wanted).to_set(),
            );
            &&& stem_and_extension(name).1 == Some("json"@) ==> end.contains_key(name)
                == wanted_names(wanted).contains(name)
            &&& forall|i: int|
                0 <= i < wanted.len() && (#[trigger] wanted[i]).0 == name && (forall|j: int|
                    i < j < wanted.len() ==> (#[trigger] wanted[j]).0 != name) ==> end[name]
                    == wanted[i].1
            &&& stem_and_extension(name).1 != Some("json"@) && !wanted_names(wanted).contains(name)
                ==> end.contains_key(name) == files.contains_key(name) && (files.contains_key(name)
                ==> end[name] == files[name])
        }),
{
    let p = |n: Seq<char>|
        stem_and_extension(n).1 == Some("json"@) && !wanted_names(wanted).contains(n);
    let gone = unwanted(names, wanted);
    law_unchanged_files_need_no_writing(files, wanted);
    lemma_written(files, wanted, name);
    assert(gone.contains(name) == (names.contains(name) && p(name))) by {
        if gone.contains(name) {
            let k = choose|k: int| 0 <= k < gone.len() && gone[k] == name;
            names.lemma_filter_pred(p, k);
            names.lemma_filter_contains_rev(p, name);
        }
        if names.contains(name) && p(name) {
            let k = choose|k: int| 0 <= k < names.len() && names[k] == name;
            names.lemma_filter_contains(p, k);
        }
    }
    if wanted_names(wanted).contains(name) {
        assert(!gone.contains(name));
    }
    assert forall|i: int|
        0 <= i < wanted.len() && (#[trigger] wanted[i]).0 == name implies wanted_names(wanted).contains(
        name,
    ) by {
        assert(wanted_names(wanted)[i] == name);
    }
}

/// Reflecting the same records again writes nothing, where no two of them share a
/// name.
pub proof fn law_reflecting_again_writes_nothing(
    files: Map<Seq<char>, Seq<char>>,
    wanted: Seq<(Seq<char>, Seq<char>)>,
)
    requires
        wanted_names(wanted).no_duplicates(),
    ensures
        to_write(written(files, wanted), wanted).len() == 0,
{
    lemma_nothing_to_write(files, wanted, wanted.len() as int);
    assert(wanted.take(wanted.len() as int) =~= wanted);
}

proof fn lemma_nothing_to_write(
    files: Map<Seq<char>, Seq<char>>,
    wanted: Seq<(Seq<char>, Seq<char>)>,
    k: int,
)
    requires
        wanted_names(wanted).no_duplicates(),
        0 <= k <= wanted.len(),
    ensures
        to_write(written(files, wanted), wanted.take(k)).len() == 0,
    decreases k,
{
    if k > 0 {
        let end = written(files, wanted);
        let f = wanted[k - 1];
        lemma_nothing_to_write(files, wanted, k - 1);
        assert(wanted.take(k).drop_last() =~= wanted.take(k - 1));
        assert(to_write(end, wanted.take(k - 1)) =~= Seq::empty());
        lemma_written(files, wanted, f.0);
        let n = wanted_names(wanted);
        assert(n[k - 1] == f.0);
        assert forall|j: int| k - 1 < j < wanted.len() implies (#[trigger] wanted[j]).0 != f.0 by {
            assert(n[j] == wanted[j].0);
        }
        assert(holds(end, f.0, f.1));
    }
}

// ---------------------------------------------------------------------------
// Words for the operator
// ---------------------------------------------------------------------------
/// The parts of a launch set's description.
pub open spec fn description_parts(t: TemplateView) -> Seq<Seq<char>> {
    let a = match t.spawn {
        Some(c) => seq!["spawn="@ + joined(c, " "@)],
        None => Seq::empty(),
    };
    let b = match t.resume {
        Some(c) => a.push("resume="@ + joined(c, " "@)),
        None => a,
    };
    let c = if t.gui {
        b.push("gui"@)
    } else {
        b
    };
    match t.message_flag {
        Some(f) => c.push("messageFlag="@ + f),
        None => c,
    }
}

/// One line that shows exactly what a launch set runs.
pub fn describe(t: &Template) -> (r: String)
    ensures
        r@ == joined(description_parts(t@), " "@),
{
    let mut parts: Vec<String> = Vec::new();
    match &t.spawn {
        Some(c) => {
            let argv = join(c, " ");
            parts.push(cat("spawn=", argv.as_str()));
        },
        None => {},
    }
    match &t.resume {
        Some(c) => {
            let argv = join(c, " ");
            parts.push(cat("resume=", argv.as_str()));
        },
        None => {},
    }
    if t.gui {
        parts.push("gui".to_owned());
    }
    match &t.message_flag {
        Some(f) => {
            parts.push(cat("messageFlag=", f.as_str()));
        },
        None => {},
    }
    assert(texts(parts@) =~= description_parts(t@));
    join(&parts, " ")
}

/// A line of the audit log, without its end: the time in seconds, then what
/// happened, on one line.
pub open spec fn audit_entry(seconds: nat, what: Seq<char>) -> Seq<char> {
    decimal(seconds) + " "@ + on_one_line(what)
}

/// A line of the audit log: the time in seconds, then what happened. Line feeds in
/// it are blanks, so that one entry is one line.
pub fn audit(seconds: u64, line: &str) -> (r: String)
    ensures
        r@ == audit_entry(seconds as nat, line@) + "\n"@,
{
    let t = to_decimal(seconds);
    let what = to_one_line(line);
    let mut s = cat3(t.as_str(), " ", what.as_str());
    s.append("\n");
    s
}

/// An entry adds exactly one line to a log of whole lines, whatever it tells of: the
/// entry, but for a carriage return at its end.
pub proof fn law_audit_entry_is_one_line(log: Seq<char>, seconds: nat, what: Seq<char>)
    requires
        log.len() == 0 || log.last() == '\n',
    ensures
        lines(log + audit_entry(seconds, what) + "\n"@) == lines(log).push(
            without_cr(audit_entry(seconds, what)),
        ),
{
    reveal_strlit(" ");
    let d = decimal(seconds);
    let w = on_one_line(what);
    let e = audit_entry(seconds, what);
    lemma_decimal_digits(seconds);
    assert forall|i: int| 0 <= i < e.len() implies e[i] != '\n' by {
        if i < d.len() {
            assert(e[i] == d[i]);
        } else if i > d.len() {
            assert(e[i] == w[i - d.len() - 1]);
        }
    }
    lemma_lines_append(log, e);
}

/// What the operator is shown of a launch set is all of it: a part for each of
/// its commands, word by word, for its own window and for its message flag, and
/// no other part.
pub proof fn law_description_tells_the_whole_launch_set(t: TemplateView)
    ensures
        t.spawn matches Some(c) ==> description_parts(t).contains("spawn="@ + joined(c, " "@)),
        t.resume matches Some(c) ==> description_parts(t).contains("resume="@ + joined(c, " "@)),
        t.gui ==> description_parts(t).contains("gui"@),
        t.message_flag matches Some(f) ==> description_parts(t).contains("messageFlag="@ + f),
        description_parts(t).len() == (if t.spawn is Some {
            1int
        } else {
            0
        }) + (if t.resume is Some {
            1int
        } else {
            0
        }) + (if t.gui {
            1int
        } else {
            0
        }) + (if t.message_flag is Some {
            1int
        } else {
            0
        }),
{
    let p = description_parts(t);
    let i: int = if t.spawn is Some {
        1
    } else {
        0
    };
    let j: int = i + if t.resume is Some {
        1int
    } else {
        0
    };
    let k: int = j + if t.gui {
        1int
    } else {
        0
    };
    if t.spawn is Some {
        assert(p[0] == "spawn="@ + joined(t.spawn->0, " "@));
    }
    if t.resume is Some {
        assert(p[i] == "resume="@ + joined(t.resume->0, " "@));
    }
    if t.gui {
        assert(p[j] == "gui"@);
    }
    if t.message_flag is Some {
        assert(p[k] == "messageFlag="@ + t.message_flag->0);
    }
}

/// Each record is published under a name of its own session, in a file of
/// records, and what is published is the record.
pub proof fn law_each_record_is_published_once(es: Seq<RecordView>, i: int)
    requires
        0 <= i < es.len(),
    ensures
        published_files(es).len() == es.len(),
        published_files(es)[i].1 == json_pretty(record_value(es[i])),
        has_suffix(published_files(es)[i].0, "-"@ + es[i].session_id + ".json"@),
{
    let n = published_files(es)[i].0;
    let t = "-"@ + es[i].session_id + ".json"@;
    let h = hex(fnv(encode_utf8(or_empty(es[i].cwd))) as nat, 16);
    assert(n =~= h + t);
    assert(n.subrange(n.len() - t.len(), n.len() as int) =~= t);
}

/// The record files that are no longer wanted.
pub open spec fn no_longer_there(existing: Seq<Seq<char>>, present: Seq<Seq<char>>) -> Seq<Seq<char>> {
    existing.filter(|n: Seq<char>| stem_and_extension(n).1 == Some("json"@) && !present.contains(n))
}

/// What has vanished is a record file that was there and is not wanted any more,
/// and every such file has.
pub proof fn law_unwanted_record_files_vanish(
    existing: Seq<Seq<char>>,
    present: Seq<Seq<char>>,
    n: Seq<char>,
)
    ensures
        no_longer_there(existing, present).contains(n) <==> existing.contains(n)
            && !present.contains(n) && stem_and_extension(n).1 == Some("json"@),
{
    let p = |n: Seq<char>| stem_and_extension(n).1 == Some("json"@) && !present.contains(n);
    let r = existing.filter(p);
    if existing.contains(n) && p(n) {
        let k = choose|k: int| 0 <= k < existing.len() && existing[k] == n;
        existing.lemma_filter_contains(p, k);
    }
    if r.contains(n) {
        let k = choose|k: int| 0 <= k < r.len() && r[k] == n;
        existing.lemma_filter_pred(p, k);
        existing.lemma_filter_contains_rev(p, n);
    }
}

} // verus!
