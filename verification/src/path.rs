//! Unix paths as text: joining, taking apart, and the order of `std::path`,
//! which goes by components.
use vstd::prelude::*;

use crate::text::{
    before, cat, cat3, chars_of, find_last, is_before, last_index, lemma_before_asymmetric,
    lemma_before_irreflexive, lemma_before_total, lemma_before_transitive, lemma_last_index,
    lemma_split_nonempty, same, same_list, split, split_on, string_of, texts,
};

verus! {

// ---------------------------------------------------------------------------
// Joining and taking apart
// ---------------------------------------------------------------------------
/// `base` extended by `rest`: an absolute `rest` replaces it, and a separator is
/// put between them where `base` is not empty and does not end in one.
pub open spec fn joined_path(base: Seq<char>, rest: Seq<char>) -> Seq<char> {
    if rest.len() > 0 && rest[0] == '/' {
        rest
    } else if base.len() == 0 || base.last() == '/' {
        base + rest
    } else {
        base + "/"@ + rest
    }
}

/// `base` extended by `rest`.
pub fn join_path(base: &str, rest: &str) -> (r: String)
    ensures
        r@ == joined_path(base@, rest@),
{
    let b = chars_of(base);
    let x = chars_of(rest);
    if x.len() > 0 && x[0] == '/' {
        rest.to_owned()
    } else if b.len() == 0 || b[b.len() - 1] == '/' {
        cat(base, rest)
    } else {
        cat3(base, "/", rest)
    }
}

/// `p` without the separators and the `.` components at its end. A lone `/`
/// and a lone `.` stay.
pub open spec fn without_tail(p: Seq<char>) -> Seq<char>
    decreases p.len(),
{
    if p.len() > 1 && p.last() == '/' {
        without_tail(p.drop_last())
    } else if p.len() > 1 && p.last() == '.' && p[p.len() - 2] == '/' {
        without_tail(p.drop_last())
    } else {
        p
    }
}

/// Where the last component of `p` begins: behind the last separator.
pub open spec fn name_start(p: Seq<char>) -> int
    decreases p.len(),
{
    if p.len() == 0 || p.last() == '/' {
        p.len() as int
    } else {
        name_start(p.drop_last())
    }
}

pub proof fn lemma_name_start(p: Seq<char>)
    ensures
        0 <= name_start(p) <= p.len(),
        name_start(p) > 0 ==> p[name_start(p) - 1] == '/',
        forall|i: int| name_start(p) <= i < p.len() ==> p[i] != '/',
    decreases p.len(),
{
    if p.len() > 0 && p.last() != '/' {
        lemma_name_start(p.drop_last());
        assert forall|i: int| name_start(p) <= i < p.len() implies p[i] != '/' by {
            if i < p.len() - 1 {
                assert(p.drop_last()[i] != '/');
            }
        }
    }
}

/// The last component of `p`, unless `p` is empty, the root, or ends in `.` or
/// `..`.
pub open spec fn path_name(p: Seq<char>) -> Option<Seq<char>> {
    let t = without_tail(p);
    let name = t.subrange(name_start(t), t.len() as int);
    if name.len() == 0 || name == "."@ || name == ".."@ {
        None
    } else {
        Some(name)
    }
}

/// `p` without its last component; nothing where `p` is empty or the root.
pub open spec fn path_parent(p: Seq<char>) -> Option<Seq<char>> {
    let t = without_tail(p);
    if t.len() == 0 || t == "/"@ {
        None
    } else {
        Some(without_tail(t.subrange(0, name_start(t))))
    }
}

fn tail_end(x: &Vec<char>, end: usize) -> (e: usize)
    requires
        end <= x@.len(),
    ensures
        e <= end,
        without_tail(x@.subrange(0, end as int)) == x@.subrange(0, e as int),
{
    let mut e: usize = end;
    while e > 1 && (x[e - 1] == '/' || (x[e - 1] == '.' && x[e - 2] == '/'))
        invariant
            e <= end <= x@.len(),
            without_tail(x@.subrange(0, end as int)) == without_tail(x@.subrange(0, e as int)),
        decreases e,
    {
        assert(x@.subrange(0, e as int).drop_last() =~= x@.subrange(0, e - 1));
        e = e - 1;
    }
    e
}

fn last_name(x: &Vec<char>, end: usize) -> (s: usize)
    requires
        end <= x@.len(),
    ensures
        s <= end,
        s == name_start(x@.subrange(0, end as int)),
{
    let mut s: usize = end;
    while s > 0 && x[s - 1] != '/'
        invariant
            s <= end <= x@.len(),
            name_start(x@.subrange(0, end as int)) == name_start(x@.subrange(0, s as int)),
        decreases s,
    {
        assert(x@.subrange(0, s as int).drop_last() =~= x@.subrange(0, s - 1));
        s = s - 1;
    }
    s
}

/// The last component of a path.
pub fn file_name(p: &str) -> (r: Option<String>)
    ensures
        r is Some == path_name(p@) is Some,
        r matches Some(s) ==> path_name(p@) == Some(s@),
{
    let x = chars_of(p);
    let n: usize = x.len();
    assert(x@.subrange(0, n as int) =~= p@);
    let e = tail_end(&x, n);
    let s = last_name(&x, e);
    let name = string_of(&x, s, e);
    let ghost t = without_tail(p@);
    assert(t.subrange(name_start(t), t.len() as int) =~= name@);
    if name.as_str().is_empty() || same(name.as_str(), ".") || same(name.as_str(), "..") {
        None
    } else {
        Some(name)
    }
}

/// A path without its last component.
pub fn parent(p: &str) -> (r: Option<String>)
    ensures
        r is Some == path_parent(p@) is Some,
        r matches Some(s) ==> path_parent(p@) == Some(s@),
{
    let x = chars_of(p);
    let n: usize = x.len();
    assert(x@.subrange(0, n as int) =~= p@);
    let e = tail_end(&x, n);
    let ghost t = without_tail(p@);
    proof {
        reveal_strlit("/");
        if t.len() == 1 && t[0] == '/' {
            assert(t =~= "/"@);
        }
    }
    if e == 0 || (e == 1 && x[0] == '/') {
        None
    } else {
        let s = last_name(&x, e);
        let q = tail_end(&x, s);
        assert(t.subrange(0, name_start(t)) =~= x@.subrange(0, s as int));
        Some(string_of(&x, 0, q))
    }
}

/// A file name up to its last dot, and what follows it. A name whose only dot
/// leads it has no extension.
pub open spec fn stem_and_extension(name: Seq<char>) -> (Seq<char>, Option<Seq<char>>) {
    match last_index(name, '.') {
        Some(d) => if d > 0 {
            (name.subrange(0, d), Some(name.subrange(d + 1, name.len() as int)))
        } else {
            (name, None)
        },
        None => (name, None),
    }
}

/// Splits a file name at its last dot.
pub fn split_extension(name: &str) -> (r: (String, Option<String>))
    ensures
        r.0@ == stem_and_extension(name@).0,
        r.1 is Some == stem_and_extension(name@).1 is Some,
        r.1 matches Some(x) ==> stem_and_extension(name@).1 == Some(x@),
{
    let x = chars_of(name);
    let n: usize = x.len();
    match find_last(&x, '.') {
        Some(d) => if d > 0 {
            (string_of(&x, 0, d), Some(string_of(&x, d + 1, n)))
        } else {
            (name.to_owned(), None)
        },
        None => (name.to_owned(), None),
    }
}

// ---------------------------------------------------------------------------
// Components and order
// ---------------------------------------------------------------------------
/// A piece of a path that is a component: not empty and not `.`.
pub open spec fn proper(piece: Seq<char>) -> bool {
    piece.len() > 0 && piece != "."@
}

/// The components of a path. The root comes as `/`; a `.` counts only where the
/// path begins with it; repeated separators count once.
pub open spec fn components(p: Seq<char>) -> Seq<Seq<char>> {
    let pieces = split(p, '/');
    let head = if p.len() > 0 && p[0] == '/' {
        seq!["/"@]
    } else if pieces[0] == "."@ {
        seq!["."@]
    } else {
        Seq::empty()
    };
    head + pieces.filter(|x: Seq<char>| proper(x))
}

/// Two paths are equal when their components are.
pub open spec fn same_path(a: Seq<char>, b: Seq<char>) -> bool {
    components(a) == components(b)
}

/// The rank of the kinds of components: the root, `.`, `..`, then names.
pub open spec fn component_rank(c: Seq<char>) -> int {
    if c == "/"@ {
        0
    } else if c == "."@ {
        1
    } else if c == ".."@ {
        2
    } else {
        3
    }
}

/// The order of components: by kind, and names by their text.
pub open spec fn component_before(a: Seq<char>, b: Seq<char>) -> bool {
    component_rank(a) < component_rank(b) || (component_rank(a) == 3 && component_rank(b) == 3
        && before(a, b))
}

/// Lexicographic order over components.
pub open spec fn components_before(a: Seq<Seq<char>>, b: Seq<Seq<char>>) -> bool
    decreases a.len(),
{
    if b.len() == 0 {
        false
    } else if a.len() == 0 {
        true
    } else if a[0] != b[0] {
        component_before(a[0], b[0])
    } else {
        components_before(a.drop_first(), b.drop_first())
    }
}

/// `a` comes before `b` in the order of paths.
pub open spec fn path_before(a: Seq<char>, b: Seq<char>) -> bool {
    components_before(components(a), components(b))
}

proof fn lemma_filter_take(s: Seq<Seq<char>>, i: int)
    requires
        0 <= i < s.len(),
    ensures
        s.take(i + 1).filter(|x: Seq<char>| proper(x)) == (if proper(s[i]) {
            s.take(i).filter(|x: Seq<char>| proper(x)).push(s[i])
        } else {
            s.take(i).filter(|x: Seq<char>| proper(x))
        }),
{
    reveal(Seq::filter);
    assert(s.take(i + 1).drop_last() =~= s.take(i));
}

/// The components of a path.
pub fn path_components(p: &str) -> (r: Vec<String>)
    ensures
        texts(r@) == components(p@),
{
    let pieces = split_on(p, '/');
    proof {
        lemma_split_nonempty(p@, '/');
        reveal_strlit("/");
    }
    let ghost pv = split(p@, '/');
    assert(forall|j: int| 0 <= j < pv.len() ==> pieces@[j]@ == texts(pieces@)[j]);
    let mut out: Vec<String> = Vec::new();
    let chars = chars_of(p);
    if chars.len() > 0 && chars[0] == '/' {
        out.push("/".to_owned());
    } else if same(pieces[0].as_str(), ".") {
        out.push(".".to_owned());
    }
    let ghost head = texts(out@);
    let mut i: usize = 0;
    assert(pv.take(0).filter(|x: Seq<char>| proper(x)) =~= Seq::empty()) by {
        reveal(Seq::filter);
    }
    assert(head =~= head + pv.take(0).filter(|x: Seq<char>| proper(x)));
    while i < pieces.len()
        invariant
            i <= pieces@.len(),
            pv == texts(pieces@),
            pv.len() == pieces@.len(),
            texts(out@) == head + pv.take(i as int).filter(|x: Seq<char>| proper(x)),
        decreases pieces@.len() - i,
    {
        proof {
            lemma_filter_take(pv, i as int);
        }
        assert(pv[i as int] == pieces@[i as int]@);
        if !pieces[i].as_str().is_empty() && !same(pieces[i].as_str(), ".") {
            let ghost prior = out@;
            out.push(pieces[i].clone());
            assert(texts(out@) =~= texts(prior).push(pv[i as int]));
        }
        i = i + 1;
    }
    assert(pv.take(i as int) =~= pv);
    assert(head =~= (if p@.len() > 0 && p@[0] == '/' {
        seq!["/"@]
    } else if pv[0] == "."@ {
        seq!["."@]
    } else {
        Seq::empty()
    }));
    out
}

fn rank(c: &str) -> (r: u8)
    ensures
        r == component_rank(c@),
{
    if same(c, "/") {
        0
    } else if same(c, ".") {
        1
    } else if same(c, "..") {
        2
    } else {
        3
    }
}

/// Whether two paths are equal.
pub fn is_same_path(a: &str, b: &str) -> (r: bool)
    ensures
        r == same_path(a@, b@),
{
    let x = path_components(a);
    let y = path_components(b);
    same_list(&x, &y)
}

/// Whether `a` comes before `b` in the order of paths.
pub fn is_path_before(a: &str, b: &str) -> (r: bool)
    ensures
        r == path_before(a@, b@),
{
    let x = path_components(a);
    let y = path_components(b);
    let ghost xs = texts(x@);
    let ghost ys = texts(y@);
    let mut i: usize = 0;
    assert(xs.skip(0) =~= xs);
    assert(ys.skip(0) =~= ys);
    while i < x.len() && i < y.len() && same(x[i].as_str(), y[i].as_str())
        invariant
            i <= x@.len(),
            i <= y@.len(),
            xs == texts(x@),
            ys == texts(y@),
            components_before(xs, ys) == components_before(xs.skip(i as int), ys.skip(i as int)),
        decreases x@.len() - i,
    {
        assert(xs.skip(i as int).drop_first() =~= xs.skip(i + 1));
        assert(ys.skip(i as int).drop_first() =~= ys.skip(i + 1));
        i = i + 1;
    }
    if i == y.len() {
        false
    } else if i == x.len() {
        true
    } else {
        assert(xs.skip(i as int)[0] == x@[i as int]@);
        assert(ys.skip(i as int)[0] == y@[i as int]@);
        let p = rank(x[i].as_str());
        let q = rank(y[i].as_str());
        p < q || (p == 3 && q == 3 && is_before(x[i].as_str(), y[i].as_str()))
    }
}

proof fn lemma_components_order(a: Seq<Seq<char>>, b: Seq<Seq<char>>)
    ensures
        !components_before(a, a),
        components_before(a, b) ==> !components_before(b, a),
        a == b || components_before(a, b) || components_before(b, a),
    decreases a.len(),
{
    if a.len() > 0 {
        lemma_components_order(a.drop_first(), b.drop_first());
        lemma_before_irreflexive(a[0]);
    }
    if a.len() > 0 && b.len() > 0 {
        if a[0] == b[0] {
            if a.drop_first() == b.drop_first() {
                assert(a =~= seq![a[0]] + a.drop_first());
                assert(b =~= seq![b[0]] + b.drop_first());
            }
        } else {
            lemma_before_total(a[0], b[0]);
            if before(a[0], b[0]) {
                lemma_before_asymmetric(a[0], b[0]);
            }
        }
    } else if a.len() == 0 && b.len() == 0 {
        assert(a =~= b);
    }
}

proof fn lemma_components_transitive(a: Seq<Seq<char>>, b: Seq<Seq<char>>, c: Seq<Seq<char>>)
    requires
        components_before(a, b),
        components_before(b, c),
    ensures
        components_before(a, c),
    decreases a.len(),
{
    if a.len() > 0 && b.len() > 0 && c.len() > 0 {
        if a[0] == b[0] && b[0] == c[0] {
            lemma_components_transitive(a.drop_first(), b.drop_first(), c.drop_first());
        } else if a[0] != b[0] && b[0] != c[0] {
            if component_rank(a[0]) == 3 && component_rank(b[0]) == 3 && component_rank(c[0]) == 3 {
                lemma_before_transitive(a[0], b[0], c[0]);
                lemma_before_irreflexive(a[0]);
            }
        }
    }
}

/// The order of paths is a strict total order up to equality of paths.
pub proof fn lemma_path_order(a: Seq<char>, b: Seq<char>)
    ensures
        !path_before(a, a),
        path_before(a, b) ==> !path_before(b, a),
        same_path(a, b) || path_before(a, b) || path_before(b, a),
        same_path(a, b) ==> !path_before(a, b),
{
    lemma_components_order(components(a), components(b));
}

pub proof fn lemma_path_transitive(a: Seq<char>, b: Seq<char>, c: Seq<char>)
    requires
        path_before(a, b),
        path_before(b, c),
    ensures
        path_before(a, c),
{
    lemma_components_transitive(components(a), components(b), components(c));
}

// ---------------------------------------------------------------------------
// Taking apart what was joined
// ---------------------------------------------------------------------------
/// A single proper component: not empty, without a separator, neither `.` nor
/// `..`.
pub open spec fn plain_name(name: Seq<char>) -> bool {
    name.len() > 0 && !name.contains('/') && name != "."@ && name != ".."@
}

/// A path that joining keeps as it is: the root, or one that does not end in a
/// separator or in a `.` component.
pub open spec fn tidy(p: Seq<char>) -> bool {
    without_tail(p) == p
}

/// The last component and the parent of a tidy, non-empty path extended by a
/// name are that name and that path.
pub proof fn lemma_join_take_apart(base: Seq<char>, name: Seq<char>)
    requires
        tidy(base),
        base.len() > 0,
        plain_name(name),
    ensures
        path_name(joined_path(base, name)) == Some(name),
        path_parent(joined_path(base, name)) == Some(base),
        tidy(joined_path(base, name)),
{
    reveal_strlit("/");
    reveal_strlit(".");
    reveal_strlit("..");
    let p = joined_path(base, name);
    assert(name[0] != '/') by {
        assert(name.contains(name[0]));
    }
    assert(p.last() == name.last());
    assert(name.last() != '/') by {
        assert(name.contains(name.last()));
    }
    let start = p.len() - name.len();
    assert(forall|i: int| start <= i < p.len() ==> p[i] == name[i - start]);
    assert(p[start - 1] == '/');
    if name.last() == '.' && p[p.len() - 2] == '/' {
        if name.len() == 1 {
            assert(name =~= "."@);
        } else {
            assert(p[p.len() - 2] == name[name.len() - 2]);
            assert(name.contains(name[name.len() - 2]));
        }
    }
    assert(without_tail(p) == p);
    lemma_name_start(p);
    assert(name_start(p) == start) by {
        if name_start(p) > start {
            assert(p[name_start(p) - 1] == name[name_start(p) - 1 - start]);
            assert(name.contains(name[name_start(p) - 1 - start]));
        }
        if name_start(p) < start {
            assert(p[start - 1] != '/');
        }
    }
    assert(p.subrange(start, p.len() as int) =~= name);
    assert(p != "/"@) by {
        if p == "/"@ {
            assert(p.len() == 1);
        }
    }
    let q = p.subrange(0, start);
    if base.last() == '/' {
        assert(q =~= base);
    } else {
        assert(q =~= base.push('/'));
        assert(q.drop_last() =~= base);
    }
    assert(without_tail(q) == base);
}

/// A name is split at its last dot, unless that is its first character: its stem,
/// the dot and the extension give it back, and the extension holds no dot.
pub proof fn law_name_is_split_at_its_last_dot(stem: Seq<char>, ext: Seq<char>)
    requires
        stem.len() > 0,
        !ext.contains('.'),
    ensures
        stem_and_extension(stem.push('.') + ext) == (stem, Some(ext)),
{
    let n = stem.push('.') + ext;
    assert forall|j: int| stem.len() < j < n.len() implies n[j] != '.' by {
        assert(n[j] == ext[j - stem.len() - 1]);
        assert(ext.contains(ext[j - stem.len() - 1]));
    }
    lemma_last_index(n, '.', stem.len() as int);
    assert(n.subrange(0, stem.len() as int) =~= stem);
    assert(n.subrange(stem.len() + 1int, n.len() as int) =~= ext);
}

/// A separator at the end of a path makes no difference, and every path is the
/// same as itself.
pub proof fn law_trailing_separator_makes_no_difference(p: Seq<char>)
    requires
        p.len() > 0,
    ensures
        same_path(p.push('/'), p),
        same_path(p, p),
        !path_before(p.push('/'), p),
        !path_before(p, p.push('/')),
{
    let f = |x: Seq<char>| proper(x);
    let s = split(p, '/');
    let t = split(p.push('/'), '/');
    assert(p.push('/').drop_last() =~= p);
    assert(t == s.push(Seq::empty()));
    lemma_split_nonempty(p, '/');
    assert(t[0] == s[0]);
    assert(t.filter(f) == s.filter(f)) by {
        reveal(Seq::filter);
        assert(t.drop_last() =~= s);
    }
    assert(components(p.push('/')) =~= components(p));
    lemma_path_order(p, p.push('/'));
    lemma_path_order(p.push('/'), p);
}

} // verus!
