//! Text as a sequence of characters: the splitting, trimming and number
//! formatting that the rest of the crate is stated over.
use vstd::prelude::*;

verus! {

// ---------------------------------------------------------------------------
// Models of lists and options of text
// ---------------------------------------------------------------------------
/// The contents of a list of strings.
pub open spec fn texts(v: Seq<String>) -> Seq<Seq<char>> {
    Seq::new(v.len(), |i: int| v[i]@)
}

/// The contents of an optional string.
pub open spec fn opt_text(o: Option<String>) -> Option<Seq<char>> {
    match o {
        Some(s) => Some(s@),
        None => None,
    }
}

/// The contents of an optional list of strings.
pub open spec fn opt_texts(o: Option<Vec<String>>) -> Option<Seq<Seq<char>>> {
    match o {
        Some(v) => Some(texts(v@)),
        None => None,
    }
}

/// Pushing a string pushes its contents.
pub broadcast proof fn lemma_texts_push(v: Seq<String>, s: String)
    ensures
        #[trigger] texts(v.push(s)) == texts(v).push(s@),
{
    assert(texts(v.push(s)) =~= texts(v).push(s@));
}

// ---------------------------------------------------------------------------
// Characters
// ---------------------------------------------------------------------------
/// Unicode's `White_Space` property.
pub open spec fn whitespace(c: char) -> bool {
    ||| '\u{9}' <= c <= '\u{D}'
    ||| c == '\u{20}'
    ||| c == '\u{85}'
    ||| c == '\u{A0}'
    ||| c == '\u{1680}'
    ||| '\u{2000}' <= c <= '\u{200A}'
    ||| c == '\u{2028}'
    ||| c == '\u{2029}'
    ||| c == '\u{202F}'
    ||| c == '\u{205F}'
    ||| c == '\u{3000}'
}

/// Unicode's general category `Cc`.
pub open spec fn control(c: char) -> bool {
    c <= '\u{1F}' || '\u{7F}' <= c <= '\u{9F}'
}

pub open spec fn ascii_digit(c: char) -> bool {
    '0' <= c <= '9'
}

pub open spec fn ascii_alphanumeric(c: char) -> bool {
    ascii_digit(c) || 'a' <= c <= 'z' || 'A' <= c <= 'Z'
}

/// Whether `c` is white space.
pub fn is_whitespace(c: char) -> (r: bool)
    ensures
        r == whitespace(c),
{
    ('\u{9}' <= c && c <= '\u{D}') || c == '\u{20}' || c == '\u{85}' || c == '\u{A0}' || c
        == '\u{1680}' || ('\u{2000}' <= c && c <= '\u{200A}') || c == '\u{2028}' || c == '\u{2029}'
        || c == '\u{202F}' || c == '\u{205F}' || c == '\u{3000}'
}

/// Whether `c` is a control character.
pub fn is_control(c: char) -> (r: bool)
    ensures
        r == control(c),
{
    c <= '\u{1F}' || ('\u{7F}' <= c && c <= '\u{9F}')
}

/// A text on one line: its line feeds are blanks.
pub open spec fn on_one_line(s: Seq<char>) -> Seq<char> {
    s.map_values(
        |c: char|
            if c == '\n' {
                ' '
            } else {
                c
            },
    )
}

pub fn is_ascii_digit(c: char) -> (r: bool)
    ensures
        r == ascii_digit(c),
{
    '0' <= c && c <= '9'
}

pub fn is_ascii_alphanumeric(c: char) -> (r: bool)
    ensures
        r == ascii_alphanumeric(c),
{
    is_ascii_digit(c) || ('a' <= c && c <= 'z') || ('A' <= c && c <= 'Z')
}

/// Whether `char::is_alphanumeric` holds of a character.
pub uninterp spec fn alphanumeric(c: char) -> bool;

/// Wraps `char::is_alphanumeric`: a property of the character alone, which
/// holds of every ASCII letter and digit and of no other ASCII character.
#[verifier::external_body]
fn is_alphanumeric(c: char) -> (r: bool)
    ensures
        r == alphanumeric(c),
        c <= '\u{7F}' ==> r == ascii_alphanumeric(c),
{
    c.is_alphanumeric()
}

/// A letter or a digit of any script.
pub open spec fn letter_or_digit(c: char) -> bool {
    if c <= '\u{7F}' {
        ascii_alphanumeric(c)
    } else {
        alphanumeric(c)
    }
}

/// Whether a character is a letter or a digit of any script.
pub fn is_letter_or_digit(c: char) -> (r: bool)
    ensures
        r == letter_or_digit(c),
{
    is_alphanumeric(c)
}

/// What `str::to_lowercase` gives for a text.
pub uninterp spec fn lowercase(s: Seq<char>) -> Seq<char>;

pub open spec fn ascii_lower(c: char) -> char {
    if 'A' <= c <= 'Z' {
        ((c as u32) + 32) as char
    } else {
        c
    }
}

/// Wraps `str::to_lowercase`: a function of the text alone. On an ASCII text
/// it lowers each of the letters `A` to `Z` and keeps every other character.
#[verifier::external_body]
fn to_lowercase(s: &str) -> (r: String)
    ensures
        r@ == lowercase(s@),
        (forall|i: int| 0 <= i < s@.len() ==> s@[i] <= '\u{7F}') ==> r@ == Seq::new(
            s@.len(),
            |i: int| ascii_lower(s@[i]),
        ),
{
    s.to_lowercase()
}

/// A text of ASCII characters.
pub open spec fn ascii(s: Seq<char>) -> bool {
    forall|i: int| 0 <= i < s.len() ==> #[trigger] s[i] <= '\u{7F}'
}

/// An ASCII text with its letters lowered.
pub open spec fn ascii_lowered(s: Seq<char>) -> Seq<char> {
    Seq::new(s.len(), |i: int| ascii_lower(s[i]))
}

/// A text in lower case.
pub open spec fn in_lower_case(s: Seq<char>) -> Seq<char> {
    if ascii(s) {
        ascii_lowered(s)
    } else {
        lowercase(s)
    }
}

/// Puts a text into lower case.
pub fn lower(s: &str) -> (r: String)
    ensures
        r@ == in_lower_case(s@),
{
    to_lowercase(s)
}

/// What `char::to_lowercase` yields for a character.
pub uninterp spec fn char_lowercase(c: char) -> Seq<char>;

/// Wraps `char::to_lowercase`: a function of the character alone, of one or more
/// characters. An ASCII character gives one, lowered where it is a letter.
#[verifier::external_body]
fn lower_chars(c: char) -> (r: Vec<char>)
    ensures
        r@ == char_lowercase(c),
        r@.len() > 0,
        c <= '\u{7F}' ==> r@ == seq![ascii_lower(c)],
{
    c.to_lowercase().collect()
}

/// A text with each of its characters lowered by itself.
pub open spec fn lowered(s: Seq<char>) -> Seq<char>
    decreases s.len(),
{
    if s.len() == 0 {
        Seq::empty()
    } else {
        lowered(s.drop_last()) + char_lowercase(s.last())
    }
}

/// A text with each of its characters lowered by itself.
pub fn lower_each(s: &str) -> (r: String)
    ensures
        r@ == lowered(s@),
{
    let x = chars_of(s);
    let mut out = String::new();
    let mut i: usize = 0;
    assert(x@.take(0) =~= Seq::<char>::empty());
    while i < x.len()
        invariant
            i <= x@.len(),
            out@ == lowered(x@.take(i as int)),
        decreases x@.len() - i,
    {
        assert(x@.take(i + 1).drop_last() =~= x@.take(i as int));
        assert(x@.take(i + 1).last() == x@[i as int]);
        let l = lower_chars(x[i]);
        let ghost was = out@;
        let mut j: usize = 0;
        while j < l.len()
            invariant
                j <= l@.len(),
                out@ =~= was + l@.take(j as int),
            decreases l@.len() - j,
        {
            out.push(l[j]);
            j = j + 1;
        }
        assert(l@.take(l@.len() as int) =~= l@);
        i = i + 1;
    }
    assert(x@.take(x@.len() as int) =~= s@);
    out
}

// ---------------------------------------------------------------------------
// Strings and characters
// ---------------------------------------------------------------------------
/// Specifies `String::push`: the character is appended.
pub assume_specification[ String::push ](s: &mut String, c: char)
    ensures
        final(s)@ == old(s)@.push(c),
;

/// The characters of `s`.
pub fn chars_of(s: &str) -> (r: Vec<char>)
    ensures
        r@ == s@,
{
    let mut v: Vec<char> = Vec::new();
    for c in it: s.chars()
        invariant
            v@ == s@.take(it.index()),
            it.seq() == s@,
    {
        v.push(c);
        assert(s@.take(it.index() + 1) =~= s@.take(it.index()).push(c));
    }
    assert(s@.take(s@.len() as int) =~= s@);
    v
}

/// The string made of the characters `from..to` of `v`.
pub fn string_of(v: &Vec<char>, from: usize, to: usize) -> (r: String)
    requires
        from <= to <= v@.len(),
    ensures
        r@ == v@.subrange(from as int, to as int),
{
    let mut s = String::new();
    let mut i: usize = from;
    while i < to
        invariant
            from <= i <= to <= v@.len(),
            s@ == v@.subrange(from as int, i as int),
        decreases to - i,
    {
        s.push(v[i]);
        i = i + 1;
        assert(v@.subrange(from as int, i as int) =~= v@.subrange(from as int, i - 1).push(
            v@[i - 1],
        ));
    }
    s
}

/// Puts a text on one line: line feeds become blanks.
pub fn to_one_line(s: &str) -> (r: String)
    ensures
        r@ == on_one_line(s@),
{
    let x = chars_of(s);
    let mut out = String::new();
    let mut i: usize = 0;
    while i < x.len()
        invariant
            i <= x@.len(),
            x@ == s@,
            out@ =~= on_one_line(s@).take(i as int),
        decreases x@.len() - i,
    {
        if x[i] == '\n' {
            out.push(' ');
        } else {
            out.push(x[i]);
        }
        i = i + 1;
    }
    assert(on_one_line(s@).take(i as int) =~= on_one_line(s@));
    out
}

/// Whether two texts are equal.
pub fn same(a: &str, b: &str) -> (r: bool)
    ensures
        r == (a@ == b@),
{
    let x = chars_of(a);
    let y = chars_of(b);
    same_chars(&x, &y)
}

pub fn same_chars(x: &Vec<char>, y: &Vec<char>) -> (r: bool)
    ensures
        r == (x@ == y@),
{
    if x.len() != y.len() {
        return false;
    }
    let mut i: usize = 0;
    while i < x.len()
        invariant
            i <= x.len(),
            x@.len() == y@.len(),
            forall|j: int| 0 <= j < i ==> x@[j] == y@[j],
        decreases x.len() - i,
    {
        if x[i] != y[i] {
            return false;
        }
        i = i + 1;
    }
    assert(x@ =~= y@);
    true
}

/// `a` followed by `b`.
pub fn cat(a: &str, b: &str) -> (r: String)
    ensures
        r@ == a@ + b@,
{
    let mut s = a.to_owned();
    s.append(b);
    s
}

/// `a`, `b` and `c` in a row.
pub fn cat3(a: &str, b: &str, c: &str) -> (r: String)
    ensures
        r@ == a@ + b@ + c@,
{
    let mut s = a.to_owned();
    s.append(b);
    s.append(c);
    s
}

/// A copy of a list of strings.
pub fn copy_strings(v: &Vec<String>) -> (r: Vec<String>)
    ensures
        r@ == v@,
        texts(r@) == texts(v@),
{
    let mut out: Vec<String> = Vec::new();
    let mut i: usize = 0;
    while i < v.len()
        invariant
            i <= v.len(),
            out@ == v@.take(i as int),
        decreases v.len() - i,
    {
        out.push(v[i].clone());
        i = i + 1;
        assert(v@.take(i as int) =~= v@.take(i - 1).push(v@[i - 1]));
    }
    assert(v@.take(i as int) =~= v@);
    out
}

pub fn copy_opt_strings(v: &Option<Vec<String>>) -> (r: Option<Vec<String>>)
    ensures
        opt_texts(r) == opt_texts(*v),
        r is Some == v is Some,
        r matches Some(x) ==> x@ == v->0@,
{
    match v {
        Some(x) => Some(copy_strings(x)),
        None => None,
    }
}

pub fn copy_opt_string(s: &Option<String>) -> (r: Option<String>)
    ensures
        r == *s,
{
    match s {
        Some(x) => Some(x.clone()),
        None => None,
    }
}

/// Whether two optional texts are equal.
pub fn same_opt(a: &Option<String>, b: &Option<String>) -> (r: bool)
    ensures
        r == (opt_text(*a) == opt_text(*b)),
{
    match (a, b) {
        (Some(x), Some(y)) => same(x.as_str(), y.as_str()),
        (None, None) => true,
        _ => false,
    }
}

/// Whether two lists of texts are equal.
pub fn same_list(a: &Vec<String>, b: &Vec<String>) -> (r: bool)
    ensures
        r == (texts(a@) == texts(b@)),
{
    if a.len() != b.len() {
        assert(texts(a@).len() != texts(b@).len());
        return false;
    }
    let mut i: usize = 0;
    while i < a.len()
        invariant
            i <= a.len(),
            a@.len() == b@.len(),
            forall|j: int| 0 <= j < i ==> a@[j]@ == b@[j]@,
        decreases a.len() - i,
    {
        if !same(a[i].as_str(), b[i].as_str()) {
            assert(texts(a@)[i as int] != texts(b@)[i as int]);
            return false;
        }
        i = i + 1;
    }
    assert(texts(a@) =~= texts(b@));
    true
}

pub fn same_opt_list(a: &Option<Vec<String>>, b: &Option<Vec<String>>) -> (r: bool)
    ensures
        r == (opt_texts(*a) == opt_texts(*b)),
{
    match (a, b) {
        (Some(x), Some(y)) => same_list(x, y),
        (None, None) => true,
        _ => false,
    }
}

/// Whether `x` is an element of `v`.
pub fn contains_text(v: &Vec<String>, x: &str) -> (r: bool)
    ensures
        r == texts(v@).contains(x@),
{
    let mut i: usize = 0;
    while i < v.len()
        invariant
            i <= v.len(),
            forall|j: int| 0 <= j < i ==> v@[j]@ != x@,
        decreases v.len() - i,
    {
        if same(v[i].as_str(), x) {
            assert(texts(v@)[i as int] == x@);
            return true;
        }
        i = i + 1;
    }
    assert(!texts(v@).contains(x@)) by {
        if texts(v@).contains(x@) {
            let j = choose|j: int| 0 <= j < texts(v@).len() && texts(v@)[j] == x@;
            assert(v@[j]@ == x@);
        }
    }
    false
}

// ---------------------------------------------------------------------------
// Prefixes, suffixes, infixes
// ---------------------------------------------------------------------------
/// `s` begins with `p`.
pub open spec fn has_prefix(s: Seq<char>, p: Seq<char>) -> bool {
    p.len() <= s.len() && s.subrange(0, p.len() as int) == p
}

/// `s` ends with `p`.
pub open spec fn has_suffix(s: Seq<char>, p: Seq<char>) -> bool {
    p.len() <= s.len() && s.subrange(s.len() - p.len(), s.len() as int) == p
}

/// `p` stands in `s` at position `i`.
pub open spec fn infix_at(s: Seq<char>, p: Seq<char>, i: int) -> bool {
    0 <= i && i + p.len() <= s.len() && s.subrange(i, i + p.len()) == p
}

/// `p` stands somewhere in `s`.
pub open spec fn has_infix(s: Seq<char>, p: Seq<char>) -> bool {
    exists|i: int| infix_at(s, p, i)
}

/// Whether `p` stands in `s` at position `at`.
pub fn stands_at(s: &Vec<char>, p: &Vec<char>, at: usize) -> (r: bool)
    requires
        at <= s@.len(),
    ensures
        r == infix_at(s@, p@, at as int),
{
    if p.len() > s.len() - at {
        return false;
    }
    let n: usize = s.len();
    let mut i: usize = 0;
    while i < p.len()
        invariant
            i <= p@.len(),
            at + p@.len() <= n == s@.len(),
            forall|j: int| 0 <= j < i ==> s@[at + j] == p@[j],
        decreases p.len() - i,
    {
        if s[at + i] != p[i] {
            assert(s@.subrange(at as int, at + p@.len())[i as int] != p@[i as int]);
            return false;
        }
        i = i + 1;
    }
    assert(s@.subrange(at as int, at + p@.len()) =~= p@);
    true
}

/// Whether `s` begins with `p`.
pub fn starts_with(s: &str, p: &str) -> (r: bool)
    ensures
        r == has_prefix(s@, p@),
{
    let x = chars_of(s);
    let y = chars_of(p);
    stands_at(&x, &y, 0)
}

/// Whether `s` ends with `p`.
pub fn ends_with(s: &str, p: &str) -> (r: bool)
    ensures
        r == has_suffix(s@, p@),
{
    let x = chars_of(s);
    let y = chars_of(p);
    if y.len() > x.len() {
        return false;
    }
    stands_at(&x, &y, x.len() - y.len())
}

/// What precedes the suffix `p` of `s`, if `s` ends with it.
pub fn strip_suffix(s: &str, p: &str) -> (r: Option<String>)
    ensures
        r is Some == has_suffix(s@, p@),
        r matches Some(t) ==> t@ == s@.subrange(0, s@.len() - p@.len()) && s@ == t@ + p@,
{
    let x = chars_of(s);
    let y = chars_of(p);
    if y.len() > x.len() || !stands_at(&x, &y, x.len() - y.len()) {
        return None;
    }
    let t = string_of(&x, 0, x.len() - y.len());
    assert(s@ =~= t@ + p@) by {
        let n = s@.len() - p@.len();
        assert(s@.subrange(n, s@.len() as int) == p@);
        assert forall|i: int| 0 <= i < s@.len() implies s@[i] == (t@ + p@)[i] by {
            if i >= n {
                assert(s@.subrange(n, s@.len() as int)[i - n] == p@[i - n]);
            }
        }
    }
    Some(t)
}

/// Whether `p` stands somewhere in `s`.
pub fn contains(s: &str, p: &str) -> (r: bool)
    ensures
        r == has_infix(s@, p@),
{
    let x = chars_of(s);
    let y = chars_of(p);
    let mut i: usize = 0;
    loop
        invariant
            i <= x@.len(),
            x@ == s@,
            y@ == p@,
            forall|j: int| 0 <= j < i ==> !infix_at(s@, p@, j),
        decreases x@.len() + 1 - i,
    {
        if stands_at(&x, &y, i) {
            assert(infix_at(s@, p@, i as int));
            return true;
        }
        if i == x.len() {
            assert forall|j: int| !infix_at(s@, p@, j) by {}
            return false;
        }
        i = i + 1;
    }
}

/// Where `p` stands first in `s` at or behind position `from`.
pub open spec fn infix_from(s: Seq<char>, p: Seq<char>, from: int) -> Option<int>
    decreases s.len() + 1 - from,
{
    if from < 0 || from > s.len() {
        None
    } else if infix_at(s, p, from) {
        Some(from)
    } else {
        infix_from(s, p, from + 1)
    }
}

/// The parts of `s` before and behind the first `sep`.
pub open spec fn cut(s: Seq<char>, sep: Seq<char>) -> Option<(Seq<char>, Seq<char>)> {
    match infix_from(s, sep, 0) {
        Some(i) => Some((s.subrange(0, i), s.subrange(i + sep.len(), s.len() as int))),
        None => None,
    }
}

/// The first place of `p` is one before which it nowhere stands.
pub proof fn lemma_infix_from(s: Seq<char>, p: Seq<char>, from: int, i: int)
    requires
        0 <= from <= i,
        infix_at(s, p, i),
        forall|j: int| from <= j < i ==> !infix_at(s, p, j),
    ensures
        infix_from(s, p, from) == Some(i),
    decreases i - from,
{
    if from < i {
        lemma_infix_from(s, p, from + 1, i);
    }
}

/// Splits a text at the first `sep`.
pub fn split_once(s: &str, sep: &str) -> (r: Option<(String, String)>)
    ensures
        r is Some == cut(s@, sep@) is Some,
        r matches Some(x) ==> cut(s@, sep@) == Some((x.0@, x.1@)),
{
    let x = chars_of(s);
    let y = chars_of(sep);
    let n: usize = x.len();
    let m: usize = y.len();
    let mut i: usize = 0;
    loop
        invariant
            i <= n,
            n == x@.len(),
            m == y@.len(),
            x@ == s@,
            y@ == sep@,
            infix_from(s@, sep@, 0) == infix_from(s@, sep@, i as int),
        decreases n - i,
    {
        if stands_at(&x, &y, i) {
            return Some((string_of(&x, 0, i), string_of(&x, i + m, n)));
        }
        if i == n {
            assert(infix_from(s@, sep@, n + 1) is None);
            return None;
        }
        i = i + 1;
    }
}

// ---------------------------------------------------------------------------
// Splitting and trimming
// ---------------------------------------------------------------------------
/// The pieces of `s` between the occurrences of `sep`.
pub open spec fn split(s: Seq<char>, sep: char) -> Seq<Seq<char>>
    decreases s.len(),
{
    if s.len() == 0 {
        seq![Seq::empty()]
    } else {
        let p = split(s.drop_last(), sep);
        if s.last() == sep {
            p.push(Seq::empty())
        } else {
            p.update(p.len() - 1, p.last().push(s.last()))
        }
    }
}

pub proof fn lemma_split_nonempty(s: Seq<char>, sep: char)
    ensures
        split(s, sep).len() > 0,
    decreases s.len(),
{
    if s.len() > 0 {
        lemma_split_nonempty(s.drop_last(), sep);
    }
}

/// The pieces of `s` between the occurrences of `sep`.
pub fn split_on(s: &str, sep: char) -> (r: Vec<String>)
    ensures
        texts(r@) == split(s@, sep),
{
    let x = chars_of(s);
    let mut out: Vec<String> = Vec::new();
    let mut cur = String::new();
    let mut i: usize = 0;
    assert(texts(out@).push(cur@) =~= split(s@.take(0), sep));
    while i < x.len()
        invariant
            i <= x@.len(),
            x@ == s@,
            texts(out@).push(cur@) == split(s@.take(i as int), sep),
        decreases x@.len() - i,
    {
        let ghost before = split(s@.take(i as int), sep);
        proof {
            assert(s@.take(i + 1).drop_last() =~= s@.take(i as int));
            assert(before.last() == cur@);
            assert(before.drop_last() =~= texts(out@));
        }
        if x[i] == sep {
            let ghost prev = out@;
            let mut fresh = String::new();
            let done = cur;
            out.push(done);
            cur = fresh;
            assert(texts(out@) =~= before);
        } else {
            cur.push(x[i]);
            assert(texts(out@).push(cur@) =~= before.update(before.len() - 1, cur@));
        }
        i = i + 1;
    }
    assert(s@.take(i as int) =~= s@);
    let ghost whole = texts(out@).push(cur@);
    out.push(cur);
    assert(texts(out@) =~= whole);
    out
}

/// Text without a separator goes to the last piece.
pub proof fn lemma_split_append(s: Seq<char>, t: Seq<char>, sep: char)
    requires
        !t.contains(sep),
    ensures
        split(s + t, sep) == split(s, sep).update(
            split(s, sep).len() - 1,
            split(s, sep).last() + t,
        ),
    decreases t.len(),
{
    lemma_split_nonempty(s, sep);
    let p = split(s, sep);
    if t.len() == 0 {
        assert(s + t =~= s);
        assert(p.last() + t =~= p.last());
        assert(p.update(p.len() - 1, p.last()) =~= p);
    } else {
        let u = t.drop_last();
        assert(!u.contains(sep)) by {
            if u.contains(sep) {
                let i = choose|i: int| 0 <= i < u.len() && u[i] == sep;
                assert(t[i] == sep);
            }
        }
        lemma_split_append(s, u, sep);
        assert((s + t).drop_last() =~= s + u);
        assert(t[t.len() - 1] != sep) by {
            assert(t.contains(t[t.len() - 1]));
        }
        let q = split(s + u, sep);
        assert(q.last() == p.last() + u);
        assert((p.last() + u).push(t.last()) =~= p.last() + t);
        assert(q.update(q.len() - 1, q.last().push(t.last())) =~= p.update(
            p.len() - 1,
            p.last() + t,
        ));
    }
}

/// A line appended to whole lines is the last line, but for a carriage return at
/// its end.
pub proof fn lemma_lines_append(s: Seq<char>, l: Seq<char>)
    requires
        s.len() == 0 || s.last() == '\n',
        !l.contains('\n'),
    ensures
        lines(s + l + "\n"@) == lines(s).push(without_cr(l)),
{
    reveal_strlit("\n");
    lemma_split_nonempty(s, '\n');
    lemma_split_append(s, l, '\n');
    let p = split(s, '\n');
    let q = split(s + l, '\n');
    assert(p.last().len() == 0);
    assert(p.last() + l =~= l);
    assert(q =~= p.drop_last().push(l));
    let whole = s + l + "\n"@;
    assert(whole.drop_last() =~= s + l);
    assert(split(whole, '\n') == q.push(Seq::empty()));
    assert(split(whole, '\n').drop_last() =~= q);
    let f = |x: Seq<char>| without_cr(x);
    assert(q.map_values(f) =~= p.drop_last().map_values(f).push(without_cr(l)));
}

/// What precedes the first separator is the first piece.
pub proof fn lemma_split_first(a: Seq<char>, b: Seq<char>, sep: char)
    requires
        !a.contains(sep),
    ensures
        split(a.push(sep) + b, sep)[0] == a,
        split(a.push(sep) + b, sep).len() >= 2,
    decreases b.len(),
{
    if b.len() == 0 {
        assert(a.push(sep) + b =~= a.push(sep));
        assert(a.push(sep).drop_last() =~= a);
        lemma_split_append(Seq::empty(), a, sep);
        assert(Seq::<char>::empty() + a =~= a);
        assert(split(a, sep)[0] =~= a);
    } else {
        lemma_split_first(a, b.drop_last(), sep);
        assert((a.push(sep) + b).drop_last() =~= a.push(sep) + b.drop_last());
    }
}

/// `s` without its leading white space.
pub open spec fn trim_start(s: Seq<char>) -> Seq<char>
    decreases s.len(),
{
    if s.len() > 0 && whitespace(s[0]) {
        trim_start(s.drop_first())
    } else {
        s
    }
}

/// `s` without its trailing white space.
pub open spec fn trim_end(s: Seq<char>) -> Seq<char>
    decreases s.len(),
{
    if s.len() > 0 && whitespace(s.last()) {
        trim_end(s.drop_last())
    } else {
        s
    }
}

/// `s` without the white space around it.
pub open spec fn trimmed(s: Seq<char>) -> Seq<char> {
    trim_end(trim_start(s))
}

/// Neither end of a trimmed text is white space.
pub proof fn lemma_trimmed_ends(s: Seq<char>)
    requires
        s.len() > 0,
        trimmed(s) == s,
    ensures
        !whitespace(s[0]),
        !whitespace(s.last()),
{
    lemma_trim_shorter(s);
    lemma_trim_end_shorter(trim_start(s));
    if whitespace(s[0]) {
        lemma_trim_shorter(s.drop_first());
    }
    if whitespace(s.last()) {
        lemma_trim_end_shorter(s.drop_last());
    }
}

proof fn lemma_trim_shorter(s: Seq<char>)
    ensures
        trim_start(s).len() <= s.len(),
        trim_start(s).len() == s.len() ==> trim_start(s) == s,
    decreases s.len(),
{
    if s.len() > 0 && whitespace(s[0]) {
        lemma_trim_shorter(s.drop_first());
    }
}

proof fn lemma_trim_end_shorter(s: Seq<char>)
    ensures
        trim_end(s).len() <= s.len(),
        trim_end(s).len() == s.len() ==> trim_end(s) == s,
    decreases s.len(),
{
    if s.len() > 0 && whitespace(s.last()) {
        lemma_trim_end_shorter(s.drop_last());
    }
}

/// `s` without the white space around it.
pub fn trim(s: &str) -> (r: String)
    ensures
        r@ == trimmed(s@),
{
    let x = chars_of(s);
    let mut a: usize = 0;
    assert(x@.subrange(0, x@.len() as int) =~= s@);
    while a < x.len() && is_whitespace(x[a])
        invariant
            a <= x@.len(),
            x@ == s@,
            trim_start(s@) == trim_start(x@.subrange(a as int, x@.len() as int)),
        decreases x@.len() - a,
    {
        assert(x@.subrange(a as int, x@.len() as int).drop_first() =~= x@.subrange(
            a + 1,
            x@.len() as int,
        ));
        a = a + 1;
    }
    let mut b: usize = x.len();
    assert(trim_start(s@) == x@.subrange(a as int, b as int));
    while b > a && is_whitespace(x[b - 1])
        invariant
            a <= b <= x@.len(),
            x@ == s@,
            trimmed(s@) == trim_end(x@.subrange(a as int, b as int)),
        decreases b,
    {
        assert(x@.subrange(a as int, b as int).drop_last() =~= x@.subrange(a as int, b - 1));
        b = b - 1;
    }
    string_of(&x, a, b)
}

/// The maximal runs of `s` that hold no white space.
pub open spec fn words(s: Seq<char>) -> Seq<Seq<char>>
    decreases s.len(),
{
    if s.len() == 0 {
        Seq::empty()
    } else {
        let p = words(s.drop_last());
        if whitespace(s.last()) {
            p
        } else if s.len() == 1 || whitespace(s[s.len() - 2]) {
            p.push(seq![s.last()])
        } else {
            p.update(p.len() - 1, p.last().push(s.last()))
        }
    }
}

proof fn lemma_words_nonempty(s: Seq<char>)
    requires
        s.len() > 0,
        !whitespace(s.last()),
    ensures
        words(s).len() > 0,
    decreases s.len(),
{
    if s.len() > 1 && !whitespace(s[s.len() - 2]) {
        lemma_words_nonempty(s.drop_last());
    }
}

/// White space in front of a text adds no word to it.
proof fn lemma_words_behind_space(s: Seq<char>)
    requires
        s.len() > 0,
        whitespace(s[0]),
    ensures
        words(s) == words(s.drop_first()),
    decreases s.len(),
{
    let t = s.drop_first();
    if s.len() > 1 {
        lemma_words_behind_space(s.drop_last());
        assert(s.drop_last().drop_first() =~= t.drop_last());
    } else {
        assert(s.drop_last() =~= t);
    }
}

proof fn lemma_words_trim_start(s: Seq<char>)
    ensures
        words(trim_start(s)) == words(s),
    decreases s.len(),
{
    if s.len() > 0 && whitespace(s[0]) {
        lemma_words_behind_space(s);
        lemma_words_trim_start(s.drop_first());
    }
}

proof fn lemma_words_trim_end(s: Seq<char>)
    ensures
        words(trim_end(s)) == words(s),
    decreases s.len(),
{
    if s.len() > 0 && whitespace(s.last()) {
        lemma_words_trim_end(s.drop_last());
    }
}

/// The words of a text are those of the text without the white space around it.
pub proof fn lemma_words_trimmed(s: Seq<char>)
    ensures
        words(trimmed(s)) == words(s),
{
    lemma_words_trim_start(s);
    lemma_words_trim_end(trim_start(s));
}

/// The words of two texts with a blank between them are those of the first and
/// those of the second.
pub proof fn lemma_words_joined(a: Seq<char>, b: Seq<char>)
    ensures
        words(a.push(' ') + b) == words(a) + words(b),
    decreases b.len(),
{
    let s = a.push(' ') + b;
    if b.len() == 0 {
        assert(s.drop_last() =~= a);
        assert(words(a) + words(b) =~= words(a));
    } else {
        lemma_words_joined(a, b.drop_last());
        assert(s.drop_last() =~= a.push(' ') + b.drop_last());
        let p = words(a) + words(b.drop_last());
        let w = words(b.drop_last());
        if whitespace(b.last()) {
        } else if b.len() == 1 || whitespace(b[b.len() - 2]) {
            assert(words(s) == p.push(seq![b.last()]));
            assert(p.push(seq![b.last()]) =~= words(a) + w.push(seq![b.last()]));
        } else {
            lemma_words_nonempty(b.drop_last());
            assert(s[s.len() - 2] == b[b.len() - 2]);
            assert(p.update(p.len() - 1, p.last().push(b.last())) =~= words(a) + w.update(
                w.len() - 1,
                w.last().push(b.last()),
            ));
        }
    }
}

/// Lowering an ASCII text lowers its words.
pub proof fn lemma_words_lowered(s: Seq<char>)
    requires
        ascii(s),
    ensures
        words(ascii_lowered(s)) == words(s).map_values(|w: Seq<char>| ascii_lowered(w)),
        forall|i: int| 0 <= i < words(s).len() ==> ascii(#[trigger] words(s)[i]),
    decreases s.len(),
{
    let f = |w: Seq<char>| ascii_lowered(w);
    if s.len() > 0 {
        let t = s.drop_last();
        let c = s.last();
        let p = words(t);
        assert(c == s[s.len() - 1]);
        lemma_words_lowered(t);
        assert(ascii_lowered(s).drop_last() =~= ascii_lowered(t));
        if whitespace(c) {
        } else if s.len() == 1 || whitespace(s[s.len() - 2]) {
            assert(ascii_lowered(seq![c]) =~= seq![ascii_lower(c)]);
            assert(p.push(seq![c]).map_values(f) =~= p.map_values(f).push(seq![ascii_lower(c)]));
        } else {
            lemma_words_nonempty(t);
            let w = p.last();
            assert(ascii(w)) by {
                assert(w == p[p.len() - 1]);
            }
            assert(ascii_lowered(w.push(c)) =~= ascii_lowered(w).push(ascii_lower(c)));
            assert(p.update(p.len() - 1, w.push(c)).map_values(f) =~= p.map_values(f).update(
                p.len() - 1,
                ascii_lowered(w).push(ascii_lower(c)),
            ));
        }
    } else {
        assert(words(ascii_lowered(s)) =~= words(s).map_values(f));
    }
}

/// The maximal runs of `s` that hold no white space.
pub fn split_whitespace(s: &str) -> (r: Vec<String>)
    ensures
        texts(r@) == words(s@),
{
    let x = chars_of(s);
    let mut out: Vec<String> = Vec::new();
    let mut cur = String::new();
    let mut i: usize = 0;
    assert(texts(out@) =~= words(s@.take(0)));
    while i < x.len()
        invariant
            i <= x@.len(),
            x@ == s@,
            (cur@.len() > 0) == (i > 0 && !whitespace(s@[i - 1])),
            cur@.len() > 0 ==> texts(out@).push(cur@) == words(s@.take(i as int)),
            cur@.len() == 0 ==> texts(out@) == words(s@.take(i as int)),
        decreases x@.len() - i,
    {
        let ghost before = words(s@.take(i as int));
        proof {
            assert(s@.take(i + 1).drop_last() =~= s@.take(i as int));
            if cur@.len() > 0 {
                assert(before.last() == cur@);
                assert(before.drop_last() =~= texts(out@));
            }
        }
        if is_whitespace(x[i]) {
            if !cur.as_str().is_empty() {
                let done = cur;
                out.push(done);
                assert(texts(out@) =~= before);
                cur = String::new();
            }
        } else {
            let ghost was = cur@;
            cur.push(x[i]);
            proof {
                if was.len() > 0 {
                    assert(texts(out@).push(cur@) =~= before.update(before.len() - 1, cur@));
                } else {
                    assert(cur@ =~= seq![s@[i as int]]);
                }
            }
        }
        i = i + 1;
    }
    assert(s@.take(i as int) =~= s@);
    if !cur.as_str().is_empty() {
        let ghost whole = texts(out@).push(cur@);
        out.push(cur);
        assert(texts(out@) =~= whole);
    }
    out
}

/// `s` without one carriage return at its end.
pub open spec fn without_cr(s: Seq<char>) -> Seq<char> {
    if s.len() > 0 && s.last() == '\r' {
        s.drop_last()
    } else {
        s
    }
}

/// The lines of `s`: each ends at a line feed, which it does not hold, nor a
/// carriage return just before it; what follows the last line feed is a line
/// unless it is empty.
pub open spec fn lines(s: Seq<char>) -> Seq<Seq<char>> {
    let p = split(s, '\n');
    let whole = p.drop_last().map_values(|l: Seq<char>| without_cr(l));
    if p.last().len() == 0 {
        whole
    } else {
        whole.push(p.last())
    }
}

fn drop_cr(s: &String) -> (r: String)
    ensures
        r@ == without_cr(s@),
{
    let x = chars_of(s.as_str());
    if x.len() > 0 && x[x.len() - 1] == '\r' {
        let r = string_of(&x, 0, x.len() - 1);
        assert(r@ =~= s@.drop_last());
        r
    } else {
        s.clone()
    }
}

/// The lines of `s`.
pub fn split_lines(s: &str) -> (r: Vec<String>)
    ensures
        texts(r@) == lines(s@),
{
    let p = split_on(s, '\n');
    proof {
        lemma_split_nonempty(s@, '\n');
    }
    let ghost pv = split(s@, '\n');
    assert(p@.len() == pv.len());
    assert(forall|j: int| 0 <= j < pv.len() ==> p@[j]@ == texts(p@)[j]);
    let mut out: Vec<String> = Vec::new();
    let mut i: usize = 0;
    let n: usize = p.len();
    while i < n - 1
        invariant
            n == p@.len() == pv.len(),
            n >= 1,
            i <= n - 1,
            texts(p@) == pv,
            out@.len() == i,
            forall|j: int| 0 <= j < i ==> out@[j]@ == without_cr(pv[j]),
        decreases n - i,
    {
        assert(p@[i as int]@ == texts(p@)[i as int]);
        out.push(drop_cr(&p[i]));
        i = i + 1;
    }
    let ghost whole = pv.drop_last().map_values(|l: Seq<char>| without_cr(l));
    assert(texts(out@) =~= whole);
    assert(p@[n - 1]@ == pv.last());
    if !p[n - 1].as_str().is_empty() {
        out.push(p[n - 1].clone());
        assert(texts(out@) =~= whole.push(pv.last()));
    }
    out
}

/// `parts` in a row with `sep` between them.
pub open spec fn joined(parts: Seq<Seq<char>>, sep: Seq<char>) -> Seq<char>
    decreases parts.len(),
{
    if parts.len() == 0 {
        Seq::empty()
    } else if parts.len() == 1 {
        parts[0]
    } else {
        joined(parts.drop_last(), sep) + sep + parts.last()
    }
}

/// `parts` in a row with `sep` between them.
pub fn join(parts: &Vec<String>, sep: &str) -> (r: String)
    ensures
        r@ == joined(texts(parts@), sep@),
{
    let mut out = String::new();
    let mut i: usize = 0;
    let ghost t = texts(parts@);
    assert(t.take(0) =~= Seq::empty());
    while i < parts.len()
        invariant
            i <= parts@.len(),
            t == texts(parts@),
            out@ == joined(t.take(i as int), sep@),
        decreases parts@.len() - i,
    {
        assert(t.take(i + 1).drop_last() =~= t.take(i as int));
        assert(t[i as int] == parts@[i as int]@);
        if i > 0 {
            out.append(sep);
            out.append(parts[i].as_str());
        } else {
            out.append(parts[i].as_str());
            assert(out@ =~= t[0]);
        }
        i = i + 1;
    }
    assert(t.take(i as int) =~= t);
    out
}

/// The first `n` characters of `s`, or all of them where it is shorter.
pub open spec fn first_chars(s: Seq<char>, n: int) -> Seq<char> {
    if s.len() <= n {
        s
    } else {
        s.subrange(0, n)
    }
}

/// The first `n` characters of `s`, or all of them where it is shorter.
pub fn take_chars(s: &str, n: usize) -> (r: String)
    ensures
        r@ == first_chars(s@, n as int),
{
    let x = chars_of(s);
    if x.len() <= n {
        s.to_owned()
    } else {
        string_of(&x, 0, n)
    }
}

/// A text without its last character; an empty text stays.
pub open spec fn shorter(s: Seq<char>) -> Seq<char> {
    if s.len() == 0 {
        s
    } else {
        s.drop_last()
    }
}

/// A text without its last character.
pub fn drop_last_char(s: &str) -> (r: String)
    ensures
        r@ == shorter(s@),
{
    let x = chars_of(s);
    if x.len() == 0 {
        s.to_owned()
    } else {
        let r = string_of(&x, 0, x.len() - 1);
        assert(r@ =~= shorter(s@));
        r
    }
}

/// Where `c` stands last in `s`, if it does.
pub open spec fn last_index(s: Seq<char>, c: char) -> Option<int>
    decreases s.len(),
{
    if s.len() == 0 {
        None
    } else if s.last() == c {
        Some(s.len() - 1)
    } else {
        last_index(s.drop_last(), c)
    }
}

/// Where `c` stands last in `x`, if it does.
pub fn find_last(x: &Vec<char>, c: char) -> (r: Option<usize>)
    ensures
        r is Some == last_index(x@, c) is Some,
        r matches Some(i) ==> last_index(x@, c) == Some(i as int) && i < x@.len(),
{
    let mut i: usize = x.len();
    assert(x@.take(x@.len() as int) =~= x@);
    while i > 0
        invariant
            i <= x@.len(),
            last_index(x@, c) == last_index(x@.take(i as int), c),
        decreases i,
    {
        if x[i - 1] == c {
            return Some(i - 1);
        }
        assert(x@.take(i as int).drop_last() =~= x@.take(i - 1));
        i = i - 1;
    }
    None
}

/// The last place of `c` is where nothing but other characters follow it.
pub proof fn lemma_last_index(s: Seq<char>, c: char, i: int)
    requires
        0 <= i < s.len(),
        s[i] == c,
        forall|j: int| i < j < s.len() ==> s[j] != c,
    ensures
        last_index(s, c) == Some(i),
    decreases s.len(),
{
    if i < s.len() - 1 {
        lemma_last_index(s.drop_last(), c, i);
    }
}

// ---------------------------------------------------------------------------
// Order and subsequences
// ---------------------------------------------------------------------------
/// Lexicographic order by scalar value, which is also that of the UTF-8 bytes.
pub open spec fn before(a: Seq<char>, b: Seq<char>) -> bool
    decreases a.len(),
{
    if b.len() == 0 {
        false
    } else if a.len() == 0 {
        true
    } else if a[0] != b[0] {
        a[0] < b[0]
    } else {
        before(a.drop_first(), b.drop_first())
    }
}

/// Whether `a` comes before `b` in lexicographic order.
pub fn is_before(a: &str, b: &str) -> (r: bool)
    ensures
        r == before(a@, b@),
{
    let x = chars_of(a);
    let y = chars_of(b);
    let mut i: usize = 0;
    assert(x@.skip(0) =~= a@);
    assert(y@.skip(0) =~= b@);
    while i < x.len() && i < y.len() && x[i] == y[i]
        invariant
            i <= x@.len(),
            i <= y@.len(),
            before(a@, b@) == before(x@.skip(i as int), y@.skip(i as int)),
        decreases x@.len() - i,
    {
        assert(x@.skip(i as int).drop_first() =~= x@.skip(i + 1));
        assert(y@.skip(i as int).drop_first() =~= y@.skip(i + 1));
        i = i + 1;
    }
    if i == y.len() {
        false
    } else if i == x.len() {
        true
    } else {
        x[i] < y[i]
    }
}

pub proof fn lemma_before_irreflexive(a: Seq<char>)
    ensures
        !before(a, a),
    decreases a.len(),
{
    if a.len() > 0 {
        lemma_before_irreflexive(a.drop_first());
    }
}

pub proof fn lemma_before_asymmetric(a: Seq<char>, b: Seq<char>)
    requires
        before(a, b),
    ensures
        !before(b, a),
    decreases a.len(),
{
    if a.len() > 0 && b.len() > 0 && a[0] == b[0] {
        lemma_before_asymmetric(a.drop_first(), b.drop_first());
    }
}

pub proof fn lemma_before_transitive(a: Seq<char>, b: Seq<char>, c: Seq<char>)
    requires
        before(a, b),
        before(b, c),
    ensures
        before(a, c),
    decreases a.len(),
{
    if a.len() > 0 && b.len() > 0 && c.len() > 0 && a[0] == b[0] && b[0] == c[0] {
        lemma_before_transitive(a.drop_first(), b.drop_first(), c.drop_first());
    }
}

pub proof fn lemma_before_total(a: Seq<char>, b: Seq<char>)
    ensures
        a == b || before(a, b) || before(b, a),
    decreases a.len(),
{
    if a.len() == 0 || b.len() == 0 {
        if a.len() == 0 && b.len() == 0 {
            assert(a =~= b);
        }
    } else if a[0] == b[0] {
        lemma_before_total(a.drop_first(), b.drop_first());
        if a.drop_first() == b.drop_first() {
            assert(a =~= seq![a[0]] + a.drop_first());
            assert(b =~= seq![b[0]] + b.drop_first());
        }
    }
}

/// The characters of `needle` stand in `hay` in order, not necessarily side by
/// side.
pub open spec fn subsequence(needle: Seq<char>, hay: Seq<char>) -> bool
    decreases hay.len(),
{
    if needle.len() == 0 {
        true
    } else if hay.len() == 0 {
        false
    } else if needle[0] == hay[0] {
        subsequence(needle.drop_first(), hay.drop_first())
    } else {
        subsequence(needle, hay.drop_first())
    }
}

/// A text that holds no blank is its own only word.
pub proof fn law_unbroken_text_is_one_word(s: Seq<char>)
    requires
        s.len() > 0,
        forall|i: int| 0 <= i < s.len() ==> !whitespace(#[trigger] s[i]),
    ensures
        words(s) == seq![s],
    decreases s.len(),
{
    assert(!whitespace(s.last()));
    if s.len() > 1 {
        assert(!whitespace(s[s.len() - 2]));
        let t = s.drop_last();
        assert forall|i: int| 0 <= i < t.len() implies !whitespace(#[trigger] t[i]) by {
            assert(t[i] == s[i]);
        }
        law_unbroken_text_is_one_word(t);
        assert(t.push(s.last()) =~= s);
        assert(words(s) =~= seq![s]);
    } else {
        assert(words(s.drop_last()) =~= Seq::<Seq<char>>::empty());
        assert(seq![s.last()] =~= s);
        assert(words(s) =~= seq![s]);
    }
}

/// A text is a subsequence of another exactly when its characters can be found
/// there at strictly increasing places.
pub proof fn law_subsequence_is_an_embedding(needle: Seq<char>, hay: Seq<char>)
    ensures
        subsequence(needle, hay) == exists|at: Seq<int>| embeds(needle, hay, at),
    decreases hay.len(),
{
    if needle.len() == 0 {
        assert(embeds(needle, hay, Seq::empty()));
    } else if hay.len() == 0 {
        assert forall|at: Seq<int>| !embeds(needle, hay, at) by {
            if embeds(needle, hay, at) {
                assert(0 <= at[0] < hay.len());
            }
        }
    } else if needle[0] == hay[0] {
        law_subsequence_is_an_embedding(needle.drop_first(), hay.drop_first());
        if subsequence(needle, hay) {
            let at = choose|at: Seq<int>| embeds(needle.drop_first(), hay.drop_first(), at);
            let full = seq![0int] + at.map_values(|p: int| p + 1);
            assert(embeds(needle, hay, full)) by {
                assert forall|i: int| 0 <= i < full.len() implies 0 <= #[trigger] full[i] < hay.len()
                    && hay[full[i]] == needle[i] by {
                    if i > 0 {
                        assert(0 <= at[i - 1] < hay.drop_first().len());
                        assert(needle.drop_first()[i - 1] == needle[i]);
                    }
                }
                assert forall|i: int, j: int| 0 <= i < j < full.len() implies #[trigger] full[i]
                    < #[trigger] full[j] by {
                    assert(0 <= at[j - 1]);
                    if i > 0 {
                        assert(at[i - 1] < at[j - 1]);
                    }
                }
            }
        }
        if exists|at: Seq<int>| embeds(needle, hay, at) {
            let at = choose|at: Seq<int>| embeds(needle, hay, at);
            let rest = at.drop_first().map_values(|p: int| p - 1);
            assert(embeds(needle.drop_first(), hay.drop_first(), rest)) by {
                assert forall|i: int| 0 <= i < rest.len() implies 0 <= #[trigger] rest[i]
                    < hay.drop_first().len() && hay.drop_first()[rest[i]] == needle.drop_first()[i] by {
                    assert(at[0] < at[i + 1]);
                    assert(0 <= at[0]);
                }
                assert forall|i: int, j: int| 0 <= i < j < rest.len() implies #[trigger] rest[i]
                    < #[trigger] rest[j] by {
                    assert(at[i + 1] < at[j + 1]);
                }
            }
        }
    } else {
        law_subsequence_is_an_embedding(needle, hay.drop_first());
        if subsequence(needle, hay) {
            let at = choose|at: Seq<int>| embeds(needle, hay.drop_first(), at);
            let full = at.map_values(|p: int| p + 1);
            assert(embeds(needle, hay, full)) by {
                assert forall|i: int| 0 <= i < full.len() implies 0 <= #[trigger] full[i] < hay.len()
                    && hay[full[i]] == needle[i] by {
                    assert(0 <= at[i] < hay.drop_first().len());
                }
                assert forall|i: int, j: int| 0 <= i < j < full.len() implies #[trigger] full[i]
                    < #[trigger] full[j] by {
                    assert(at[i] < at[j]);
                }
            }
        }
        if exists|at: Seq<int>| embeds(needle, hay, at) {
            let at = choose|at: Seq<int>| embeds(needle, hay, at);
            let rest = at.map_values(|p: int| p - 1);
            assert(embeds(needle, hay.drop_first(), rest)) by {
                assert forall|i: int| 0 <= i < rest.len() implies 0 <= #[trigger] rest[i]
                    < hay.drop_first().len() && hay.drop_first()[rest[i]] == needle[i] by {
                    assert(hay[at[0]] == needle[0]);
                    assert(0 <= at[0]);
                    assert(0 <= at[i]);
                    if i > 0 {
                        assert(at[0] < at[i]);
                    }
                }
                assert forall|i: int, j: int| 0 <= i < j < rest.len() implies #[trigger] rest[i]
                    < #[trigger] rest[j] by {
                    assert(at[i] < at[j]);
                }
            }
        }
    }
}

/// Whether the characters of `needle` stand in `hay` in order.
pub fn is_subsequence(needle: &str, hay: &str) -> (r: bool)
    ensures
        r == subsequence(needle@, hay@),
{
    let n = chars_of(needle);
    let h = chars_of(hay);
    let mut i: usize = 0;
    let mut j: usize = 0;
    assert(n@.skip(0) =~= needle@);
    assert(h@.skip(0) =~= hay@);
    while i < n.len() && j < h.len()
        invariant
            i <= n@.len(),
            j <= h@.len(),
            subsequence(needle@, hay@) == subsequence(n@.skip(i as int), h@.skip(j as int)),
        decreases h@.len() - j,
    {
        assert(n@.skip(i as int).drop_first() =~= n@.skip(i + 1));
        assert(h@.skip(j as int).drop_first() =~= h@.skip(j + 1));
        if n[i] == h[j] {
            i = i + 1;
        }
        j = j + 1;
    }
    i == n.len()
}

/// `at` gives each character of `needle` a place in `hay`, in order.
pub open spec fn embeds(needle: Seq<char>, hay: Seq<char>, at: Seq<int>) -> bool {
    &&& at.len() == needle.len()
    &&& forall|i: int| 0 <= i < at.len() ==> 0 <= #[trigger] at[i] < hay.len() && hay[at[i]] == needle[i]
    &&& forall|i: int, j: int| 0 <= i < j < at.len() ==> #[trigger] at[i] < #[trigger] at[j]
}

// ---------------------------------------------------------------------------
// Numbers
// ---------------------------------------------------------------------------
pub open spec fn digit_char(d: int) -> char {
    ((48 + d) as u32) as char
}

/// The decimal digits of `n`, without a leading zero.
pub open spec fn decimal(n: nat) -> Seq<char>
    decreases n,
{
    if n < 10 {
        seq![digit_char(n as int)]
    } else {
        decimal(n / 10).push(digit_char((n % 10) as int))
    }
}

fn digit(d: u64) -> (c: char)
    requires
        d < 10,
    ensures
        c == digit_char(d as int),
{
    match d {
        0 => '0',
        1 => '1',
        2 => '2',
        3 => '3',
        4 => '4',
        5 => '5',
        6 => '6',
        7 => '7',
        8 => '8',
        _ => '9',
    }
}

/// `n` in decimal.
pub fn to_decimal(n: u64) -> (r: String)
    ensures
        r@ == decimal(n as nat),
    decreases n,
{
    if n < 10 {
        let mut s = String::new();
        s.push(digit(n));
        assert(s@ =~= seq![digit_char(n as int)]);
        s
    } else {
        let mut s = to_decimal(n / 10);
        s.push(digit(n % 10));
        s
    }
}

/// An integer in decimal notation, with a sign where it is negative.
pub open spec fn signed(n: int) -> Seq<char> {
    if n < 0 {
        seq!['-'] + decimal((-n) as nat)
    } else {
        decimal(n as nat)
    }
}

/// An integer in decimal notation.
pub fn to_signed(n: i64) -> (r: String)
    ensures
        r@ == signed(n as int),
{
    if n < 0 {
        let mut s = String::new();
        s.push('-');
        let m: u64 = (-(n as i128)) as u64;
        let d = to_decimal(m);
        s.append(d.as_str());
        s
    } else {
        to_decimal(n as u64)
    }
}

/// The number that a run of decimal digits stands for.
pub open spec fn number_of(s: Seq<char>) -> nat
    decreases s.len(),
{
    if s.len() == 0 {
        0
    } else {
        (number_of(s.drop_last()) * 10 + (s.last() as u32 - 48)) as nat
    }
}

pub open spec fn all_digits(s: Seq<char>) -> bool {
    forall|i: int| 0 <= i < s.len() ==> ascii_digit(#[trigger] s[i])
}

/// What an unsigned decimal number parses to: an optional plus sign, then at
/// least one digit, and a value of at most `max`.
pub open spec fn parsed_number(s: Seq<char>, max: nat) -> Option<nat> {
    let d = if s.len() > 0 && s[0] == '+' {
        s.drop_first()
    } else {
        s
    };
    if d.len() > 0 && all_digits(d) && number_of(d) <= max {
        Some(number_of(d))
    } else {
        None
    }
}

proof fn lemma_number_monotone(s: Seq<char>, i: int)
    requires
        0 <= i <= s.len(),
        all_digits(s),
    ensures
        number_of(s.take(i)) <= number_of(s),
    decreases s.len() - i,
{
    if i < s.len() {
        lemma_number_monotone(s, i + 1);
        assert(s.take(i + 1).drop_last() =~= s.take(i));
        assert(ascii_digit(s[i]));
    } else {
        assert(s.take(i) =~= s);
    }
}

/// Parses an unsigned decimal number of at most `max`.
pub fn parse_number(s: &str, max: u64) -> (r: Option<u64>)
    ensures
        r is Some == parsed_number(s@, max as nat) is Some,
        r matches Some(n) ==> parsed_number(s@, max as nat) == Some(n as nat),
{
    let x = chars_of(s);
    let mut i: usize = 0;
    if x.len() > 0 && x[0] == '+' {
        i = 1;
    }
    let start: usize = i;
    let ghost d = s@.skip(start as int);
    assert(start == 0 ==> d =~= s@);
    assert(start == 1 ==> d =~= s@.drop_first());
    if x.len() == start {
        return None;
    }
    let mut n: u64 = 0;
    assert(d.take(0) =~= Seq::empty());
    while i < x.len()
        invariant
            start <= i <= x@.len(),
            x@ == s@,
            d == s@.skip(start as int),
            n == number_of(d.take(i - start)),
            n <= max,
            d.len() > 0,
            d == (if s@.len() > 0 && s@[0] == '+' {
                s@.drop_first()
            } else {
                s@
            }),
            forall|j: int| 0 <= j < i - start ==> ascii_digit(#[trigger] d[j]),
        decreases x@.len() - i,
    {
        let c = x[i];
        assert(d[i - start] == c);
        if !is_ascii_digit(c) {
            assert(!all_digits(d));
            return None;
        }
        let v: u64 = (c as u32 - 48) as u64;
        assert(d.take(i + 1 - start).drop_last() =~= d.take(i - start));
        if n > max / 10 || v > max - n * 10 {
            proof {
                if all_digits(d) {
                    lemma_number_monotone(d, i + 1 - start);
                }
            }
            return None;
        }
        n = n * 10 + v;
        i = i + 1;
    }
    assert(d.take(i - start) =~= d);
    Some(n)
}

/// Parses an unsigned number of 32 bits.
pub fn parse_u32(s: &str) -> (r: Option<u32>)
    ensures
        r is Some == parsed_number(s@, u32::MAX as nat) is Some,
        r matches Some(n) ==> parsed_number(s@, u32::MAX as nat) == Some(n as nat),
{
    match parse_number(s, u32::MAX as u64) {
        Some(n) => Some(n as u32),
        None => None,
    }
}

pub proof fn lemma_decimal_digits(n: nat)
    ensures
        decimal(n).len() > 0,
        all_digits(decimal(n)),
        number_of(decimal(n)) == n,
    decreases n,
{
    if n < 10 {
        let s = seq![digit_char(n as int)];
        assert(s.drop_last() =~= Seq::empty());
        assert(number_of(s.drop_last()) == 0);
    } else {
        lemma_decimal_digits(n / 10);
        let p = decimal(n / 10);
        let c = digit_char((n % 10) as int);
        assert(p.push(c).drop_last() =~= p);
    }
}

/// A number written in decimal parses back to itself.
pub proof fn lemma_decimal_parses(n: nat, max: nat)
    requires
        n <= max,
    ensures
        parsed_number(decimal(n), max) == Some(n),
{
    lemma_decimal_digits(n);
    assert(ascii_digit(decimal(n)[0]));
}

pub open spec fn hex_char(d: int) -> char {
    if d < 10 {
        ((48 + d) as u32) as char
    } else {
        ((87 + d) as u32) as char
    }
}

/// The last `width` lower-case hexadecimal digits of `n`.
pub open spec fn hex(n: nat, width: nat) -> Seq<char>
    decreases width,
{
    if width == 0 {
        Seq::empty()
    } else {
        hex(n / 16, (width - 1) as nat).push(hex_char((n % 16) as int))
    }
}

fn hex_digit(d: u64) -> (c: char)
    requires
        d < 16,
    ensures
        c == hex_char(d as int),
{
    if d < 10 {
        digit(d)
    } else {
        match d {
            10 => 'a',
            11 => 'b',
            12 => 'c',
            13 => 'd',
            14 => 'e',
            _ => 'f',
        }
    }
}

/// The last `width` lower-case hexadecimal digits of `n`.
pub fn to_hex(n: u64, width: usize) -> (r: String)
    ensures
        r@ == hex(n as nat, width as nat),
    decreases width,
{
    if width == 0 {
        String::new()
    } else {
        let mut s = to_hex(n / 16, width - 1);
        s.push(hex_digit(n % 16));
        s
    }
}

// ---------------------------------------------------------------------------
// Padding
// ---------------------------------------------------------------------------
/// So many spaces, or none.
pub open spec fn spaces(n: int) -> Seq<char> {
    repeated(' ', n)
}

/// A character so many times, or not at all.
pub open spec fn repeated(c: char, n: int) -> Seq<char> {
    Seq::new(
        if n > 0 {
            n as nat
        } else {
            0
        },
        |i: int| c,
    )
}

/// A text with spaces behind it, up to a width.
pub open spec fn padded(s: Seq<char>, width: int) -> Seq<char> {
    s + spaces(width - s.len())
}

/// A text with spaces before it, up to a width.
pub open spec fn indented(s: Seq<char>, width: int) -> Seq<char> {
    spaces(width - s.len()) + s
}

/// A character so many times.
pub fn repeat_char(c: char, n: usize) -> (r: String)
    ensures
        r@ == repeated(c, n as int),
{
    let mut s = String::new();
    let mut i: usize = 0;
    while i < n
        invariant
            i <= n,
            s@ =~= repeated(c, i as int),
        decreases n - i,
    {
        s.push(c);
        i = i + 1;
    }
    s
}

/// How many characters a text has.
pub fn char_count(s: &str) -> (r: usize)
    ensures
        r == s@.len(),
{
    let x = chars_of(s);
    x.len()
}

/// A text with spaces behind it, up to a width.
pub fn pad_right(s: &str, width: usize) -> (r: String)
    ensures
        r@ == padded(s@, width as int),
{
    let n = char_count(s);
    let gap: usize = if n < width {
        width - n
    } else {
        0
    };
    let t = repeat_char(' ', gap);
    let r = cat(s, t.as_str());
    assert(r@ =~= padded(s@, width as int));
    r
}

/// A text with spaces before it, up to a width.
pub fn pad_left(s: &str, width: usize) -> (r: String)
    ensures
        r@ == indented(s@, width as int),
{
    let n = char_count(s);
    let gap: usize = if n < width {
        width - n
    } else {
        0
    };
    let t = repeat_char(' ', gap);
    let r = cat(t.as_str(), s);
    assert(r@ =~= indented(s@, width as int));
    r
}

// ---------------------------------------------------------------------------
// What the pieces of a text are
// ---------------------------------------------------------------------------
proof fn lemma_trim_start_from(s: Seq<char>) -> (k: int)
    ensures
        0 <= k <= s.len(),
        trim_start(s) == s.subrange(k, s.len() as int),
        forall|i: int| 0 <= i < k ==> whitespace(#[trigger] s[i]),
        k < s.len() ==> !whitespace(s[k]),
    decreases s.len(),
{
    if s.len() > 0 && whitespace(s[0]) {
        let t = s.drop_first();
        let k = lemma_trim_start_from(t);
        assert(t.subrange(k, t.len() as int) =~= s.subrange(k + 1, s.len() as int));
        assert forall|i: int| 0 <= i < k + 1 implies whitespace(#[trigger] s[i]) by {
            if i > 0 {
                assert(t[i - 1] == s[i]);
            }
        }
        k + 1
    } else {
        assert(s.subrange(0, s.len() as int) =~= s);
        0
    }
}

proof fn lemma_trim_end_to(s: Seq<char>) -> (k: int)
    ensures
        0 <= k <= s.len(),
        trim_end(s) == s.subrange(0, k),
        forall|i: int| k <= i < s.len() ==> whitespace(#[trigger] s[i]),
        k > 0 ==> !whitespace(s[k - 1]),
    decreases s.len(),
{
    if s.len() > 0 && whitespace(s.last()) {
        let t = s.drop_last();
        let k = lemma_trim_end_to(t);
        assert(t.subrange(0, k) =~= s.subrange(0, k));
        assert forall|i: int| k <= i < s.len() implies whitespace(#[trigger] s[i]) by {
            if i < t.len() {
                assert(t[i] == s[i]);
            }
        }
        if k > 0 {
            assert(t[k - 1] == s[k - 1]);
        }
        k
    } else {
        assert(s.subrange(0, s.len() as int) =~= s);
        s.len() as int
    }
}

/// Trimming takes the blanks from both ends of a text and nothing else: what is
/// left is a piece of the text, starts and ends with no blank, and all around
/// it was blank.
pub proof fn law_trimming_takes_the_blanks_around(s: Seq<char>) -> (r: (int, int))
    ensures
        0 <= r.0 <= r.1 <= s.len(),
        trimmed(s) == s.subrange(r.0, r.1),
        forall|i: int| 0 <= i < r.0 ==> whitespace(#[trigger] s[i]),
        forall|i: int| r.1 <= i < s.len() ==> whitespace(#[trigger] s[i]),
        trimmed(s).len() > 0 ==> !whitespace(trimmed(s)[0]) && !whitespace(trimmed(s).last()),
{
    let i = lemma_trim_start_from(s);
    let t = trim_start(s);
    let k = lemma_trim_end_to(t);
    assert(t.subrange(0, k) =~= s.subrange(i, i + k));
    assert forall|j: int| i + k <= j < s.len() implies whitespace(#[trigger] s[j]) by {
        assert(t[j - i] == s[j]);
    }
    (i, i + k)
}

/// The pieces between the separators are the text: joined by the separator they
/// give it back, and none of them holds one.
pub proof fn law_pieces_join_up(s: Seq<char>, sep: char)
    ensures
        joined(split(s, sep), seq![sep]) == s,
        forall|i: int|
            0 <= i < split(s, sep).len() ==> !(#[trigger] split(s, sep)[i]).contains(sep),
    decreases s.len(),
{
    let q = split(s, sep);
    if s.len() == 0 {
        assert(q[0] =~= s);
        assert(joined(q, seq![sep]) =~= s);
    } else {
        let t = s.drop_last();
        let p = split(t, sep);
        lemma_split_nonempty(t, sep);
        law_pieces_join_up(t, sep);
        assert(t.push(s.last()) =~= s);
        if s.last() == sep {
            assert(q.drop_last() =~= p);
            assert(joined(q, seq![sep]) =~= t + seq![sep] + Seq::<char>::empty());
            assert(joined(q, seq![sep]) =~= s);
            assert forall|i: int| 0 <= i < q.len() implies !(#[trigger] q[i]).contains(sep) by {
                if i < p.len() {
                    assert(q[i] == p[i]);
                }
            }
        } else {
            let n = p.len() - 1;
            assert(q.drop_last() =~= p.drop_last());
            assert(q.last() == p.last().push(s.last()));
            if p.len() == 1 {
                assert(joined(q, seq![sep]) == q[0]);
                assert(joined(p, seq![sep]) == p[0]);
                assert(q[0] =~= s);
            } else {
                assert(joined(q, seq![sep]) =~= joined(p, seq![sep]).push(s.last()));
            }
            assert forall|i: int| 0 <= i < q.len() implies !(#[trigger] q[i]).contains(sep) by {
                if i < n {
                    assert(q[i] == p[i]);
                } else {
                    assert(!p[n].contains(sep));
                    if q[i].contains(sep) {
                        let k = choose|k: int| 0 <= k < q[i].len() && q[i][k] == sep;
                        assert(p[n][k] == sep);
                    }
                }
            }
        }
    }
}

/// A text is cut at the first separator in it: what stands before and behind it
/// are the two parts, and a text without one is not cut.
pub proof fn law_text_is_cut_at_the_first_separator(s: Seq<char>, sep: Seq<char>)
    ensures
        cut(s, sep) is Some <==> has_infix(s, sep),
        cut(s, sep) matches Some(x) ==> {
            &&& x.0 + sep + x.1 == s
            &&& forall|i: int| 0 <= i < x.0.len() ==> !#[trigger] infix_at(s, sep, i)
        },
{
    lemma_infix_search(s, sep, 0);
    if has_infix(s, sep) {
        let k = choose|k: int| infix_at(s, sep, k);
        assert(infix_at(s, sep, k));
    }
    if cut(s, sep) is Some {
        let i = infix_from(s, sep, 0)->0;
        assert(infix_at(s, sep, i));
        let x = cut(s, sep)->0;
        assert(s.subrange(i, i + sep.len()) == sep);
        assert(x.0 + sep + x.1 =~= s) by {
            assert forall|k: int| 0 <= k < s.len() implies (x.0 + sep + x.1)[k] == s[k] by {
                if i <= k < i + sep.len() {
                    assert(s.subrange(i, i + sep.len())[k - i] == s[k]);
                }
            }
        }
    }
}

proof fn lemma_infix_search(s: Seq<char>, sep: Seq<char>, from: int)
    requires
        from >= 0,
    ensures
        infix_from(s, sep, from) matches Some(i) ==> from <= i && infix_at(s, sep, i) && forall|k: int|
            from <= k < i ==> !#[trigger] infix_at(s, sep, k),
        infix_from(s, sep, from) is None ==> forall|k: int|
            from <= k ==> !#[trigger] infix_at(s, sep, k),
    decreases s.len() + 1 - from,
{
    if from <= s.len() && !infix_at(s, sep, from) {
        lemma_infix_search(s, sep, from + 1);
    }
}

/// A text is padded to its width with blanks, behind it or in front, and is never
/// cut.
pub proof fn law_padding_fills_the_width(s: Seq<char>, width: int)
    ensures
        padded(s, width).len() == (if s.len() < width {
            width
        } else {
            s.len() as int
        }),
        indented(s, width).len() == padded(s, width).len(),
        has_prefix(padded(s, width), s),
        has_suffix(indented(s, width), s),
        forall|i: int| s.len() <= i < padded(s, width).len() ==> #[trigger] padded(s, width)[i] == ' ',
        forall|i: int|
            0 <= i < indented(s, width).len() - s.len() ==> #[trigger] indented(s, width)[i] == ' ',
{
    let p = padded(s, width);
    let q = indented(s, width);
    assert(p.subrange(0, s.len() as int) =~= s);
    assert(q.subrange(q.len() - s.len(), q.len() as int) =~= s);
}

/// A text that is put on one line keeps its length and all of its characters but
/// the line feeds, which become blanks.
pub proof fn law_one_line_keeps_the_rest(s: Seq<char>, i: int)
    requires
        0 <= i < s.len(),
    ensures
        on_one_line(s).len() == s.len(),
        s[i] == '\n' ==> on_one_line(s)[i] == ' ',
        s[i] != '\n' ==> on_one_line(s)[i] == s[i],
        !on_one_line(s).contains('\n'),
{
}

/// Letters are lowered one by one: a capital becomes the small letter of the same
/// place in the alphabet, and everything else in ASCII stays.
pub proof fn law_letters_are_lowered_one_by_one(c: char)
    ensures
        'A' <= c <= 'Z' ==> 'a' <= ascii_lower(c) <= 'z' && ascii_lower(c) as u32 - 'a' as u32 == c as u32
            - 'A' as u32,
        !('A' <= c <= 'Z') ==> ascii_lower(c) == c,
        ascii_lower(ascii_lower(c)) == ascii_lower(c),
{
}

} // verus!
