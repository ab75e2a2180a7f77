//! A stable mapping from directories to colours, and the name on a directory's
//! pill.
use vstd::prelude::*;
use vstd::utf8::encode_utf8;

use crate::path::{lemma_name_start, name_start};
use crate::text::chars_of;

verus! {

/// `p` without the separators at its end.
pub open spec fn without_slashes(p: Seq<char>) -> Seq<char>
    decreases p.len(),
{
    if p.len() > 0 && p.last() == '/' {
        without_slashes(p.drop_last())
    } else {
        p
    }
}

/// The last component of a path, trailing separators aside; the whole text
/// where it consists of separators only.
pub open spec fn leaf(p: Seq<char>) -> Seq<char> {
    let t = without_slashes(p);
    if t.len() == 0 {
        p
    } else {
        t.subrange(name_start(t), t.len() as int)
    }
}

/// The last component of a path.
pub fn basename(path: &str) -> (r: &str)
    ensures
        r@ == leaf(path@),
{
    let x = chars_of(path);
    let mut e: usize = x.len();
    assert(x@.take(e as int) =~= path@);
    while e > 0 && x[e - 1] == '/'
        invariant
            e <= x@.len(),
            without_slashes(path@) == without_slashes(x@.take(e as int)),
        decreases e,
    {
        assert(x@.take(e as int).drop_last() =~= x@.take(e - 1));
        e = e - 1;
    }
    if e == 0 {
        assert(x@.take(0).len() == 0);
        return path;
    }
    let ghost t = without_slashes(path@);
    assert(t =~= x@.take(e as int));
    let mut s: usize = e;
    while s > 0 && x[s - 1] != '/'
        invariant
            s <= e <= x@.len(),
            x@ == path@,
            t == x@.take(e as int),
            name_start(t) == name_start(x@.take(s as int)),
        decreases s,
    {
        assert(x@.take(s as int).drop_last() =~= x@.take(s - 1));
        s = s - 1;
    }
    proof {
        lemma_name_start(t);
    }
    assert(t.subrange(name_start(t), t.len() as int) =~= path@.subrange(s as int, e as int));
    path.substring_char(s, e)
}

/// The name of a directory's leaf holds no separator unless the path consists
/// of separators only.
pub proof fn law_leaf_has_no_separator(p: Seq<char>)
    requires
        without_slashes(p).len() > 0,
    ensures
        leaf(p).len() > 0,
        !leaf(p).contains('/'),
{
    let t = without_slashes(p);
    lemma_without_slashes(p);
    lemma_name_start(t);
    assert forall|i: int| 0 <= i < leaf(p).len() implies leaf(p)[i] != '/' by {
        assert(leaf(p)[i] == t[name_start(t) + i]);
    }
}

proof fn lemma_without_slashes(p: Seq<char>)
    ensures
        without_slashes(p).len() > 0 ==> without_slashes(p).last() != '/',
    decreases p.len(),
{
    if p.len() > 0 && p.last() == '/' {
        lemma_without_slashes(p.drop_last());
    }
}

/// The 64-bit FNV-1a hash of a run of bytes.
pub open spec fn fnv(bytes: Seq<u8>) -> u64
    decreases bytes.len(),
{
    if bytes.len() == 0 {
        0xcbf29ce484222325
    } else {
        let h = fnv(bytes.drop_last()) ^ (bytes.last() as u64);
        h.wrapping_mul(0x100000001b3)
    }
}

/// The FNV-1a hash of a text's bytes.
pub fn fnv1a(s: &str) -> (r: u64)
    ensures
        r == fnv(encode_utf8(s@)),
{
    let b = s.as_bytes();
    let mut hash: u64 = 0xcbf29ce484222325;
    let mut i: usize = 0;
    assert(b@.take(0) =~= Seq::empty());
    while i < b.len()
        invariant
            i <= b@.len(),
            hash == fnv(b@.take(i as int)),
        decreases b@.len() - i,
    {
        assert(b@.take(i + 1).drop_last() =~= b@.take(i as int));
        hash = hash ^ (b[i] as u64);
        hash = hash.wrapping_mul(0x100000001b3);
        i = i + 1;
    }
    assert(b@.take(i as int) =~= b@);
    hash
}

/// The colour bucket of a path among `n`; always the same for one path.
pub fn color_index(path: &str, n: usize) -> (r: usize)
    ensures
        n == 0 ==> r == 0,
        n > 0 ==> r == fnv(encode_utf8(path@)) as int % n as int,
        n > 0 ==> r < n,
{
    if n == 0 {
        return 0;
    }
    let h = fnv1a(path);
    (h % (n as u64)) as usize
}

/// The last component of a path is what stands behind its last separator, and
/// separators at its end do not matter.
pub proof fn law_leaf_is_the_last_component(dir: Seq<char>, name: Seq<char>)
    requires
        name.len() > 0,
        !name.contains('/'),
    ensures
        leaf(name) == name,
        leaf(dir.push('/') + name) == name,
        leaf((dir.push('/') + name).push('/')) == name,
{
    let p = dir.push('/') + name;
    assert(name.contains(name.last()));
    assert(p.last() == name.last());
    assert(p.push('/').drop_last() =~= p);
    assert(without_slashes(p) == p);
    assert(without_slashes(p.push('/')) == p);
    assert(without_slashes(name) == name);
    lemma_name_behind(dir, name);
    lemma_name_alone(name);
    assert(p.subrange(dir.len() + 1int, p.len() as int) =~= name);
    assert(name.subrange(0, name.len() as int) =~= name);
}

proof fn lemma_name_behind(dir: Seq<char>, name: Seq<char>)
    requires
        !name.contains('/'),
    ensures
        name_start(dir.push('/') + name) == dir.len() + 1,
    decreases name.len(),
{
    let p = dir.push('/') + name;
    if name.len() == 0 {
        assert(p =~= dir.push('/'));
    } else {
        let t = name.drop_last();
        assert(name.contains(name.last()));
        assert(p.drop_last() =~= dir.push('/') + t);
        assert(!t.contains('/')) by {
            if t.contains('/') {
                let k = choose|k: int| 0 <= k < t.len() && t[k] == '/';
                assert(name[k] == '/');
            }
        }
        lemma_name_behind(dir, t);
    }
}

proof fn lemma_name_alone(name: Seq<char>)
    requires
        !name.contains('/'),
    ensures
        name_start(name) == 0,
    decreases name.len(),
{
    if name.len() > 0 {
        let t = name.drop_last();
        assert(name.contains(name.last()));
        assert(!t.contains('/')) by {
            if t.contains('/') {
                let k = choose|k: int| 0 <= k < t.len() && t[k] == '/';
                assert(name[k] == '/');
            }
        }
        lemma_name_alone(t);
    }
}

} // verus!
