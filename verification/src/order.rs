//! A stable sort, and what it promises.
use vstd::prelude::*;

verus! {

/// `x` put into `s` behind every element that it does not come before.
pub open spec fn placed<A>(s: Seq<A>, x: A, lt: spec_fn(A, A) -> bool) -> Seq<A>
    decreases s.len(),
{
    if s.len() > 0 && lt(x, s.last()) {
        placed(s.drop_last(), x, lt).push(s.last())
    } else {
        s.push(x)
    }
}

/// `s` in the order `lt`, elements that neither comes before the other in
/// their given order.
pub open spec fn sorted_by<A>(s: Seq<A>, lt: spec_fn(A, A) -> bool) -> Seq<A>
    decreases s.len(),
{
    if s.len() == 0 {
        s
    } else {
        placed(sorted_by(s.drop_last(), lt), s.last(), lt)
    }
}

/// `lt` orders its elements up to ties: of two elements at most one comes before
/// the other, and not coming before carries over.
pub open spec fn weak_order<A>(lt: spec_fn(A, A) -> bool) -> bool {
    &&& forall|a: A, b: A| #[trigger] lt(a, b) ==> !lt(b, a)
    &&& forall|a: A, b: A, c: A|
        !#[trigger] lt(b, a) && !#[trigger] lt(c, b) ==> !lt(c, a)
}

/// No element comes before an earlier one.
pub open spec fn in_order<A>(s: Seq<A>, lt: spec_fn(A, A) -> bool) -> bool {
    forall|i: int, j: int| 0 <= i < j < s.len() ==> !lt(#[trigger] s[j], #[trigger] s[i])
}

/// Neither of two elements comes before the other.
pub open spec fn tied<A>(a: A, b: A, lt: spec_fn(A, A) -> bool) -> bool {
    !lt(a, b) && !lt(b, a)
}

proof fn lemma_placed<A>(s: Seq<A>, x: A, lt: spec_fn(A, A) -> bool)
    requires
        weak_order(lt),
        in_order(s, lt),
    ensures
        in_order(placed(s, x, lt), lt),
        placed(s, x, lt).len() == s.len() + 1,
        placed(s, x, lt).to_multiset() == s.to_multiset().insert(x),
        forall|i: int| 0 <= i < placed(s, x, lt).len() ==> #[trigger] placed(s, x, lt)[i] == x
            || s.contains(placed(s, x, lt)[i]),
    decreases s.len(),
{
    broadcast use vstd::seq_lib::group_to_multiset_ensures;

    let r = placed(s, x, lt);
    if s.len() > 0 && lt(x, s.last()) {
        let t = s.drop_last();
        lemma_placed(t, x, lt);
        let q = placed(t, x, lt);
        assert forall|i: int, j: int| 0 <= i < j < r.len() implies !lt(
            #[trigger] r[j],
            #[trigger] r[i],
        ) by {
            if j == r.len() - 1 {
                assert(r[i] == q[i]);
                assert(q[i] == x || t.contains(q[i]));
                if r[i] == x {
                    assert(!lt(s.last(), x));
                } else {
                    let k = choose|k: int| 0 <= k < t.len() && t[k] == q[i];
                    assert(s[k] == t[k]);
                }
            } else {
                assert(r[i] == q[i] && r[j] == q[j]);
            }
        }
        assert forall|i: int| 0 <= i < r.len() implies #[trigger] r[i] == x || s.contains(r[i]) by {
            if i < q.len() {
                assert(r[i] == q[i]);
                if q[i] != x {
                    let k = choose|k: int| 0 <= k < t.len() && t[k] == q[i];
                    assert(s[k] == q[i]);
                }
            } else {
                assert(r[i] == s[s.len() - 1]);
            }
        }
        assert(s =~= t.push(s.last()));
        assert(r.to_multiset() =~= s.to_multiset().insert(x));
    } else {
        assert forall|i: int, j: int| 0 <= i < j < r.len() implies !lt(
            #[trigger] r[j],
            #[trigger] r[i],
        ) by {
            if j == r.len() - 1 {
                assert(r[i] == s[i]);
                if i < s.len() - 1 {
                    assert(!lt(s[s.len() - 1], s[i]));
                }
            } else {
                assert(r[i] == s[i] && r[j] == s[j]);
            }
        }
    }
}

proof fn lemma_placed_class<A>(s: Seq<A>, x: A, c: A, lt: spec_fn(A, A) -> bool)
    requires
        weak_order(lt),
        in_order(s, lt),
    ensures
        placed(s, x, lt).filter(|y: A| tied(y, c, lt)) == s.push(x).filter(|y: A| tied(y, c, lt)),
    decreases s.len(),
{
    let p = |y: A| tied(y, c, lt);
    broadcast use Seq::lemma_filter_push;

    if s.len() > 0 && lt(x, s.last()) {
        let t = s.drop_last();
        lemma_placed_class(t, x, c, lt);
        assert(s =~= t.push(s.last()));
        // Of two elements that are not tied, at most one belongs to a class.
        if p(x) && p(s.last()) {
            assert(!lt(c, s.last()) && !lt(x, c));
            assert(!lt(x, s.last()));
        }
    }
}

/// The sort only reorders: it keeps each element as often as it was there.
pub proof fn law_sort_is_permutation<A>(s: Seq<A>, lt: spec_fn(A, A) -> bool)
    requires
        weak_order(lt),
    ensures
        sorted_by(s, lt).to_multiset() == s.to_multiset(),
        sorted_by(s, lt).len() == s.len(),
        in_order(sorted_by(s, lt), lt),
    decreases s.len(),
{
    broadcast use vstd::seq_lib::group_to_multiset_ensures;

    if s.len() > 0 {
        law_sort_is_permutation(s.drop_last(), lt);
        lemma_placed(sorted_by(s.drop_last(), lt), s.last(), lt);
        assert(s =~= s.drop_last().push(s.last()));
    }
}

/// The sort is stable: elements that are tied keep their order.
pub proof fn law_sort_is_stable<A>(s: Seq<A>, c: A, lt: spec_fn(A, A) -> bool)
    requires
        weak_order(lt),
    ensures
        sorted_by(s, lt).filter(|y: A| tied(y, c, lt)) == s.filter(|y: A| tied(y, c, lt)),
    decreases s.len(),
{
    broadcast use Seq::lemma_filter_push;

    if s.len() > 0 {
        let t = s.drop_last();
        law_sort_is_stable(t, c, lt);
        law_sort_is_permutation(t, lt);
        lemma_placed_class(sorted_by(t, lt), s.last(), c, lt);
        assert(s =~= t.push(s.last()));
    }
}

proof fn lemma_placed_filter<A>(s: Seq<A>, x: A, p: spec_fn(A) -> bool, lt: spec_fn(A, A) -> bool)
    requires
        weak_order(lt),
        in_order(s, lt),
    ensures
        placed(s, x, lt).filter(p) == (if p(x) {
            placed(s.filter(p), x, lt)
        } else {
            s.filter(p)
        }),
    decreases s.len(),
{
    broadcast use Seq::lemma_filter_push;

    if s.len() > 0 && lt(x, s.last()) {
        let t = s.drop_last();
        lemma_placed_filter(t, x, p, lt);
        assert(s =~= t.push(s.last()));
        let f = t.filter(p);
        assert(f.push(s.last()).drop_last() =~= f);
    } else {
        let f = s.filter(p);
        if f.len() > 0 {
            s.lemma_filter_contains_rev(p, f.last());
            let k = choose|k: int| 0 <= k < s.len() && s[k] == f.last();
            if k < s.len() - 1 {
                assert(!lt(s[s.len() - 1], s[k]));
            }
            assert(!lt(x, f.last()));
        }
    }
}

/// Sorting and filtering go in either order.
pub proof fn law_sort_and_filter_commute<A>(
    s: Seq<A>,
    p: spec_fn(A) -> bool,
    lt: spec_fn(A, A) -> bool,
)
    requires
        weak_order(lt),
    ensures
        sorted_by(s.filter(p), lt) == sorted_by(s, lt).filter(p),
    decreases s.len(),
{
    broadcast use Seq::lemma_filter_push;

    if s.len() > 0 {
        let t = s.drop_last();
        law_sort_and_filter_commute(t, p, lt);
        law_sort_is_permutation(t, lt);
        lemma_placed_filter(sorted_by(t, lt), s.last(), p, lt);
        assert(s =~= t.push(s.last()));
        let f = t.filter(p);
        assert(f.push(s.last()).drop_last() =~= f);
    } else {
        reveal(Seq::filter);
        assert(s.filter(p) =~= s);
    }
}

/// Nothing leaves a list into which something is put.
pub proof fn lemma_placed_keeps<A>(s: Seq<A>, x: A, lt: spec_fn(A, A) -> bool)
    ensures
        placed(s, x, lt).len() == s.len() + 1,
        forall|y: A| s.contains(y) ==> #[trigger] placed(s, x, lt).contains(y),
    decreases s.len(),
{
    let r = placed(s, x, lt);
    if s.len() > 0 && lt(x, s.last()) {
        let t = s.drop_last();
        let q = placed(t, x, lt);
        lemma_placed_keeps(t, x, lt);
        assert forall|y: A| s.contains(y) implies #[trigger] r.contains(y) by {
            let k = choose|k: int| 0 <= k < s.len() && s[k] == y;
            if k < t.len() {
                assert(t[k] == y);
                assert(q.contains(y));
                let j = choose|j: int| 0 <= j < q.len() && q[j] == y;
                assert(r[j] == y);
            } else {
                assert(r[r.len() - 1] == y);
            }
        }
    } else {
        assert forall|y: A| s.contains(y) implies #[trigger] r.contains(y) by {
            let k = choose|k: int| 0 <= k < s.len() && s[k] == y;
            assert(r[k] == y);
        }
    }
}

/// Sorting neither adds nor loses an element.
pub proof fn lemma_sorted_contains<A>(s: Seq<A>, lt: spec_fn(A, A) -> bool)
    ensures
        sorted_by(s, lt).len() == s.len(),
        forall|y: A| #[trigger] sorted_by(s, lt).contains(y) == s.contains(y),
    decreases s.len(),
{
    if s.len() > 0 {
        let t = s.drop_last();
        let u = sorted_by(t, lt);
        let r = sorted_by(s, lt);
        lemma_sorted_contains(t, lt);
        lemma_placed_keeps(u, s.last(), lt);
        lemma_placed_elements(u, s.last(), lt);
        assert forall|y: A| #[trigger] r.contains(y) == s.contains(y) by {
            if r.contains(y) && y != s.last() {
                let k = choose|k: int| 0 <= k < r.len() && r[k] == y;
                assert(u.contains(r[k]));
                assert(t.contains(y));
                let j = choose|j: int| 0 <= j < t.len() && t[j] == y;
                assert(s[j] == y);
            }
            if s.contains(y) && y != s.last() {
                let k = choose|k: int| 0 <= k < s.len() && s[k] == y;
                assert(t[k] == y);
                assert(u.contains(y));
            }
            if y == s.last() {
                assert(s[s.len() - 1] == y);
            }
        }
    }
}

/// What is put into a list is there, and nothing else is there that was not.
pub proof fn lemma_placed_elements<A>(s: Seq<A>, x: A, lt: spec_fn(A, A) -> bool)
    ensures
        placed(s, x, lt).contains(x),
        forall|i: int|
            0 <= i < placed(s, x, lt).len() ==> #[trigger] placed(s, x, lt)[i] == x || s.contains(
                placed(s, x, lt)[i],
            ),
    decreases s.len(),
{
    let r = placed(s, x, lt);
    if s.len() > 0 && lt(x, s.last()) {
        let t = s.drop_last();
        let q = placed(t, x, lt);
        lemma_placed_elements(t, x, lt);
        let k = choose|k: int| 0 <= k < q.len() && q[k] == x;
        assert(r[k] == x);
        assert forall|i: int| 0 <= i < r.len() implies #[trigger] r[i] == x || s.contains(r[i]) by {
            if i < q.len() {
                assert(r[i] == q[i]);
                if q[i] != x {
                    let j = choose|j: int| 0 <= j < t.len() && t[j] == q[i];
                    assert(s[j] == q[i]);
                }
            } else {
                assert(r[i] == s[s.len() - 1]);
            }
        }
    } else {
        assert(r[s.len() as int] == x);
        assert forall|i: int| 0 <= i < r.len() implies #[trigger] r[i] == x || s.contains(r[i]) by {
            if i < s.len() {
                assert(s[i] == r[i]);
            }
        }
    }
}

/// An order that can be computed.
pub trait Less<T: View> {
    spec fn lt(&self, a: T::V, b: T::V) -> bool;

    fn less(&self, a: &T, b: &T) -> (r: bool)
        ensures
            r == self.lt(a@, b@),
    ;
}

/// The views of a list.
pub open spec fn views<T: View>(v: Seq<T>) -> Seq<T::V> {
    v.map_values(|x: T| x@)
}

/// Puts `x` into `v` behind every element that it does not come before.
fn place<T: View + Copy, L: Less<T>>(v: &mut Vec<T>, x: T, l: &L)
    ensures
        views(final(v)@) == placed(views(old(v)@), x@, |a: T::V, b: T::V| l.lt(a, b)),
{
    let ghost lt = |a: T::V, b: T::V| l.lt(a, b);
    let ghost s = v@;
    let mut i: usize = v.len();
    assert(s.take(i as int) =~= s);
    assert(s.skip(i as int) =~= Seq::empty());
    assert(placed(views(s.take(i as int)), x@, lt) + views(s.skip(i as int)) =~= placed(
        views(s),
        x@,
        lt,
    ));
    while i > 0 && l.less(&x, &v[i - 1])
        invariant
            i <= v@.len(),
            v@ == s,
            lt == (|a: T::V, b: T::V| l.lt(a, b)),
            placed(views(s), x@, lt) == placed(views(s.take(i as int)), x@, lt) + views(
                s.skip(i as int),
            ),
        decreases i,
    {
        proof {
            let w = views(s.take(i as int));
            assert(w.drop_last() =~= views(s.take(i - 1)));
            assert(w.last() == s[i - 1]@);
            assert(views(s.skip(i - 1)) =~= seq![s[i - 1]@] + views(s.skip(i as int)));
            assert(placed(views(s.take(i - 1)), x@, lt).push(s[i - 1]@) + views(s.skip(i as int))
                =~= placed(views(s.take(i - 1)), x@, lt) + views(s.skip(i - 1)));
        }
        i = i - 1;
    }
    proof {
        let w = views(s.take(i as int));
        if i > 0 {
            assert(w.last() == s[i - 1]@);
        }
        assert(placed(w, x@, lt) == w.push(x@));
    }
    v.insert(i, x);
    assert(views(v@) =~= views(s.take(i as int)).push(x@) + views(s.skip(i as int)));
}

/// Sorts a list.
pub fn sort<T: View + Copy, L: Less<T>>(v: &Vec<T>, l: &L) -> (r: Vec<T>)
    ensures
        views(r@) == sorted_by(views(v@), |a: T::V, b: T::V| l.lt(a, b)),
{
    let mut out: Vec<T> = Vec::new();
    let mut i: usize = 0;
    let ghost lt = |a: T::V, b: T::V| l.lt(a, b);
    assert(views(out@) =~= sorted_by(views(v@).take(0), lt));
    while i < v.len()
        invariant
            i <= v@.len(),
            lt == (|a: T::V, b: T::V| l.lt(a, b)),
            views(out@) == sorted_by(views(v@).take(i as int), lt),
        decreases v@.len() - i,
    {
        assert(views(v@).take(i + 1).drop_last() =~= views(v@).take(i as int));
        place(&mut out, v[i], l);
        i = i + 1;
    }
    assert(views(v@).take(i as int) =~= views(v@));
    out
}

/// The elements of `s` in order, each once.
pub open spec fn distinct<A>(s: Seq<A>) -> Seq<A>
    decreases s.len(),
{
    if s.len() == 0 {
        s
    } else {
        let p = distinct(s.drop_last());
        if p.contains(s.last()) {
            p
        } else {
            p.push(s.last())
        }
    }
}

/// No element stands twice, and none is lost.
pub proof fn law_distinct<A>(s: Seq<A>)
    ensures
        distinct(s).no_duplicates(),
        forall|x: A| #[trigger] distinct(s).contains(x) == s.contains(x),
    decreases s.len(),
{
    if s.len() > 0 {
        let t = s.drop_last();
        let p = distinct(t);
        law_distinct(t);
        assert(s =~= t.push(s.last()));
        assert forall|x: A| #[trigger] distinct(s).contains(x) == s.contains(x) by {
            if s.contains(x) {
                let i = choose|i: int| 0 <= i < s.len() && s[i] == x;
                if i < t.len() {
                    assert(t[i] == x);
                    assert(p.contains(x));
                    let k = choose|k: int| 0 <= k < p.len() && p[k] == x;
                    assert(distinct(s)[k] == x);
                } else if !p.contains(x) {
                    assert(distinct(s)[p.len() as int] == x);
                }
            }
            if distinct(s).contains(x) {
                let k = choose|k: int| 0 <= k < distinct(s).len() && distinct(s)[k] == x;
                if k < p.len() {
                    assert(p.contains(p[k]));
                    let i = choose|i: int| 0 <= i < t.len() && t[i] == x;
                    assert(s[i] == x);
                } else {
                    assert(s[s.len() - 1] == x);
                }
            }
        }
    }
}

} // verus!
