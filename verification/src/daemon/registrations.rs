//! Approvals of agent kinds: which launch sets wait for the operator, and which
//! were denied.
use vstd::prelude::*;

use crate::approved_commands::{approved_json, read_approved, store_text, Template, TemplateView};
use crate::curation::{has_launch_set, launch_sets};
use crate::launch::opt_str;
use crate::text::same;

verus! {

/// What waits for a decision, and what the operator denied in this run.
#[derive(Debug)]
pub struct Registrar {
    pending: Vec<(String, Template)>,
    denied: Vec<(String, Template)>,
}

#[verifier::ext_equal]
pub struct RegistrarView {
    pub pending: Seq<(Seq<char>, TemplateView)>,
    pub denied: Set<(Seq<char>, TemplateView)>,
}

impl View for Registrar {
    type V = RegistrarView;

    closed spec fn view(&self) -> RegistrarView {
        RegistrarView {
            pending: launch_sets(self.pending@),
            denied: launch_sets(self.denied@).to_set(),
        }
    }
}

/// Where the first launch set of a label waits.
pub open spec fn label_at(p: Seq<(Seq<char>, TemplateView)>, label: Seq<char>) -> Option<int>
    decreases p.len(),
{
    if p.len() == 0 {
        None
    } else if p[0].0 == label {
        Some(0)
    } else {
        match label_at(p.drop_first(), label) {
            Some(i) => Some(i + 1),
            None => None,
        }
    }
}

/// The store that a file holds; a missing file holds the empty store.
pub open spec fn stored(text: Option<Seq<char>>) -> Map<Seq<char>, TemplateView> {
    match text {
        Some(t) => store_text(t),
        None => Map::empty(),
    }
}

proof fn lemma_label_at(p: Seq<(Seq<char>, TemplateView)>, label: Seq<char>)
    ensures
        label_at(p, label) matches Some(i) ==> 0 <= i < p.len() && p[i].0 == label,
    decreases p.len(),
{
    if p.len() > 0 && p[0].0 != label {
        lemma_label_at(p.drop_first(), label);
    }
}

impl Registrar {
    /// A registrar with nothing pending.
    pub fn new() -> (r: Self)
        ensures
            r@.pending.len() == 0,
            r@.denied == Set::<(Seq<char>, TemplateView)>::empty(),
    {
        let r = Registrar { pending: Vec::new(), denied: Vec::new() };
        assert(r@.denied =~= Set::<(Seq<char>, TemplateView)>::empty());
        r
    }

    /// Takes what needs approval now, and keeps what was not denied, in order.
    pub fn observe(&mut self, pending: Vec<(String, Template)>)
        ensures
            final(self)@.pending == launch_sets(pending@).filter(
                |x: (Seq<char>, TemplateView)| !old(self)@.denied.contains(x),
            ),
            final(self)@.denied == old(self)@.denied,
            final(self)@.pending == asked_about(launch_sets(pending@), old(self)@.denied),
    {
        let ghost s = launch_sets(pending@);
        let ghost d = self@.denied;
        let ghost p = |x: (Seq<char>, TemplateView)| !d.contains(x);
        let mut out: Vec<(String, Template)> = Vec::new();
        let mut i: usize = 0;
        proof {
            reveal(Seq::filter);
            assert(s.take(0) =~= Seq::empty());
            assert(launch_sets(out@) =~= s.take(0).filter(p));
        }
        while i < pending.len()
            invariant
                i <= pending@.len(),
                s == launch_sets(pending@),
                d == launch_sets(self.denied@).to_set(),
                p == (|x: (Seq<char>, TemplateView)| !d.contains(x)),
                launch_sets(out@) == s.take(i as int).filter(p),
            decreases pending@.len() - i,
        {
            proof {
                reveal(Seq::filter);
                assert(s.take(i + 1).drop_last() =~= s.take(i as int));
                assert(s[i as int] == (pending@[i as int].0@, pending@[i as int].1@));
            }
            let ghost prior = out@;
            if !has_launch_set(&self.denied, pending[i].0.as_str(), &pending[i].1) {
                out.push((pending[i].0.clone(), pending[i].1.clone()));
                assert(launch_sets(out@) =~= launch_sets(prior).push(s[i as int]));
            }
            i = i + 1;
        }
        assert(s.take(i as int) =~= s);
        self.pending = out;
    }

    /// The launch set to show the operator now.
    pub fn current(&self) -> (r: Option<&(String, Template)>)
        ensures
            r is Some == (self@.pending.len() > 0),
            r matches Some(x) ==> (x.0@, x.1@) == self@.pending[0],
    {
        if self.pending.len() > 0 {
            Some(&self.pending[0])
        } else {
            None
        }
    }

    fn position(&self, label: &str) -> (r: Option<usize>)
        ensures
            r is Some == label_at(self@.pending, label@) is Some,
            r matches Some(i) ==> label_at(self@.pending, label@) == Some(i as int) && i
                < self.pending@.len(),
    {
        let ghost p = self@.pending;
        let mut i: usize = 0;
        assert(p.skip(0) =~= p);
        while i < self.pending.len()
            invariant
                i <= self.pending@.len(),
                p == launch_sets(self.pending@),
                p == self@.pending,
                label_at(p.skip(i as int), label@) is Some == label_at(p, label@) is Some,
                label_at(p.skip(i as int), label@) matches Some(k) ==> label_at(p, label@) == Some(
                    k + i,
                ),
            decreases self.pending@.len() - i,
        {
            assert(p.skip(i as int)[0].0 == self.pending@[i as int].0@);
            if same(self.pending[i].0.as_str(), label) {
                return Some(i);
            }
            assert(p.skip(i as int).drop_first() =~= p.skip(i + 1));
            i = i + 1;
        }
        None
    }

    /// Approves the pending launch set of a label. Gives the document to write
    /// as the new store, or nothing where the label does not wait any more.
    /// `store` is the text of the store as it is.
    pub fn approve(&mut self, label: &str, store: Option<&str>) -> (r: Option<String>)
        ensures
            r is Some == label_at(old(self)@.pending, label@) is Some,
            r matches Some(doc) ==> {
                let i = label_at(old(self)@.pending, label@)->0;
                &&& final(self)@.pending == old(self)@.pending.remove(i)
                &&& store_text(doc@) == stored(opt_str(store)).insert(
                    label@,
                    old(self)@.pending[i].1,
                )
            },
            r is None ==> final(self)@ == old(self)@,
            final(self)@.denied == old(self)@.denied,
    {
        let i = match self.position(label) {
            Some(i) => i,
            None => {
                return None;
            },
        };
        let ghost p = self@.pending;
        proof {
            lemma_label_at(p, label@);
        }
        let entry = self.pending.remove(i);
        assert(launch_sets(self.pending@) =~= p.remove(i as int));
        let mut approved = read_approved(store);
        approved.insert(entry.0, entry.1);
        Some(approved_json(&approved))
    }

    /// Denies the pending launch set of a label, which is then not asked for
    /// again.
    pub fn deny(&mut self, label: &str)
        ensures
            match label_at(old(self)@.pending, label@) {
                Some(i) => final(self)@ == (RegistrarView {
                    pending: old(self)@.pending.remove(i),
                    denied: old(self)@.denied.insert(old(self)@.pending[i]),
                }),
                None => final(self)@ == old(self)@,
            },
            final(self)@ == after_denial(old(self)@, label@),
    {
        match self.position(label) {
            Some(i) => {
                let ghost p = self@.pending;
                let ghost d = self.denied@;
                proof {
                    lemma_label_at(p, label@);
                }
                let entry = self.pending.remove(i);
                self.denied.push(entry);
                proof {
                    assert(launch_sets(self.pending@) =~= p.remove(i as int));
                    assert(launch_sets(self.denied@) =~= launch_sets(d).push(p[i as int]));
                    launch_sets(d).lemma_push_to_set_commute(p[i as int]);
                    assert(self@ =~= (RegistrarView {
                        pending: p.remove(i as int),
                        denied: old(self)@.denied.insert(p[i as int]),
                    }));
                }
            },
            None => {},
        }
    }
}

/// A launch set that was denied is not shown again, until the kind proposes
/// another.
pub proof fn law_denied_is_not_asked_again(
    seen: Seq<(Seq<char>, TemplateView)>,
    denied: Set<(Seq<char>, TemplateView)>,
    x: (Seq<char>, TemplateView),
)
    requires
        denied.contains(x),
    ensures
        !seen.filter(|y: (Seq<char>, TemplateView)| !denied.contains(y)).contains(x),
{
    let p = |y: (Seq<char>, TemplateView)| !denied.contains(y);
    let f = seen.filter(p);
    if f.contains(x) {
        let i = choose|i: int| 0 <= i < f.len() && f[i] == x;
        seen.lemma_filter_pred(p, i);
    }
}

/// A decision on a label is about the first launch set under it that waits, and
/// about none where none waits.
pub proof fn law_decision_is_about_its_label(p: Seq<(Seq<char>, TemplateView)>, label: Seq<char>, k: int)
    ensures
        0 <= k < p.len() && p[k].0 == label && (forall|i: int|
            0 <= i < k ==> (#[trigger] p[i]).0 != label) ==> label_at(p, label) == Some(k),
        (forall|i: int| 0 <= i < p.len() ==> (#[trigger] p[i]).0 != label) ==> label_at(
            p,
            label,
        ) is None,
    decreases p.len(),
{
    if p.len() > 0 {
        let t = p.drop_first();
        assert forall|i: int| 0 <= i < t.len() implies t[i] == p[i + 1] by {}
        law_decision_is_about_its_label(t, label, k - 1);
        if 0 < k < p.len() {
            assert(t[k - 1] == p[k]);
        }
    }
}

/// What the operator is asked about: what was seen and not denied.
pub open spec fn asked_about(
    seen: Seq<(Seq<char>, TemplateView)>,
    denied: Set<(Seq<char>, TemplateView)>,
) -> Seq<(Seq<char>, TemplateView)> {
    seen.filter(|x: (Seq<char>, TemplateView)| !denied.contains(x))
}

/// The registrar after a denial of a label.
pub open spec fn after_denial(r: RegistrarView, label: Seq<char>) -> RegistrarView {
    match label_at(r.pending, label) {
        Some(i) => RegistrarView {
            pending: r.pending.remove(i),
            denied: r.denied.insert(r.pending[i]),
        },
        None => r,
    }
}

/// The operator is asked about everything that was seen but what was denied, and
/// a launch set that is denied is not asked about again, while another of the
/// same label is.
pub proof fn law_denial_is_of_that_launch_set(
    r: RegistrarView,
    label: Seq<char>,
    seen: Seq<(Seq<char>, TemplateView)>,
    x: (Seq<char>, TemplateView),
    k: int,
)
    requires
        0 <= k < r.pending.len(),
        r.pending[k].0 == label,
        forall|i: int| 0 <= i < k ==> (#[trigger] r.pending[i]).0 != label,
    ensures
        asked_about(seen, r.denied).contains(x) <==> seen.contains(x) && !r.denied.contains(x),
        !asked_about(seen, after_denial(r, label).denied).contains(r.pending[k]),
        x != r.pending[k] ==> asked_about(seen, after_denial(r, label).denied).contains(x)
            == asked_about(seen, r.denied).contains(x),
        after_denial(r, label).pending == r.pending.remove(k),
{
    law_decision_is_about_its_label(r.pending, label, k);
    lemma_asked(seen, r.denied, x);
    lemma_asked(seen, after_denial(r, label).denied, x);
    lemma_asked(seen, after_denial(r, label).denied, r.pending[k]);
}

proof fn lemma_asked(
    seen: Seq<(Seq<char>, TemplateView)>,
    denied: Set<(Seq<char>, TemplateView)>,
    x: (Seq<char>, TemplateView),
)
    ensures
        asked_about(seen, denied).contains(x) <==> seen.contains(x) && !denied.contains(x),
{
    let p = |x: (Seq<char>, TemplateView)| !denied.contains(x);
    let r = seen.filter(p);
    if seen.contains(x) && p(x) {
        let k = choose|k: int| 0 <= k < seen.len() && seen[k] == x;
        seen.lemma_filter_contains(p, k);
    }
    if r.contains(x) {
        let k = choose|k: int| 0 <= k < r.len() && r[k] == x;
        seen.lemma_filter_pred(p, k);
        seen.lemma_filter_contains_rev(p, x);
    }
}

} // verus!
