//! A list of labels narrowed by a query.
use vstd::prelude::*;

use crate::picker::{fits, fuzzy, stepped_down, stepped_up, str_views};
use crate::text::{drop_last_char, shorter, texts};

verus! {

/// The list and where it stands.
pub struct Picker {
    pub query: String,
    candidates: Vec<String>,
    pub selected: usize,
}

#[verifier::ext_equal]
pub struct PickerView {
    pub query: Seq<char>,
    pub candidates: Seq<Seq<char>>,
    pub selected: usize,
}

impl View for Picker {
    type V = PickerView;

    closed spec fn view(&self) -> PickerView {
        PickerView {
            query: self.query@,
            candidates: texts(self.candidates@),
            selected: self.selected,
        }
    }
}

/// The places of the first candidates that the query fits.
pub open spec fn fitting(query: Seq<char>, candidates: Seq<Seq<char>>, n: int) -> Seq<int>
    decreases n,
{
    if n <= 0 {
        Seq::empty()
    } else if fits(query, candidates[n - 1]) {
        fitting(query, candidates, n - 1).push(n - 1)
    } else {
        fitting(query, candidates, n - 1)
    }
}

impl PickerView {
    /// The places of the candidates that the query fits, in their order.
    pub open spec fn places(self) -> Seq<int> {
        fitting(self.query, self.candidates, self.candidates.len() as int)
    }

    /// The candidates that the query fits.
    pub open spec fn matching(self) -> Seq<Seq<char>> {
        self.candidates.filter(|c: Seq<char>| fits(self.query, c))
    }
}

impl Picker {
    pub fn new(candidates: Vec<String>) -> (r: Self)
        ensures
            r@ == (PickerView { query: Seq::empty(), candidates: texts(candidates@), selected: 0 }),
    {
        Picker { query: String::new(), candidates, selected: 0 }
    }

    /// The candidates that the query fits, in their order.
    pub fn matches(&self) -> (r: Vec<&str>)
        ensures
            str_views(r@) == self@.matching(),
    {
        let ghost all = texts(self.candidates@);
        let ghost keep = |c: Seq<char>| fits(self@.query, c);
        let mut out: Vec<&str> = Vec::new();
        let mut i: usize = 0;
        proof {
            reveal(Seq::filter);
            assert(str_views(out@) =~= all.take(0).filter(keep));
        }
        while i < self.candidates.len()
            invariant
                i <= self.candidates@.len(),
                all == texts(self.candidates@),
                keep == (|c: Seq<char>| fits(self@.query, c)),
                str_views(out@) == all.take(i as int).filter(keep),
            decreases self.candidates@.len() - i,
        {
            proof {
                reveal(Seq::filter);
                assert(all.take(i + 1).drop_last() =~= all.take(i as int));
                assert(all.take(i + 1).last() == self.candidates@[i as int]@);
            }
            let ghost was = out@;
            let c = self.candidates[i].as_str();
            if fuzzy(self.query.as_str(), c) {
                out.push(c);
                assert(str_views(out@) =~= str_views(was).push(c@));
            }
            i = i + 1;
        }
        assert(all.take(all.len() as int) =~= all);
        out
    }

    /// The place of the selected match among all candidates, so that what stands
    /// behind it is found even where two candidates read the same.
    pub fn selected_original(&self) -> (r: Option<usize>)
        ensures
            match r {
                Some(k) => self@.selected < self@.places().len() && k == self@.places()[self@.selected as int],
                None => self@.selected >= self@.places().len(),
            },
    {
        let mut seen: usize = 0;
        let mut i: usize = 0;
        let ghost all = texts(self.candidates@);
        while i < self.candidates.len()
            invariant
                i <= self.candidates@.len(),
                all == texts(self.candidates@),
                seen <= i,
                seen == fitting(self@.query, all, i as int).len(),
                self.selected >= seen,
            decreases self.candidates@.len() - i,
        {
            assert(all[i as int] == self.candidates@[i as int]@);
            if fuzzy(self.query.as_str(), self.candidates[i].as_str()) {
                if seen == self.selected {
                    proof {
                        lemma_fitting_prefix(self@.query, all, i + 1, all.len() as int);
                    }
                    return Some(i);
                }
                seen = seen + 1;
            }
            i = i + 1;
        }
        None
    }

    /// Adds a character to the query, and selects the first match.
    pub fn push(&mut self, ch: char)
        ensures
            final(self)@ == (PickerView { query: old(self)@.query.push(ch), selected: 0, ..old(self)@ }),
    {
        self.query.push(ch);
        self.selected = 0;
    }

    /// Takes the last character off the query, and selects the first match.
    pub fn backspace(&mut self)
        ensures
            final(self)@ == (PickerView { query: shorter(old(self)@.query), selected: 0, ..old(self)@ }),
    {
        self.query = drop_last_char(self.query.as_str());
        self.selected = 0;
    }

    pub fn up(&mut self)
        ensures
            final(self)@ == (PickerView {
                selected: if old(self)@.selected > 0 {
                    (old(self)@.selected - 1) as usize
                } else {
                    0
                },
                ..old(self)@
            }),
            final(self)@.selected == stepped_up(old(self)@.selected),
    {
        if self.selected > 0 {
            self.selected = self.selected - 1;
        }
    }

    /// Selects the next match, the last staying selected.
    pub fn down(&mut self)
        ensures
            final(self)@ == (PickerView {
                selected: ({
                    let n = old(self)@.matching().len();
                    if n == 0 {
                        old(self)@.selected
                    } else if old(self)@.selected + 1 < n {
                        (old(self)@.selected + 1) as usize
                    } else {
                        (n - 1) as usize
                    }
                }),
                ..old(self)@
            }),
            final(self)@.selected == stepped_down(old(self)@.selected, old(self)@.matching().len()),
    {
        let m = self.matches();
        assert(str_views(m@).len() == m@.len());
        let n: usize = m.len();
        if n > 0 {
            if self.selected < n - 1 {
                self.selected = self.selected + 1;
            } else {
                self.selected = n - 1;
            }
        }
    }
}

proof fn lemma_fitting_prefix(query: Seq<char>, all: Seq<Seq<char>>, m: int, n: int)
    requires
        0 <= m <= n,
    ensures
        fitting(query, all, m).len() <= fitting(query, all, n).len(),
        forall|i: int|
            0 <= i < fitting(query, all, m).len() ==> #[trigger] fitting(query, all, n)[i] == fitting(
                query,
                all,
                m,
            )[i],
    decreases n,
{
    if m < n {
        lemma_fitting_prefix(query, all, m, n - 1);
    }
}

/// A match and its place belong together: the candidate at the place of a match
/// is that match.
pub proof fn law_place_leads_to_the_match(v: PickerView, i: int)
    ensures
        v.places().len() == v.matching().len(),
        0 <= i < v.places().len() ==> 0 <= v.places()[i] < v.candidates.len() && v.candidates[v.places()[i]]
            == v.matching()[i],
{
    lemma_places(v.query, v.candidates, v.candidates.len() as int, i);
    assert(v.candidates.take(v.candidates.len() as int) =~= v.candidates);
}

proof fn lemma_places(query: Seq<char>, all: Seq<Seq<char>>, n: int, i: int)
    requires
        0 <= n <= all.len(),
    ensures
        ({
            let p = fitting(query, all, n);
            let m = all.take(n).filter(|c: Seq<char>| fits(query, c));
            &&& p.len() == m.len()
            &&& 0 <= i < p.len() ==> 0 <= p[i] < n && all[p[i]] == m[i]
        }),
    decreases n,
{
    reveal(Seq::filter);
    if n > 0 {
        lemma_places(query, all, n - 1, i);
        assert(all.take(n).drop_last() =~= all.take(n - 1));
        assert(all.take(n).last() == all[n - 1]);
    }
}

} // verus!
