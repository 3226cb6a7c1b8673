//! Fuzzy term corrector: a structure over all terms of the term dictionary
//! that answers "which known terms lie within a bounded edit distance of this
//! query". Candidates come back ordered by increasing distance; terms at the
//! same distance keep their dictionary order, so the answer is deterministic.

use vstd::prelude::*;

use crate::edit_distance::{edit_dist, edit_distance};
use crate::text::str_chars;

verus! {

/// Largest character length of a term or query the corrector works on; keeps
/// every distance computation within machine bounds.
pub const TERM_LEN_MAX: usize = 0x3FFF_FFFF;

/// The terms at exactly distance `d` from the query, in dictionary order.
pub open spec fn matches_at(terms: Seq<Seq<char>>, q: Seq<char>, d: nat) -> Seq<Seq<char>> {
    terms.filter(|t: Seq<char>| edit_dist(t, q) == d)
}

/// Pairs every term with the given distance.
pub open spec fn tagged(terms: Seq<Seq<char>>, d: nat) -> Seq<(Seq<char>, nat)> {
    terms.map_values(|t: Seq<char>| (t, d))
}

/// Everything `find` returns for the given bound: for each distance from zero
/// up to the bound, the terms at exactly that distance, in dictionary order.
pub open spec fn find_result(terms: Seq<Seq<char>>, q: Seq<char>, max: nat) -> Seq<
    (Seq<char>, nat),
>
    decreases max,
{
    if max == 0 {
        tagged(matches_at(terms, q, 0), 0)
    } else {
        find_result(terms, q, (max - 1) as nat) + tagged(matches_at(terms, q, max), max)
    }
}

/// The view of a candidate list: each entry's characters and distance.
pub open spec fn candidates_view(r: Seq<(String, usize)>) -> Seq<(Seq<char>, nat)> {
    r.map_values(|p: (String, usize)| (p.0@, p.1 as nat))
}

/// Answers nearest-known-term queries over the dictionary's terms.
pub struct TermCorrector {
    terms: Vec<String>,
}

impl TermCorrector {
    /// The indexed terms, in dictionary order.
    pub closed spec fn view(&self) -> Seq<Seq<char>> {
        self.terms@.map_values(|t: String| t@)
    }

    /// Every indexed term is short enough to measure distances against.
    pub open spec fn wf(&self) -> bool {
        forall|i: int| 0 <= i < self@.len() ==> (#[trigger] self@[i]).len() <= TERM_LEN_MAX
    }

    /// Creates an empty corrector.
    pub fn new() -> (c: TermCorrector)
        ensures
            c@ == Seq::<Seq<char>>::empty(),
            c.wf(),
    {
        TermCorrector { terms: Vec::new() }
    }

    /// Indexes one more term.
    pub fn add_term(&mut self, term: &str)
        requires
            old(self).wf(),
            term@.len() <= TERM_LEN_MAX,
        ensures
            final(self).wf(),
            final(self)@ == old(self)@.push(term@),
    {
        self.terms.push(term.to_owned());
        proof {
            assert(final(self)@ =~= old(self)@.push(term@));
        }
    }

    /// All indexed terms within `max_dist` edits of the query, each paired
    /// with its exact distance, ordered by increasing distance and, within one
    /// distance, by dictionary order.
    pub fn find(&self, query: &str, max_dist: usize) -> (r: Vec<(String, usize)>)
        requires
            self.wf(),
            query@.len() <= TERM_LEN_MAX,
            max_dist < usize::MAX,
        ensures
            candidates_view(r@) == find_result(self@, query@, max_dist as nat),
    {
        let q = str_chars(query);
        let mut out: Vec<(String, usize)> = Vec::new();
        proof {
            assert(candidates_view(out@) =~= Seq::<(Seq<char>, nat)>::empty());
        }
        let mut d: usize = 0;
        while d <= max_dist
            invariant
                d <= max_dist + 1,
                max_dist < usize::MAX,
                q@ == query@,
                query@.len() <= TERM_LEN_MAX,
                self.wf(),
                d == 0 ==> candidates_view(out@) == Seq::<(Seq<char>, nat)>::empty(),
                d > 0 ==> candidates_view(out@) == find_result(self@, query@, (d - 1) as nat),
            decreases max_dist + 1 - d,
        {
            let n = self.terms.len();
            let ghost out0 = candidates_view(out@);
            let mut i: usize = 0;
            proof {
                reveal(Seq::filter);
                assert(self@.subrange(0, 0) =~= Seq::<Seq<char>>::empty());
                assert(matches_at(self@.subrange(0, 0), query@, d as nat) =~= Seq::<
                    Seq<char>,
                >::empty());
                assert(tagged(matches_at(self@.subrange(0, 0), query@, d as nat), d as nat) =~= Seq::<
                    (Seq<char>, nat),
                >::empty());
                assert(candidates_view(out@) =~= out0 + tagged(
                    matches_at(self@.subrange(0, 0), query@, d as nat),
                    d as nat,
                ));
            }
            while i < n
                invariant
                    i <= n,
                    n == self@.len(),
                    n == self.terms@.len(),
                    q@ == query@,
                    query@.len() <= TERM_LEN_MAX,
                    self.wf(),
                    candidates_view(out@) == out0 + tagged(
                        matches_at(self@.subrange(0, i as int), query@, d as nat),
                        d as nat,
                    ),
                decreases n - i,
            {
                let t = str_chars(self.terms[i].as_str());
                proof {
                    assert(t@ == self@[i as int]);
                }
                let dist = edit_distance(&t, &q);
                let ghost prev = out@;
                let ghost prev_view = candidates_view(out@);
                if dist == d {
                    let entry = (self.terms[i].clone(), d);
                    proof {
                        assert(entry.0@ == self@[i as int]);
                    }
                    out.push(entry);
                    proof {
                        assert(out@.drop_last() =~= prev);
                        assert(candidates_view(out@) =~= prev_view.push(
                            (self@[i as int], d as nat),
                        ));
                    }
                }
                proof {
                    reveal(Seq::filter);
                    let ghost m0 = matches_at(self@.subrange(0, i as int), query@, d as nat);
                    let ghost m1 = matches_at(self@.subrange(0, i + 1), query@, d as nat);
                    assert(self@.subrange(0, i + 1).drop_last() =~= self@.subrange(0, i as int));
                    assert(self@.subrange(0, i + 1).last() == self@[i as int]);
                    if dist == d {
                        assert(m1 == m0.push(self@[i as int]));
                        assert(tagged(m1, d as nat) =~= tagged(m0, d as nat).push(
                            (self@[i as int], d as nat),
                        ));
                        assert(candidates_view(out@) =~= out0 + tagged(m1, d as nat));
                    } else {
                        assert(m1 == m0);
                        assert(candidates_view(out@) =~= out0 + tagged(m1, d as nat));
                    }
                }
                i = i + 1;
            }
            proof {
                assert(self@.subrange(0, n as int) =~= self@);
                if d == 0 {
                    assert(candidates_view(out@) =~= find_result(self@, query@, 0));
                } else {
                    assert(candidates_view(out@) =~= find_result(self@, query@, d as nat));
                }
            }
            d = d + 1;
        }
        out
    }
}

} // verus!
