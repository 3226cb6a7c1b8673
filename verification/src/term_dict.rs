//! Term dictionary: a bidirectional mapping between normalized term strings
//! and small dense integer dimension identifiers. A term's dimension id is its
//! insertion index, assigned by a monotonic counter, so id assignment is
//! deterministic given the same build input. Lookup is case-sensitive; callers
//! are responsible for also trying a lower-cased variant.

use vstd::prelude::*;

use crate::text::{chars_eq, str_chars};

verus! {

/// True if the dictionary contents hold the term.
pub open spec fn dict_contains(d: Seq<Seq<char>>, t: Seq<char>) -> bool {
    exists|i: int| 0 <= i < d.len() && d[i] == t
}

/// The dimension id of a term: its index among the dictionary contents.
/// Meaningful only when the contents hold the term and are distinct.
pub open spec fn dim_of(d: Seq<Seq<char>>, t: Seq<char>) -> int {
    choose|i: int| 0 <= i < d.len() && d[i] == t
}

/// What `find_term` returns on the given dictionary contents.
pub open spec fn spec_find_term(d: Seq<Seq<char>>, t: Seq<char>) -> Option<int> {
    if dict_contains(d, t) {
        Some(dim_of(d, t))
    } else {
        None
    }
}

/// The dictionary contents that loading the given build input produces:
/// each term not seen before is appended, so ids count up monotonically.
pub open spec fn build_dict(input: Seq<Seq<char>>) -> Seq<Seq<char>>
    decreases input.len(),
{
    if input.len() == 0 {
        Seq::empty()
    } else {
        let prev = build_dict(input.drop_last());
        if dict_contains(prev, input.last()) {
            prev
        } else {
            prev.push(input.last())
        }
    }
}

/// Maps normalized terms to dimension ids; the id of a term is its position.
pub struct TermDict {
    terms: Vec<String>,
}

impl TermDict {
    /// The dictionary contents: the term at index `i` has dimension id `i`.
    pub closed spec fn view(&self) -> Seq<Seq<char>> {
        self.terms@.map_values(|t: String| t@)
    }

    /// Terms are unique, so each term has exactly one dimension id.
    pub open spec fn wf(&self) -> bool {
        forall|i: int, j: int| 0 <= i < j < self@.len() ==> self@[i] != self@[j]
    }

    /// The number of terms, which is also the number of dimensions.
    pub fn len(&self) -> (n: usize)
        ensures
            n == self@.len(),
    {
        self.terms.len()
    }

    /// Creates an empty dictionary.
    pub fn new() -> (d: TermDict)
        ensures
            d@ == Seq::<Seq<char>>::empty(),
            d.wf(),
    {
        TermDict { terms: Vec::new() }
    }

    /// Looks the term up, case-sensitively, and returns its dimension id.
    /// The same term always resolves to the same id.
    pub fn find_term(&self, term: &str) -> (r: Option<usize>)
        requires
            self.wf(),
        ensures
            match r {
                Some(i) => i < self@.len() && self@[i as int] == term@ && Some(i as int)
                    == spec_find_term(self@, term@),
                None => !dict_contains(self@, term@),
            },
    {
        let t = str_chars(term);
        let n = self.terms.len();
        let mut i: usize = 0;
        while i < n
            invariant
                i <= n,
                n == self@.len(),
                t@ == term@,
                self.wf(),
                forall|j: int| 0 <= j < i ==> self@[j] != term@,
            decreases n - i,
        {
            let cand = str_chars(self.terms[i].as_str());
            if chars_eq(&cand, &t) {
                proof {
                    assert(self@[i as int] == term@);
                    assert(dict_contains(self@, term@));
                    let k = dim_of(self@, term@);
                    assert(self@[k] == term@);
                    assert(k == i as int);
                }
                return Some(i);
            }
            i = i + 1;
        }
        proof {
            assert(!dict_contains(self@, term@));
        }
        None
    }

    /// Returns the term's dimension id, inserting the term with the next free
    /// id if it is new.
    pub fn get_or_insert(&mut self, term: &str) -> (dim: usize)
        requires
            old(self).wf(),
            old(self)@.len() < usize::MAX,
        ensures
            final(self).wf(),
            dict_contains(final(self)@, term@),
            dim < final(self)@.len() && final(self)@[dim as int] == term@,
            dict_contains(old(self)@, term@) ==> final(self)@ == old(self)@ && Some(dim as int)
                == spec_find_term(old(self)@, term@),
            !dict_contains(old(self)@, term@) ==> final(self)@ == old(self)@.push(term@) && dim
                == old(self)@.len(),
    {
        match self.find_term(term) {
            Some(i) => i,
            None => {
                let dim = self.terms.len();
                self.terms.push(term.to_owned());
                proof {
                    assert(self@ =~= old(self)@.push(term@));
                    assert(self@[dim as int] == term@);
                }
                dim
            },
        }
    }

    /// Loads a dictionary from a build input, one term after the other.
    /// The resulting contents are a function of the input alone.
    pub fn from_terms(input: &Vec<String>) -> (d: TermDict)
        requires
            input@.len() < usize::MAX,
        ensures
            d.wf(),
            d@ == build_dict(input@.map_values(|t: String| t@)),
    {
        let ghost iview = input@.map_values(|t: String| t@);
        let mut d = TermDict::new();
        let n = input.len();
        let mut i: usize = 0;
        proof {
            assert(d@ =~= build_dict(iview.subrange(0, 0)));
        }
        while i < n
            invariant
                i <= n,
                n == input@.len(),
                input@.len() < usize::MAX,
                iview == input@.map_values(|t: String| t@),
                d.wf(),
                d@.len() <= i,
                d@ == build_dict(iview.subrange(0, i as int)),
            decreases n - i,
        {
            d.get_or_insert(input[i].as_str());
            i = i + 1;
            proof {
                assert(iview.subrange(0, i as int).drop_last() =~= iview.subrange(
                    0,
                    i as int - 1,
                ));
                assert(iview.subrange(0, i as int).last() == input@[i as int - 1]@);
            }
        }
        proof {
            assert(iview.subrange(0, n as int) =~= iview);
        }
        d
    }
}

/// Law: dimension ids are stable. Two dictionaries loaded from the same build
/// input resolve every term to the same dimension id.
pub proof fn lemma_find_term_stable(
    d1: Seq<Seq<char>>,
    d2: Seq<Seq<char>>,
    input: Seq<Seq<char>>,
    t: Seq<char>,
)
    requires
        d1 == build_dict(input),
        d2 == build_dict(input),
    ensures
        spec_find_term(d1, t) == spec_find_term(d2, t),
{
}

} // verus!
