//! The posting index behind foreign (gloss) search: documents with sparse
//! weight vectors over term-dictionary dimensions, an inverted map from each
//! dimension to the documents weighing it, and the fuzzy corrector kept over
//! exactly the dictionary's terms. Built once at load time from plain data,
//! deterministically, and only read afterwards.

use vstd::prelude::*;

use crate::corrector::{TermCorrector, TERM_LEN_MAX};
use crate::term_dict::{dict_contains, dim_of, spec_find_term, TermDict};
use crate::vector::{sum_at, vec_wf, DimWeight, VEC_DIMS_MAX};

verus! {

/// One indexed unit: the external sequence ids it resolves to and its sparse
/// vector. An entry may be represented by several glosses mapping to the same
/// backing record, so it carries one or more sequence ids.
pub struct Document {
    /// External identifiers of the backing dictionary records.
    pub seq_ids: Vec<u32>,
    /// Sparse weights over term-dictionary dimensions; never empty once stored.
    pub vector: Vec<DimWeight>,
}

/// True if the vector has an entry at the dimension.
pub open spec fn has_dim(v: Seq<DimWeight>, d: int) -> bool {
    exists|i: int| 0 <= i < v.len() && v[i].dim == d
}

/// The character-and-weight view of a build input's term list.
pub open spec fn term_views(ts: Seq<(String, u16)>) -> Seq<(Seq<char>, u16)> {
    ts.map_values(|p: (String, u16)| (p.0@, p.1))
}

/// One step of vectorization: a zero weight is dropped; a known term keeps
/// its dimension id, skipped if the vector already has it; a new term is
/// appended to the dictionary and gets the next free id.
pub open spec fn vec_step(
    dict: Seq<Seq<char>>,
    vec: Seq<DimWeight>,
    t: (Seq<char>, u16),
) -> (Seq<Seq<char>>, Seq<DimWeight>) {
    if t.1 == 0 {
        (dict, vec)
    } else if dict_contains(dict, t.0) {
        let d = dim_of(dict, t.0);
        if has_dim(vec, d) {
            (dict, vec)
        } else {
            (dict, vec.push(DimWeight { dim: d as usize, weight: t.1 }))
        }
    } else {
        (dict.push(t.0), vec.push(DimWeight { dim: dict.len() as usize, weight: t.1 }))
    }
}

/// The document vector a term list builds, together with the dictionary the
/// build leaves behind: a pure function of the old dictionary and the input.
pub open spec fn vectorize(dict: Seq<Seq<char>>, ts: Seq<(Seq<char>, u16)>) -> (
    Seq<Seq<char>>,
    Seq<DimWeight>,
)
    decreases ts.len(),
{
    if ts.len() == 0 {
        (dict, Seq::empty())
    } else {
        let p = vectorize(dict, ts.drop_last());
        vec_step(p.0, p.1, ts.last())
    }
}

/// The in-memory index state behind foreign search.
pub struct Index {
    dict: TermDict,
    corrector: TermCorrector,
    docs: Vec<Document>,
    postings: Vec<Vec<usize>>,
}

impl Index {
    /// The term dictionary's contents.
    pub closed spec fn dict_terms(&self) -> Seq<Seq<char>> {
        self.dict@
    }

    /// Each document's sequence ids and sparse vector.
    pub closed spec fn docs_view(&self) -> Seq<(Seq<u32>, Seq<DimWeight>)> {
        self.docs@.map_values(|d: Document| (d.seq_ids@, d.vector@))
    }

    /// Each dimension's posting list of document indices.
    pub closed spec fn postings_view(&self) -> Seq<Seq<usize>> {
        self.postings@.map_values(|p: Vec<usize>| p@)
    }

    /// The corrector's indexed terms.
    pub closed spec fn corrector_terms(&self) -> Seq<Seq<char>> {
        self.corrector@
    }

    /// Well-formedness, kept by the build and relied on by every query:
    /// the dictionary's terms are distinct and short; the corrector indexes
    /// exactly the dictionary's terms; there is one posting list per
    /// dimension, holding distinct valid document indices; every stored
    /// document has at least one sequence id and a well-formed, non-empty
    /// vector; and a document appears in a dimension's posting list exactly
    /// when its vector carries non-zero weight there.
    pub open spec fn wf(&self) -> bool {
        &&& forall|i: int, j: int|
            0 <= i < j < self.dict_terms().len() ==> self.dict_terms()[i] != self.dict_terms()[j]
        &&& forall|i: int|
            0 <= i < self.dict_terms().len() ==> (#[trigger] self.dict_terms()[i]).len()
                <= TERM_LEN_MAX
        &&& self.corrector_terms() == self.dict_terms()
        &&& self.postings_view().len() == self.dict_terms().len()
        &&& forall|i: int|
            0 <= i < self.docs_view().len() ==> vec_wf((#[trigger] self.docs_view()[i]).1)
        &&& forall|i: int| 0 <= i < self.docs_view().len() ==> (#[trigger] self.docs_view()[i]).1.len() > 0
        &&& forall|i: int| 0 <= i < self.docs_view().len() ==> (#[trigger] self.docs_view()[i]).0.len() > 0
        &&& forall|i: int, k: int|
            0 <= i < self.docs_view().len() && 0 <= k < self.docs_view()[i].1.len() ==> (
            #[trigger] self.docs_view()[i].1[k]).dim < self.postings_view().len()
        &&& forall|d: int, k: int|
            0 <= d < self.postings_view().len() && 0 <= k < self.postings_view()[d].len() ==> (
            #[trigger] self.postings_view()[d][k]) < self.docs_view().len()
        &&& forall|d: int, k: int, l: int|
            0 <= d < self.postings_view().len() && 0 <= k < l < self.postings_view()[d].len()
                ==> self.postings_view()[d][k] != self.postings_view()[d][l]
        &&& forall|i: int, d: int|
            0 <= i < self.docs_view().len() && 0 <= d < self.postings_view().len() ==> (
            #[trigger] self.postings_view()[d].contains(i as usize) <==> sum_at(
                self.docs_view()[i].1,
                d,
            ) > 0)
    }

    /// Creates an empty index.
    pub fn new() -> (r: Index)
        ensures
            r.wf(),
            r.dict_terms() == Seq::<Seq<char>>::empty(),
            r.docs_view() == Seq::<(Seq<u32>, Seq<DimWeight>)>::empty(),
            r.postings_view() == Seq::<Seq<usize>>::empty(),
    {
        let r = Index {
            dict: TermDict::new(),
            corrector: TermCorrector::new(),
            docs: Vec::new(),
            postings: Vec::new(),
        };
        proof {
            assert(r.docs_view() =~= Seq::<(Seq<u32>, Seq<DimWeight>)>::empty());
            assert(r.postings_view() =~= Seq::<Seq<usize>>::empty());
        }
        r
    }

    /// The term dictionary, for exact and lower-cased lookups.
    pub fn dict(&self) -> (r: &TermDict)
        requires
            self.wf(),
        ensures
            r.wf(),
            r@ == self.dict_terms(),
    {
        &self.dict
    }

    /// The fuzzy corrector, indexing exactly the dictionary's terms.
    pub fn corrector(&self) -> (r: &TermCorrector)
        requires
            self.wf(),
        ensures
            r.wf(),
            r@ == self.dict_terms(),
    {
        &self.corrector
    }

    /// The number of dimensions that have a posting list.
    pub fn num_postings(&self) -> (n: usize)
        ensures
            n == self.postings_view().len(),
    {
        self.postings.len()
    }

    /// The posting list of one dimension.
    pub fn postings_list(&self, d: usize) -> (r: &Vec<usize>)
        requires
            d < self.postings_view().len(),
        ensures
            r@ == self.postings_view()[d as int],
    {
        &self.postings[d]
    }

    /// The number of stored documents.
    pub fn num_docs(&self) -> (n: usize)
        ensures
            n == self.docs_view().len(),
    {
        self.docs.len()
    }

    /// One stored document.
    pub fn doc(&self, i: usize) -> (r: &Document)
        requires
            i < self.docs_view().len(),
        ensures
            r.seq_ids@ == self.docs_view()[i as int].0,
            r.vector@ == self.docs_view()[i as int].1,
    {
        &self.docs[i]
    }
}

/// Scans a sparse vector for a dimension.
fn vec_has_dim(v: &Vec<DimWeight>, d: usize) -> (r: bool)
    ensures
        r == has_dim(v@, d as int),
{
    let n = v.len();
    let mut i: usize = 0;
    while i < n
        invariant
            i <= n,
            n == v@.len(),
            forall|j: int| 0 <= j < i ==> v@[j].dim != d,
        decreases n - i,
    {
        if v[i].dim == d {
            return true;
        }
        i = i + 1;
    }
    false
}

/// Unfolds one step of `vectorize` along a growing prefix of the input.
proof fn lemma_vectorize_step(dict0: Seq<Seq<char>>, ts: Seq<(Seq<char>, u16)>, k: int)
    requires
        0 <= k < ts.len(),
    ensures
        vectorize(dict0, ts.subrange(0, k + 1)) == vec_step(
            vectorize(dict0, ts.subrange(0, k)).0,
            vectorize(dict0, ts.subrange(0, k)).1,
            ts[k],
        ),
{
    assert(ts.subrange(0, k + 1).drop_last() =~= ts.subrange(0, k));
    assert(ts.subrange(0, k + 1).last() == ts[k]);
}

/// A build input that produces no vector entries leaves the dictionary as it
/// was: only a term that contributes weight can introduce a dimension.
proof fn lemma_vectorize_empty(dict0: Seq<Seq<char>>, ts: Seq<(Seq<char>, u16)>)
    ensures
        vectorize(dict0, ts).1.len() == 0 ==> vectorize(dict0, ts).0 == dict0,
    decreases ts.len(),
{
    if ts.len() > 0 {
        lemma_vectorize_empty(dict0, ts.drop_last());
    }
}

impl Index {
    /// Stores one document: assigns dimensions to its weighted terms through
    /// the dictionary — extending dictionary, corrector and posting lists for
    /// terms never seen before — and files the document under every dimension
    /// its vector weighs. A document with no sequence ids or no positive
    /// weight is excluded and nothing changes. The new state is a function of
    /// the old state and the input alone, so loading the same build input
    /// always yields the same index.
    pub fn add_document(&mut self, seq_ids: Vec<u32>, terms: &Vec<(String, u16)>) -> (added: bool)
        requires
            old(self).wf(),
            terms@.len() <= VEC_DIMS_MAX,
            forall|k: int| 0 <= k < terms@.len() ==> (#[trigger] terms@[k]).0@.len() <= TERM_LEN_MAX,
            old(self).dict_terms().len() + terms@.len() < usize::MAX,
            old(self).docs_view().len() < usize::MAX,
        ensures
            final(self).wf(),
            old(self).dict_terms().is_prefix_of(final(self).dict_terms()),
            added == (seq_ids@.len() > 0 && vectorize(
                old(self).dict_terms(),
                term_views(terms@),
            ).1.len() > 0),
            !added ==> final(self).dict_terms() == old(self).dict_terms(),
            !added ==> final(self).docs_view() == old(self).docs_view(),
            !added ==> final(self).postings_view() == old(self).postings_view(),
            added ==> final(self).dict_terms() == vectorize(
                old(self).dict_terms(),
                term_views(terms@),
            ).0,
            added ==> final(self).docs_view() == old(self).docs_view().push(
                (seq_ids@, vectorize(old(self).dict_terms(), term_views(terms@)).1),
            ),
            added ==> final(self).postings_view().len() == final(self).dict_terms().len(),
            added ==> forall|d: int|
                0 <= d < final(self).postings_view().len() ==> final(self).postings_view()[d]
                    == posting_after(
                    old(self).postings_view(),
                    vectorize(old(self).dict_terms(), term_views(terms@)).1,
                    old(self).docs_view().len() as usize,
                    d,
                ),
    {
        proof {
            assert(old(self).dict.wf());
        }
        if seq_ids.len() == 0 {
            return false;
        }
        let ghost sids = seq_ids@;
        let ghost gd0 = old(self).dict_terms();
        let ghost tv = term_views(terms@);
        let n = terms.len();
        let mut vec: Vec<DimWeight> = Vec::new();
        let mut k: usize = 0;
        proof {
            assert(tv.subrange(0, 0) =~= Seq::<(Seq<char>, u16)>::empty());
            assert(self.docs@ == old(self).docs@);
        }
        while k < n
            invariant
                k <= n,
                n == terms@.len(),
                tv == term_views(terms@),
                terms@.len() <= VEC_DIMS_MAX,
                forall|kk: int|
                    0 <= kk < terms@.len() ==> (#[trigger] terms@[kk]).0@.len() <= TERM_LEN_MAX,
                old(self).wf(),
                sids == seq_ids@,
                sids.len() > 0,
                gd0 == old(self).dict_terms(),
                gd0.len() + terms@.len() < usize::MAX,
                self.dict.wf(),
                self.dict@ == vectorize(gd0, tv.subrange(0, k as int)).0,
                vec@ == vectorize(gd0, tv.subrange(0, k as int)).1,
                self.dict@.len() <= gd0.len() + k,
                gd0.is_prefix_of(self.dict@),
                forall|i: int|
                    0 <= i < self.dict@.len() ==> (#[trigger] self.dict@[i]).len() <= TERM_LEN_MAX,
                self.corrector.wf(),
                self.corrector@ == self.dict@,
                self.postings@.len() == self.dict@.len(),
                forall|d: int|
                    0 <= d < self.postings@.len() ==> self.postings_view()[d] == (if d < gd0.len() {
                        old(self).postings_view()[d]
                    } else {
                        Seq::<usize>::empty()
                    }),
                self.docs@ == old(self).docs@,
                vec@.len() <= k,
                forall|i: int, j: int| 0 <= i < j < vec@.len() ==> vec@[i].dim != vec@[j].dim,
                forall|i: int| 0 <= i < vec@.len() ==> (#[trigger] vec@[i]).weight > 0,
                forall|i: int| 0 <= i < vec@.len() ==> (#[trigger] vec@[i]).dim < self.dict@.len(),
            decreases n - k,
        {
            let ghost pre_dict = self.dict@;
            let ghost pre_vec = vec@;
            let ghost pp = self.postings_view();
            let ghost ppv = self.postings@;
            let w = terms[k].1;
            proof {
                assert(tv[k as int] == (terms@[k as int].0@, terms@[k as int].1));
                assert forall|d: int| 0 <= d < pp.len() implies pp[d] == (if d < gd0.len() {
                    old(self).postings_view()[d]
                } else {
                    Seq::<usize>::empty()
                }) by {
                    assert(self.postings_view()[d] == (if d < gd0.len() {
                        old(self).postings_view()[d]
                    } else {
                        Seq::<usize>::empty()
                    }));
                }
            }
            if w > 0 {
                let found = self.dict.find_term(terms[k].0.as_str());
                match found {
                    Some(dim) => {
                        if !vec_has_dim(&vec, dim) {
                            vec.push(DimWeight { dim, weight: w });
                        }
                    },
                    None => {
                        let dim = self.dict.get_or_insert(terms[k].0.as_str());
                        self.corrector.add_term(terms[k].0.as_str());
                        let newlist: Vec<usize> = Vec::new();
                        let ghost nl = newlist@;
                        self.postings.push(newlist);
                        vec.push(DimWeight { dim, weight: w });
                        proof {
                            assert(self.dict@.subrange(0, gd0.len() as int) =~= pre_dict.subrange(
                                0,
                                gd0.len() as int,
                            ));
                            assert forall|d: int| 0 <= d < self.postings@.len() implies self
                                .postings_view()[d] == (if d < gd0.len() {
                                old(self).postings_view()[d]
                            } else {
                                Seq::<usize>::empty()
                            }) by {
                                assert(self.postings_view()[d] == self.postings@[d]@);
                                if d < pp.len() {
                                    assert(self.postings@[d] == ppv[d]);
                                    assert(pp[d] == ppv[d]@);
                                    assert(self.postings_view()[d] == pp[d]);
                                } else {
                                    assert(self.postings@[d] == self.postings@.last());
                                    assert(self.postings@[d]@ == nl);
                                    assert(nl =~= Seq::<usize>::empty());
                                }
                            }
                        }
                    },
                }
            }
            proof {
                lemma_vectorize_step(gd0, tv, k as int);
                assert((self.dict@, vec@) == vec_step(pre_dict, pre_vec, tv[k as int]));
            }
            k = k + 1;
        }
        proof {
            assert(tv.subrange(0, n as int) =~= tv);
        }
        if vec.len() == 0 {
            proof {
                lemma_vectorize_empty(gd0, tv);
                assert(self.postings_view() =~= old(self).postings_view());
                assert(self.docs_view() =~= old(self).docs_view());
            }
            return false;
        }
        let doc_idx = self.docs.len();
        let ghost nv = vec@;
        let ghost dict1 = self.dict@;
        let ghost post1 = self.postings_view();
        proof {
            assert forall|d: int| 0 <= d < post1.len() implies post1[d] == (if d < gd0.len() {
                old(self).postings_view()[d]
            } else {
                Seq::<usize>::empty()
            }) by {
                assert(self.postings_view()[d] == (if d < gd0.len() {
                    old(self).postings_view()[d]
                } else {
                    Seq::<usize>::empty()
                }));
            }
        }
        self.docs.push(Document { seq_ids, vector: vec });
        proof {
            assert(self.docs_view() =~= old(self).docs_view().push((sids, nv)));
        }
        let vlen = self.docs[doc_idx].vector.len();
        let mut k2: usize = 0;
        while k2 < vlen
            invariant
                k2 <= vlen,
                old(self).wf(),
                old(self).docs_view().len() < usize::MAX,
                sids == seq_ids@,
                sids.len() > 0,
                tv == term_views(terms@),
                gd0 == old(self).dict_terms(),
                gd0.len() == old(self).postings_view().len(),
                dict1 == vectorize(gd0, tv).0,
                nv == vectorize(gd0, tv).1,
                gd0.is_prefix_of(dict1),
                forall|i: int| 0 <= i < dict1.len() ==> (#[trigger] dict1[i]).len() <= TERM_LEN_MAX,
                doc_idx < self.docs@.len(),
                self.docs@.len() == old(self).docs@.len() + 1,
                doc_idx == old(self).docs@.len(),
                doc_idx == old(self).docs_view().len(),
                self.docs_view() == old(self).docs_view().push((sids, nv)),
                self.docs@[doc_idx as int].vector@ == nv,
                vlen == nv.len(),
                nv.len() > 0,
                nv.len() <= VEC_DIMS_MAX,
                self.dict@ == dict1,
                self.dict.wf(),
                self.corrector.wf(),
                self.corrector@ == self.dict@,
                forall|i: int, j: int| 0 <= i < j < nv.len() ==> nv[i].dim != nv[j].dim,
                forall|i: int| 0 <= i < nv.len() ==> (#[trigger] nv[i]).weight > 0,
                forall|i: int| 0 <= i < nv.len() ==> (#[trigger] nv[i]).dim < dict1.len(),
                self.postings@.len() == dict1.len(),
                post1.len() == dict1.len(),
                forall|d: int|
                    0 <= d < post1.len() ==> post1[d] == (if d < gd0.len() {
                        old(self).postings_view()[d]
                    } else {
                        Seq::<usize>::empty()
                    }),
                forall|d: int|
                    0 <= d < self.postings@.len() ==> self.postings_view()[d] == (
                    if exists|i: int| 0 <= i < k2 && nv[i].dim == d {
                        post1[d].push(doc_idx)
                    } else {
                        post1[d]
                    }),
            decreases vlen - k2,
        {
            let dim = self.docs[doc_idx].vector[k2].dim;
            let ghost pre_post = self.postings_view();
            self.postings[dim].push(doc_idx);
            proof {
                assert(nv[k2 as int].dim == dim);
                assert(!(exists|i: int| 0 <= i < k2 && nv[i].dim == dim));
                assert forall|d: int| 0 <= d < self.postings@.len() implies self.postings_view()[d]
                    == (if exists|i: int| 0 <= i < k2 + 1 && nv[i].dim == d {
                    post1[d].push(doc_idx)
                } else {
                    post1[d]
                }) by {
                    if d == dim {
                        assert(self.postings_view()[d] == pre_post[d].push(doc_idx));
                        assert(nv[k2 as int].dim == d);
                    } else {
                        assert(self.postings_view()[d] == pre_post[d]);
                        assert((exists|i: int| 0 <= i < k2 + 1 && nv[i].dim == d) == (exists|i: int|
                            0 <= i < k2 && nv[i].dim == d));
                    }
                }
            }
            k2 = k2 + 1;
        }
        proof {
            assert forall|d: int| 0 <= d < self.postings_view().len() implies self.postings_view()[d]
                == posting_after(old(self).postings_view(), nv, doc_idx, d) by {
                assert((exists|i: int| 0 <= i < nv.len() && nv[i].dim == d) == has_dim(nv, d));
                assert(self.postings_view()[d] == (if has_dim(nv, d) {
                    post1[d].push(doc_idx)
                } else {
                    post1[d]
                }));
                assert(post1[d] == (if d < gd0.len() {
                    old(self).postings_view()[d]
                } else {
                    Seq::<usize>::empty()
                }));
            }
            lemma_wf_after_add(old(self), self, sids, nv, gd0, dict1);
            assert(sids == seq_ids@);
        }
        true
    }
}

/// The posting list a dimension holds after one document is filed: the old
/// list — empty for a dimension the build just introduced — with the new
/// document's index appended when its vector weighs that dimension.
pub open spec fn posting_after(
    old_post: Seq<Seq<usize>>,
    nv: Seq<DimWeight>,
    doc_idx: usize,
    d: int,
) -> Seq<usize> {
    let base = if d < old_post.len() {
        old_post[d]
    } else {
        Seq::<usize>::empty()
    };
    if has_dim(nv, d) {
        base.push(doc_idx)
    } else {
        base
    }
}

/// Re-establishes well-formedness after one document is filed.
#[verifier::rlimit(30)]
proof fn lemma_wf_after_add(
    pre: &Index,
    post: &Index,
    seq_ids: Seq<u32>,
    nv: Seq<DimWeight>,
    gd0: Seq<Seq<char>>,
    dict1: Seq<Seq<char>>,
)
    requires
        pre.wf(),
        pre.docs_view().len() < usize::MAX,
        gd0 == pre.dict_terms(),
        post.dict_terms() == dict1,
        gd0.is_prefix_of(dict1),
        forall|i: int, j: int| 0 <= i < j < dict1.len() ==> dict1[i] != dict1[j],
        forall|i: int| 0 <= i < dict1.len() ==> (#[trigger] dict1[i]).len() <= TERM_LEN_MAX,
        post.corrector_terms() == dict1,
        seq_ids.len() > 0,
        nv.len() > 0,
        vec_wf(nv),
        forall|i: int| 0 <= i < nv.len() ==> (#[trigger] nv[i]).dim < dict1.len(),
        post.docs_view() == pre.docs_view().push((seq_ids, nv)),
        post.postings_view().len() == dict1.len(),
        pre.postings_view().len() == gd0.len(),
        forall|d: int|
            0 <= d < post.postings_view().len() ==> post.postings_view()[d] == posting_after(
                pre.postings_view(),
                nv,
                pre.docs_view().len() as usize,
                d,
            ),
    ensures
        post.wf(),
{
    broadcast use vstd::seq_lib::lemma_seq_contains_after_push;

    let doc_idx = pre.docs_view().len() as usize;
    assert forall|d: int, k: int|
        0 <= d < post.postings_view().len() && 0 <= k < post.postings_view()[d].len() implies (
    post.postings_view()[d][k]) < post.docs_view().len() by {
        assert(post.postings_view()[d] == posting_after(pre.postings_view(), nv, doc_idx, d));
    }
    assert forall|d: int, k: int, l: int|
        0 <= d < post.postings_view().len() && 0 <= k < l < post.postings_view()[d].len() implies
    post.postings_view()[d][k] != post.postings_view()[d][l] by {
        assert(post.postings_view()[d] == posting_after(pre.postings_view(), nv, doc_idx, d));
        if d < gd0.len() {
            assert(forall|m: int|
                0 <= m < pre.postings_view()[d].len() ==> (#[trigger] pre.postings_view()[d][m])
                    < doc_idx);
        }
    }
    assert forall|i: int, d: int|
        0 <= i < post.docs_view().len() && 0 <= d < post.postings_view().len() implies (
    post.postings_view()[d].contains(i as usize) <==> sum_at(post.docs_view()[i].1, d) > 0) by {
        assert(post.postings_view()[d] == posting_after(pre.postings_view(), nv, doc_idx, d));
        let base = if d < gd0.len() {
            pre.postings_view()[d]
        } else {
            Seq::<usize>::empty()
        };
        assert(forall|m: int| 0 <= m < base.len() ==> (#[trigger] base[m]) < doc_idx);
        if i < pre.docs_view().len() {
            assert(post.docs_view()[i] == pre.docs_view()[i]);
            if d < gd0.len() {
                assert(pre.postings_view()[d].contains(i as usize) <==> sum_at(
                    pre.docs_view()[i].1,
                    d,
                ) > 0);
            } else {
                assert(forall|m: int|
                    0 <= m < pre.docs_view()[i].1.len() ==> (#[trigger] pre.docs_view()[i].1[m]).dim
                        < gd0.len());
                crate::vector::lemma_sum_at_absent(pre.docs_view()[i].1, d);
            }
            assert(post.postings_view()[d].contains(i as usize) <==> base.contains(i as usize));
        } else {
            assert(i == doc_idx);
            assert(post.docs_view()[i].1 == nv);
            assert(!base.contains(i as usize));
            if has_dim(nv, d) {
                let w = choose|m: int| 0 <= m < nv.len() && nv[m].dim == d;
                crate::vector::lemma_sum_at_present(nv, w);
                assert(post.postings_view()[d].contains(i as usize));
            } else {
                assert(forall|m: int| 0 <= m < nv.len() ==> (#[trigger] nv[m]).dim != d);
                crate::vector::lemma_sum_at_absent(nv, d);
                assert(!post.postings_view()[d].contains(i as usize));
            }
        }
    }
}

/// Law: posting/vector consistency. A document appears in a dimension's
/// posting set exactly when its vector carries non-zero weight there.
pub proof fn lemma_posting_consistency(index: &Index, i: int, d: int)
    requires
        index.wf(),
        0 <= i < index.docs_view().len(),
        0 <= d < index.postings_view().len(),
    ensures
        index.postings_view()[d].contains(i as usize) <==> sum_at(index.docs_view()[i].1, d) > 0,
{
}

} // verus!
