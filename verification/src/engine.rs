//! The vector retrieval engine behind foreign (gloss) search. A query string
//! is resolved into a known term — exactly, lower-cased, or through the fuzzy
//! corrector — and turned into a one-term query vector; every document that
//! shares at least one dimension with it is a candidate (a recall-favoring
//! union, not an intersection); candidates are scored by cosine similarity,
//! kept above the relevance floor of zero, expanded into one row per sequence
//! id, deduplicated and returned in descending relevance order.

use vstd::prelude::*;

use crate::corrector::{candidates_view, find_result, TERM_LEN_MAX};
use crate::error::Error;
use crate::index::Index;
use crate::language::Language;
use crate::ranking::{row_lt, sort_rows, ResultItem};
use crate::term_dict::{dict_contains, dim_of};
use crate::text::{lower_of, to_lower};
use crate::vector::{
    dot, norm2, rel_wf, sum_at, vec_wf, DimWeight, Relevance, REL_BOUND, VEC_DIMS_MAX,
};

verus! {

/// The nearest known term within the staged distance bounds: candidates at
/// distance one are tried first and only if there are none the search widens
/// to distance two — never further. The closest candidate wins; ties go to
/// the earliest term in dictionary order, so the choice is deterministic.
pub open spec fn corrected(terms: Seq<Seq<char>>, q: Seq<char>) -> Option<Seq<char>> {
    if find_result(terms, q, 1).len() > 0 {
        Some(find_result(terms, q, 1)[0].0)
    } else if find_result(terms, q, 2).len() > 0 {
        Some(find_result(terms, q, 2)[0].0)
    } else {
        None
    }
}

/// True if the dictionary holds the query as it stands or lower-cased.
pub open spec fn has_term_ci(dict: Seq<Seq<char>>, q: Seq<char>) -> bool {
    dict_contains(dict, q) || dict_contains(dict, lower_of(q))
}

/// The term a query resolves to: itself when known, else its lower-cased
/// form when that is known, else the fuzzy correction, else the literal
/// query unchanged.
pub open spec fn resolved_term(dict: Seq<Seq<char>>, q: Seq<char>) -> Seq<char> {
    if dict_contains(dict, q) {
        q
    } else if dict_contains(dict, lower_of(q)) {
        lower_of(q)
    } else if corrected(dict, q) is Some {
        corrected(dict, q)->0
    } else {
        q
    }
}

/// The one-term query vector: unit weight at the resolved term's dimension,
/// or empty when the resolved term maps to no dimension.
pub open spec fn query_vector(dict: Seq<Seq<char>>, q: Seq<char>) -> Seq<DimWeight> {
    let t = resolved_term(dict, q);
    if dict_contains(dict, t) {
        seq![DimWeight { dim: dim_of(dict, t) as usize, weight: 1 }]
    } else {
        Seq::<DimWeight>::empty()
    }
}

/// A document is a candidate when it appears in the posting list of at least
/// one dimension of the query vector.
pub open spec fn is_candidate(post: Seq<Seq<usize>>, qv: Seq<DimWeight>, c: usize) -> bool {
    exists|k: int|
        0 <= k < qv.len() && (qv[k].dim as int) < post.len() && post[qv[k].dim as int].contains(c)
}

/// The row a candidate document contributes for one of its sequence ids:
/// its exact relevance against the query, above the zero floor, tagged with
/// the English language class.
pub open spec fn row_for(
    docs: Seq<(Seq<u32>, Seq<DimWeight>)>,
    qv: Seq<DimWeight>,
    c: usize,
    row: ResultItem,
) -> bool {
    &&& (c as int) < docs.len()
    &&& docs[c as int].0.contains(row.seq_id)
    &&& row.relevance.dot == dot(docs[c as int].1, qv)
    &&& row.relevance.norm2 == norm2(docs[c as int].1)
    &&& row.relevance.dot > 0
    &&& row.language == Language::English
}

/// A row belongs to the result exactly when some candidate contributes it.
pub open spec fn row_ok(
    docs: Seq<(Seq<u32>, Seq<DimWeight>)>,
    post: Seq<Seq<usize>>,
    qv: Seq<DimWeight>,
    row: ResultItem,
) -> bool {
    exists|c: usize| #[trigger]
        is_candidate(post, qv, c) && row_for(docs, qv, c, row)
}

/// Rows stand in strictly increasing ranking order: descending relevance,
/// ties broken deterministically, no duplicates.
pub open spec fn sorted_rows(s: Seq<ResultItem>) -> bool {
    forall|i: int, j: int| 0 <= i < j < s.len() ==> row_lt(s[i], s[j])
}

/// What a successful search returns: exactly the rows the candidates
/// contribute, ranked.
pub open spec fn search_ok(
    docs: Seq<(Seq<u32>, Seq<DimWeight>)>,
    post: Seq<Seq<usize>>,
    qv: Seq<DimWeight>,
    items: Seq<ResultItem>,
) -> bool {
    &&& forall|row: ResultItem| #[trigger]
        items.contains(row) <==> row_ok(docs, post, qv, row)
    &&& sorted_rows(items)
}

/// The ranked, deduplicated rows of one search.
#[derive(Debug)]
pub struct SearchResult {
    /// Result rows in descending relevance order.
    pub items: Vec<ResultItem>,
}

impl SearchResult {
    /// Wraps a ranked row list.
    pub fn new(items: Vec<ResultItem>) -> (r: SearchResult)
        ensures
            r.items@ == items@,
    {
        SearchResult { items }
    }
}

impl Default for SearchResult {
    /// The empty result set.
    fn default() -> (r: SearchResult)
        ensures
            r.items@.len() == 0,
    {
        SearchResult { items: Vec::new() }
    }
}

/// Law: a query with no overlapping dimensions with any document yields an
/// empty result set — not an error.
pub proof fn lemma_no_overlap_empty(
    docs: Seq<(Seq<u32>, Seq<DimWeight>)>,
    post: Seq<Seq<usize>>,
    qv: Seq<DimWeight>,
    items: Seq<ResultItem>,
)
    requires
        search_ok(docs, post, qv, items),
        forall|c: usize| !is_candidate(post, qv, c),
    ensures
        items.len() == 0,
{
    if items.len() > 0 {
        assert(items.contains(items[0]));
        assert(row_ok(docs, post, qv, items[0]));
        let c = choose|c: usize| #[trigger]
            is_candidate(post, qv, c) && row_for(docs, qv, c, items[0]);
        assert(is_candidate(post, qv, c));
        assert(false);
    }
}

/// Sums the weight a vector carries at one dimension.
fn sum_weight_at(b: &Vec<DimWeight>, d: usize) -> (s: u64)
    requires
        b@.len() <= VEC_DIMS_MAX,
    ensures
        s == sum_at(b@, d as int),
{
    let n = b.len();
    let mut s: u64 = 0;
    let mut j: usize = 0;
    proof {
        assert(b@.subrange(0, 0) =~= Seq::<DimWeight>::empty());
    }
    while j < n
        invariant
            j <= n,
            n == b@.len(),
            n <= VEC_DIMS_MAX,
            s == sum_at(b@.subrange(0, j as int), d as int),
            s <= j * 0xFFFF,
        decreases n - j,
    {
        proof {
            assert(b@.subrange(0, j + 1).drop_last() =~= b@.subrange(0, j as int));
            assert(b@.subrange(0, j + 1).last() == b@[j as int]);
        }
        if b[j].dim == d {
            s = s + b[j].weight as u64;
        }
        j = j + 1;
    }
    proof {
        assert(b@.subrange(0, n as int) =~= b@);
    }
    s
}

/// Computes the dot product of two sparse vectors.
fn dot_product(a: &Vec<DimWeight>, b: &Vec<DimWeight>) -> (r: u64)
    requires
        a@.len() <= VEC_DIMS_MAX,
        b@.len() <= VEC_DIMS_MAX,
        forall|i: int, j: int| 0 <= i < j < b@.len() ==> b@[i].dim != b@[j].dim,
    ensures
        r == dot(a@, b@),
        r < REL_BOUND,
{
    let n = a.len();
    let mut acc: u64 = 0;
    let mut i: usize = 0;
    proof {
        assert(a@.subrange(0, 0) =~= Seq::<DimWeight>::empty());
    }
    while i < n
        invariant
            i <= n,
            n == a@.len(),
            a@.len() <= VEC_DIMS_MAX,
            b@.len() <= VEC_DIMS_MAX,
            forall|k: int, j: int| 0 <= k < j < b@.len() ==> b@[k].dim != b@[j].dim,
            acc == dot(a@.subrange(0, i as int), b@),
            acc < REL_BOUND,
        decreases n - i,
    {
        let s = sum_weight_at(b, a[i].dim);
        proof {
            crate::vector::lemma_sum_at_bound(b@, a@[i as int].dim as int);
            assert(a@[i as int].weight as u64 * s <= 0xFFFF * 0xFFFF) by (nonlinear_arith)
                requires
                    a@[i as int].weight <= 0xFFFF,
                    s <= 0xFFFF,
            ;
            assert(a@.subrange(0, i + 1).drop_last() =~= a@.subrange(0, i as int));
            assert(a@.subrange(0, i + 1).last() == a@[i as int]);
            crate::vector::lemma_dot_bound(a@.subrange(0, i + 1), b@);
        }
        acc = acc + (a[i].weight as u64) * s;
        i = i + 1;
    }
    proof {
        assert(a@.subrange(0, n as int) =~= a@);
    }
    acc
}

/// Scans a list of document indices for one index.
fn contains_usize(v: &Vec<usize>, x: usize) -> (r: bool)
    ensures
        r == v@.contains(x),
{
    let n = v.len();
    let mut i: usize = 0;
    while i < n
        invariant
            i <= n,
            n == v@.len(),
            forall|j: int| 0 <= j < i ==> v@[j] != x,
        decreases n - i,
    {
        if v[i] == x {
            return true;
        }
        i = i + 1;
    }
    false
}

/// An element of a filtered sequence is an element of the original.
proof fn lemma_filter_member<A>(s: Seq<A>, p: spec_fn(A) -> bool, x: A)
    requires
        s.filter(p).contains(x),
    ensures
        s.contains(x),
        p(x),
    decreases s.len(),
{
    reveal(Seq::filter);
    if s.len() > 0 {
        if s.drop_last().filter(p).contains(x) {
            lemma_filter_member(s.drop_last(), p, x);
            let i = choose|i: int| 0 <= i < s.drop_last().len() && s.drop_last()[i] == x;
            assert(s[i] == x);
        } else {
            assert(x == s.last());
            assert(s[s.len() - 1] == x);
        }
    }
}

/// The first candidate the corrector returns is a term of the dictionary.
proof fn lemma_find_result_first(terms: Seq<Seq<char>>, q: Seq<char>, max: nat)
    requires
        find_result(terms, q, max).len() > 0,
    ensures
        terms.contains(find_result(terms, q, max)[0].0),
    decreases max,
{
    if max == 0 {
        let m = crate::corrector::matches_at(terms, q, 0);
        assert(find_result(terms, q, 0)[0] == (m[0], 0nat));
        assert(m.contains(m[0]));
        lemma_filter_member(terms, |t: Seq<char>| crate::edit_distance::edit_dist(t, q) == 0, m[0]);
    } else {
        let prev = find_result(terms, q, (max - 1) as nat);
        if prev.len() > 0 {
            lemma_find_result_first(terms, q, (max - 1) as nat);
            assert(find_result(terms, q, max)[0] == prev[0]);
        } else {
            let m = crate::corrector::matches_at(terms, q, max);
            assert(find_result(terms, q, max)[0] == (m[0], max));
            assert(m.contains(m[0]));
            lemma_filter_member(
                terms,
                |t: Seq<char>| crate::edit_distance::edit_dist(t, q) == max,
                m[0],
            );
        }
    }
}

/// A foreign word search over one query string, with the pagination window
/// its caller asked for.
pub struct Find {
    limit: usize,
    offset: usize,
    query: String,
}

impl Find {
    /// The query string searched for.
    pub closed spec fn query_view(&self) -> Seq<char> {
        self.query@
    }

    /// The row limit asked for.
    pub closed spec fn limit_view(&self) -> usize {
        self.limit
    }

    /// The row offset asked for.
    pub closed spec fn offset_view(&self) -> usize {
        self.offset
    }

    /// Creates a search over a query string.
    pub fn new(query: &str, limit: usize, offset: usize) -> (r: Find)
        ensures
            r.query_view() == query@,
            r.limit_view() == limit,
            r.offset_view() == offset,
    {
        Find { limit, offset, query: query.to_owned() }
    }

    /// The row limit asked for.
    pub fn get_limit(&self) -> (r: usize)
        ensures
            r == self.limit_view(),
    {
        self.limit
    }

    /// The row offset asked for.
    pub fn get_offset(&self) -> (r: usize)
        ensures
            r == self.offset_view(),
    {
        self.offset
    }

    /// The query string searched for.
    pub fn get_query_str(&self) -> (r: &str)
        ensures
            r@ == self.query_view(),
    {
        self.query.as_str()
    }

    /// Returns an alternative search term when the literal query is not a
    /// known term: the fuzzy correction within distance one, widened to two.
    /// `None` when the query — as it stands or lower-cased — is already a
    /// term, or when no known term lies within distance two.
    pub fn fixed_term(&self, index: &Index) -> (r: Option<String>)
        requires
            index.wf(),
            self.query_view().len() <= TERM_LEN_MAX,
        ensures
            match r {
                Some(t) => !has_term_ci(index.dict_terms(), self.query_view()) && corrected(
                    index.dict_terms(),
                    self.query_view(),
                ) == Some(t@),
                None => has_term_ci(index.dict_terms(), self.query_view()) || corrected(
                    index.dict_terms(),
                    self.query_view(),
                ) is None,
            },
    {
        let exact = index.dict().find_term(self.query.as_str());
        if exact.is_some() {
            return None;
        }
        let lower = to_lower(self.query.as_str());
        let lowered = index.dict().find_term(lower.as_str());
        if lowered.is_some() {
            return None;
        }
        let res1 = index.corrector().find(self.query.as_str(), 1);
        if res1.len() > 0 {
            proof {
                assert(candidates_view(res1@)[0] == (res1@[0].0@, res1@[0].1 as nat));
            }
            return Some(res1[0].0.clone());
        }
        let res2 = index.corrector().find(self.query.as_str(), 2);
        if res2.len() > 0 {
            proof {
                assert(candidates_view(res2@)[0] == (res2@[0].0@, res2@[0].1 as nat));
                assert(candidates_view(res1@).len() == 0);
            }
            return Some(res2[0].0.clone());
        }
        proof {
            assert(candidates_view(res1@).len() == 0);
            assert(candidates_view(res2@).len() == 0);
        }
        None
    }

    /// Builds the one-term query vector for the resolved query, or `None`
    /// when the resolved term maps to no dimension.
    pub fn gen_query(&self, index: &Index) -> (r: Option<Vec<DimWeight>>)
        requires
            index.wf(),
            self.query_view().len() <= TERM_LEN_MAX,
        ensures
            match r {
                Some(v) => {
                    &&& v@ == query_vector(index.dict_terms(), self.query_view())
                    &&& v@.len() == 1
                    &&& vec_wf(v@)
                    &&& (v@[0].dim as int) < index.dict_terms().len()
                },
                None => query_vector(index.dict_terms(), self.query_view()).len() == 0,
            },
    {
        let exact = index.dict().find_term(self.query.as_str());
        if let Some(d) = exact {
            let mut v: Vec<DimWeight> = Vec::new();
            v.push(DimWeight { dim: d, weight: 1 });
            proof {
                assert(v@ =~= query_vector(index.dict_terms(), self.query_view()));
            }
            return Some(v);
        }
        let lower = to_lower(self.query.as_str());
        let lowered = index.dict().find_term(lower.as_str());
        if let Some(d) = lowered {
            let mut v: Vec<DimWeight> = Vec::new();
            v.push(DimWeight { dim: d, weight: 1 });
            proof {
                assert(v@ =~= query_vector(index.dict_terms(), self.query_view()));
            }
            return Some(v);
        }
        match self.fixed_term(index) {
            Some(t) => {
                proof {
                    if find_result(index.dict_terms(), self.query_view(), 1).len() > 0 {
                        lemma_find_result_first(index.dict_terms(), self.query_view(), 1);
                    } else {
                        lemma_find_result_first(index.dict_terms(), self.query_view(), 2);
                    }
                    assert(dict_contains(index.dict_terms(), t@));
                }
                let d = index.dict().find_term(t.as_str());
                match d {
                    Some(d) => {
                        let mut v: Vec<DimWeight> = Vec::new();
                        v.push(DimWeight { dim: d, weight: 1 });
                        proof {
                            assert(resolved_term(index.dict_terms(), self.query_view()) == t@);
                            assert(v@ =~= query_vector(index.dict_terms(), self.query_view()));
                        }
                        Some(v)
                    },
                    None => {
                        proof {
                            assert(false);
                        }
                        None
                    },
                }
            },
            None => {
                proof {
                    assert(resolved_term(index.dict_terms(), self.query_view())
                        == self.query_view());
                }
                None
            },
        }
    }

    /// Scores a search with a caller-supplied query vector. `None` for the
    /// index means its one-time load has not completed: the fatal
    /// not-initialized error, distinct from an empty result. A query vector
    /// naming a dimension with no posting list is a build inconsistency and
    /// surfaces as the not-found error. Otherwise the result holds exactly
    /// the candidates' rows, ranked.
    pub fn find_by_vec(&self, index: Option<&Index>, query_vec: &Vec<DimWeight>) -> (r: Result<
        SearchResult,
        Error,
    >)
        requires
            match index {
                Some(i) => i.wf(),
                None => true,
            },
            vec_wf(query_vec@),
        ensures
            match index {
                None => r == Err::<SearchResult, Error>(Error::NotInitialized),
                Some(i) => {
                    if exists|k: int|
                        0 <= k < query_vec@.len() && (query_vec@[k].dim as int)
                            >= i.postings_view().len() {
                        r == Err::<SearchResult, Error>(Error::NotFound)
                    } else {
                        match r {
                            Ok(sr) => search_ok(
                                i.docs_view(),
                                i.postings_view(),
                                query_vec@,
                                sr.items@,
                            ),
                            Err(_) => false,
                        }
                    }
                },
            },
    {
        let idx = match index {
            Some(i) => i,
            None => {
                return Err(Error::NotInitialized);
            },
        };
        let ghost docs = idx.docs_view();
        let ghost post = idx.postings_view();
        let ghost qv = query_vec@;
        let qlen = query_vec.len();
        let np = idx.num_postings();
        let mut k: usize = 0;
        while k < qlen
            invariant
                index == Some(idx),
                k <= qlen,
                qlen == qv.len(),
                qv == query_vec@,
                np == post.len(),
                post == idx.postings_view(),
                forall|kk: int| 0 <= kk < k ==> ((#[trigger] qv[kk]).dim as int) < post.len(),
            decreases qlen - k,
        {
            if query_vec[k].dim >= np {
                return Err(Error::NotFound);
            }
            k = k + 1;
        }
        let mut cand: Vec<usize> = Vec::new();
        let mut k: usize = 0;
        proof {
            assert(qv.subrange(0, 0) =~= Seq::<DimWeight>::empty());
            assert forall|c: usize| !is_candidate(post, qv.subrange(0, 0), c) by {}
        }
        while k < qlen
            invariant
                index == Some(idx),
                k <= qlen,
                qlen == qv.len(),
                qv == query_vec@,
                idx.wf(),
                np == post.len(),
                post == idx.postings_view(),
                docs == idx.docs_view(),
                forall|kk: int| 0 <= kk < qlen ==> ((#[trigger] qv[kk]).dim as int) < post.len(),
                forall|i: int, j: int| 0 <= i < j < cand@.len() ==> cand@[i] != cand@[j],
                forall|i: int| 0 <= i < cand@.len() ==> (#[trigger] cand@[i] as int) < docs.len(),
                forall|c: usize| #[trigger]
                    cand@.contains(c) <==> is_candidate(post, qv.subrange(0, k as int), c),
            decreases qlen - k,
        {
            let dim = query_vec[k].dim;
            let plist = idx.postings_list(dim);
            let m = plist.len();
            let mut j: usize = 0;
            while j < m
                invariant
                    index == Some(idx),
                    j <= m,
                    k < qlen,
                    qlen == qv.len(),
                    qv == query_vec@,
                    idx.wf(),
                    np == post.len(),
                    post == idx.postings_view(),
                    docs == idx.docs_view(),
                    dim == qv[k as int].dim,
                    (dim as int) < post.len(),
                    plist@ == post[dim as int],
                    m == plist@.len(),
                    forall|i: int, j2: int| 0 <= i < j2 < cand@.len() ==> cand@[i] != cand@[j2],
                    forall|i: int| 0 <= i < cand@.len() ==> (#[trigger] cand@[i] as int) < docs.len(),
                    forall|c: usize| #[trigger]
                        cand@.contains(c) <==> (is_candidate(post, qv.subrange(0, k as int), c)
                            || exists|jj: int| 0 <= jj < j && post[dim as int][jj] == c),
                decreases m - j,
            {
                let c = plist[j];
                let ghost pre_cand = cand@;
                if !contains_usize(&cand, c) {
                    cand.push(c);
                }
                proof {
                    assert((post[dim as int][j as int]) == c);
                    assert(idx.wf());
                    assert((post[dim as int][j as int] as int) < docs.len());
                    assert forall|c2: usize| #[trigger]
                        cand@.contains(c2) <==> (is_candidate(post, qv.subrange(0, k as int), c2)
                            || exists|jj: int| 0 <= jj < j + 1 && post[dim as int][jj] == c2) by {
                        vstd::seq_lib::lemma_seq_contains_after_push(pre_cand, c, c2);
                        if c2 == c {
                            assert(post[dim as int][j as int] == c2);
                            assert(cand@.contains(c2));
                        }
                        if cand@.contains(c2) && c2 != c {
                            assert(pre_cand.contains(c2));
                        }
                        if (exists|jj: int| 0 <= jj < j + 1 && post[dim as int][jj] == c2) && c2
                            != c {
                            let jj = choose|jj: int|
                                0 <= jj < j + 1 && post[dim as int][jj] == c2;
                            assert(jj < j);
                        }
                    }
                }
                j = j + 1;
            }
            proof {
                assert forall|c: usize| #[trigger]
                    is_candidate(post, qv.subrange(0, k + 1), c) <==> (is_candidate(
                    post,
                    qv.subrange(0, k as int),
                    c,
                ) || post[dim as int].contains(c)) by {
                    if is_candidate(post, qv.subrange(0, k + 1), c) {
                        let kk = choose|kk: int|
                            0 <= kk < qv.subrange(0, k + 1).len() && ((#[trigger] qv.subrange(
                                0,
                                k + 1,
                            )[kk]).dim as int) < post.len() && post[qv.subrange(0, k + 1)[kk].dim
                                as int].contains(c);
                        assert(qv.subrange(0, k + 1)[kk] == qv[kk]);
                        if kk < k {
                            assert(qv.subrange(0, k as int)[kk] == qv[kk]);
                            assert(is_candidate(post, qv.subrange(0, k as int), c));
                        } else {
                            assert(post[dim as int].contains(c));
                        }
                    }
                    if is_candidate(post, qv.subrange(0, k as int), c) {
                        let kk = choose|kk: int|
                            0 <= kk < qv.subrange(0, k as int).len() && ((#[trigger] qv.subrange(
                                0,
                                k as int,
                            )[kk]).dim as int) < post.len() && post[qv.subrange(0, k as int)[kk].dim
                                as int].contains(c);
                        assert(qv.subrange(0, k + 1)[kk] == qv[kk]);
                        assert(is_candidate(post, qv.subrange(0, k + 1), c));
                    }
                    if post[dim as int].contains(c) {
                        assert(qv.subrange(0, k + 1)[k as int] == qv[k as int]);
                        assert(is_candidate(post, qv.subrange(0, k + 1), c));
                    }
                }
            }
            k = k + 1;
        }
        proof {
            assert(qv.subrange(0, qlen as int) =~= qv);
        }
        let mut rows: Vec<ResultItem> = Vec::new();
        let nc = cand.len();
        let mut c: usize = 0;
        while c < nc
            invariant
                index == Some(idx),
                c <= nc,
                nc == cand@.len(),
                qv == query_vec@,
                vec_wf(qv),
                idx.wf(),
                post == idx.postings_view(),
                docs == idx.docs_view(),
                forall|i: int| 0 <= i < cand@.len() ==> (#[trigger] cand@[i] as int) < docs.len(),
                forall|c2: usize| #[trigger] cand@.contains(c2) <==> is_candidate(post, qv, c2),
                forall|i: int| 0 <= i < rows@.len() ==> rel_wf((#[trigger] rows@[i]).relevance),
                forall|row: ResultItem| #[trigger]
                    rows@.contains(row) <==> exists|cc: int|
                        0 <= cc < c && row_for(docs, qv, cand@[cc], row),
            decreases nc - c,
        {
            let ci = cand[c];
            let doc = idx.doc(ci);
            proof {
                assert(vec_wf(docs[ci as int].1));
                assert(docs[ci as int].1.len() > 0);
            }
            let dotv = dot_product(&doc.vector, query_vec);
            let ghost rows_pre = rows@;
            if dotv > 0 {
                let n2 = dot_product(&doc.vector, &doc.vector);
                proof {
                    crate::vector::lemma_norm2_pos(docs[ci as int].1);
                }
                let ns = doc.seq_ids.len();
                let mut s: usize = 0;
                while s < ns
                    invariant
                        index == Some(idx),
                        s <= ns,
                        ns == docs[ci as int].0.len(),
                        (ci as int) < docs.len(),
                        docs == idx.docs_view(),
                        idx.wf(),
                        qv == query_vec@,
                        doc.seq_ids@ == docs[ci as int].0,
                        dotv == dot(docs[ci as int].1, qv),
                        dotv > 0,
                        dotv < REL_BOUND,
                        n2 == norm2(docs[ci as int].1),
                        0 < n2 < REL_BOUND,
                        forall|i: int| 0 <= i < rows@.len() ==> rel_wf(
                            (#[trigger] rows@[i]).relevance,
                        ),
                        forall|row: ResultItem| #[trigger]
                            rows@.contains(row) <==> (rows_pre.contains(row) || (row_for(
                                docs,
                                qv,
                                ci,
                                row,
                            ) && exists|ss: int| 0 <= ss < s && docs[ci as int].0[ss] == row.seq_id)),
                        forall|row: ResultItem| #[trigger]
                            rows_pre.contains(row) ==> rows@.contains(row),
                    decreases ns - s,
                {
                    let ghost prev = rows@;
                    let item = ResultItem {
                        seq_id: doc.seq_ids[s],
                        relevance: Relevance { dot: dotv, norm2: n2 },
                        language: Language::English,
                    };
                    rows.push(item);
                    proof {
                        assert(docs[ci as int].0[s as int] == item.seq_id);
                        assert forall|row: ResultItem| #[trigger]
                            rows@.contains(row) <==> (rows_pre.contains(row) || (row_for(
                                docs,
                                qv,
                                ci,
                                row,
                            ) && exists|ss: int|
                                0 <= ss < s + 1 && docs[ci as int].0[ss] == row.seq_id)) by {
                            vstd::seq_lib::lemma_seq_contains_after_push(prev, item, row);
                            if row == item {
                                assert(docs[ci as int].0[s as int] == row.seq_id);
                                assert(docs[ci as int].0.contains(row.seq_id));
                                assert(row_for(docs, qv, ci, row));
                            }
                            if row_for(docs, qv, ci, row) && (exists|ss: int|
                                0 <= ss < s + 1 && docs[ci as int].0[ss] == row.seq_id) && row
                                != item {
                                let ss = choose|ss: int|
                                    0 <= ss < s + 1 && docs[ci as int].0[ss] == row.seq_id;
                                if ss == s {
                                    assert(row.seq_id == item.seq_id);
                                    assert(row.relevance == item.relevance);
                                    assert(row.language == item.language);
                                    assert(row == item);
                                } else {
                                    assert(exists|ss2: int|
                                        0 <= ss2 < s && docs[ci as int].0[ss2] == row.seq_id);
                                }
                            }
                        }
                    }
                    s = s + 1;
                }
                proof {
                    assert forall|row: ResultItem| #[trigger]
                        rows@.contains(row) <==> (rows_pre.contains(row) || row_for(
                        docs,
                        qv,
                        ci,
                        row,
                    )) by {
                        if row_for(docs, qv, ci, row) {
                            assert(docs[ci as int].0.contains(row.seq_id));
                        }
                    }
                }
            } else {
                proof {
                    assert forall|row: ResultItem| #[trigger]
                        rows@.contains(row) <==> (rows_pre.contains(row) || row_for(
                        docs,
                        qv,
                        ci,
                        row,
                    )) by {
                        if row_for(docs, qv, ci, row) {
                            assert(row.relevance.dot == dot(docs[ci as int].1, qv));
                            assert(false);
                        }
                    }
                }
            }
            proof {
                assert forall|row: ResultItem| #[trigger]
                    rows@.contains(row) <==> exists|cc: int|
                        0 <= cc < c + 1 && row_for(docs, qv, cand@[cc], row) by {
                    if rows@.contains(row) {
                        if rows_pre.contains(row) {
                            let cc = choose|cc: int|
                                0 <= cc < c && row_for(docs, qv, cand@[cc], row);
                            assert(0 <= cc < c + 1 && row_for(docs, qv, cand@[cc], row));
                        } else {
                            assert(row_for(docs, qv, cand@[c as int], row));
                        }
                    }
                    if exists|cc: int| 0 <= cc < c + 1 && row_for(docs, qv, cand@[cc], row) {
                        let cc = choose|cc: int|
                            0 <= cc < c + 1 && row_for(docs, qv, cand@[cc], row);
                        if cc < c {
                            assert(rows_pre.contains(row));
                        } else {
                            assert(row_for(docs, qv, ci, row));
                        }
                    }
                }
            }
            c = c + 1;
        }
        let sorted = sort_rows(&rows);
        proof {
            assert forall|row: ResultItem| #[trigger]
                sorted@.contains(row) <==> row_ok(docs, post, qv, row) by {
                if sorted@.contains(row) {
                    let cc = choose|cc: int| 0 <= cc < nc && row_for(docs, qv, cand@[cc], row);
                    assert(cand@.contains(cand@[cc]));
                    assert(is_candidate(post, qv, cand@[cc]));
                    assert(is_candidate(post, qv, cand@[cc]) && row_for(docs, qv, cand@[cc], row));
                }
                if row_ok(docs, post, qv, row) {
                    let c0 = choose|c0: usize| #[trigger]
                        is_candidate(post, qv, c0) && row_for(docs, qv, c0, row);
                    assert(cand@.contains(c0));
                    let cc = choose|cc: int| 0 <= cc < cand@.len() && cand@[cc] == c0;
                    assert(row_for(docs, qv, cand@[cc], row));
                    assert(rows@.contains(row));
                }
            }
        }
        Ok(SearchResult { items: sorted })
    }

    /// A foreign word search: resolves the query, builds its vector, and
    /// scores it against the posting index. `None` for the index means its
    /// one-time load has not completed and is the fatal not-initialized
    /// error. A query whose resolved term maps to no dimension, or that
    /// shares no dimension with any document, yields an empty result — never
    /// an error.
    pub fn find(&self, index: Option<&Index>) -> (r: Result<SearchResult, Error>)
        requires
            match index {
                Some(i) => i.wf(),
                None => true,
            },
            self.query_view().len() <= TERM_LEN_MAX,
        ensures
            match index {
                None => r == Err::<SearchResult, Error>(Error::NotInitialized),
                Some(i) => match r {
                    Ok(sr) => search_ok(
                        i.docs_view(),
                        i.postings_view(),
                        query_vector(i.dict_terms(), self.query_view()),
                        sr.items@,
                    ),
                    Err(_) => false,
                },
            },
    {
        let idx = match index {
            Some(i) => i,
            None => {
                return Err(Error::NotInitialized);
            },
        };
        let ghost qv = query_vector(idx.dict_terms(), self.query_view());
        match self.gen_query(idx) {
            Some(v) => {
                proof {
                    assert forall|k: int|
                        0 <= k < v@.len() implies ((#[trigger] v@[k]).dim as int)
                        < idx.postings_view().len() by {
                        assert(v@[k] == v@[0]);
                    }
                }
                let r = self.find_by_vec(index, &v);
                proof {
                    assert(!(exists|k: int|
                        0 <= k < v@.len() && (v@[k].dim as int) >= idx.postings_view().len()));
                }
                r
            },
            None => {
                let sr = SearchResult { items: Vec::new() };
                proof {
                    assert(qv.len() == 0);
                    assert forall|row: ResultItem| #[trigger]
                        sr.items@.contains(row) <==> row_ok(
                        idx.docs_view(),
                        idx.postings_view(),
                        qv,
                        row,
                    ) by {
                        if row_ok(idx.docs_view(), idx.postings_view(), qv, row) {
                            let c0 = choose|c0: usize| #[trigger]
                                is_candidate(idx.postings_view(), qv, c0) && row_for(
                                idx.docs_view(),
                                qv,
                                c0,
                                row,
                            );
                            assert(is_candidate(idx.postings_view(), qv, c0));
                            assert(false);
                        }
                    }
                }
                Ok(sr)
            },
        }
    }
}

} // verus!
