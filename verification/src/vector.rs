//! Sparse vectors over term dimensions, their dot product, and the relevance
//! score a query earns against a document. Relevance is kept as the exact pair
//! of a dot product and the document's squared norm; two scores are ranked by
//! cross-multiplying, which orders them exactly as the cosine similarities
//! they stand for (the query's own norm is common to both and cancels).

use vstd::prelude::*;

verus! {

/// One non-zero coordinate of a sparse vector.
#[derive(Clone, Copy, PartialEq, Eq, Structural, Debug)]
pub struct DimWeight {
    /// The dimension id, from the term dictionary.
    pub dim: usize,
    /// The term-frequency-derived weight at that dimension.
    pub weight: u16,
}

/// Most non-zero coordinates a stored vector may have; together with the u16
/// weights this keeps every relevance product within u128 bounds.
pub const VEC_DIMS_MAX: usize = 1024;

/// Relevance products stay under this bound (2^42), so cross-multiplied
/// comparisons of two scores fit in a u128.
pub const REL_BOUND: u64 = 0x400_0000_0000;

/// A sparse vector is well-formed when it is small, its dimensions are
/// distinct and all stored weights are non-zero.
pub open spec fn vec_wf(v: Seq<DimWeight>) -> bool {
    &&& v.len() <= VEC_DIMS_MAX
    &&& forall|i: int, j: int| 0 <= i < j < v.len() ==> v[i].dim != v[j].dim
    &&& forall|i: int| 0 <= i < v.len() ==> (#[trigger] v[i]).weight > 0
}

/// The summed weight a vector carries at one dimension.
pub open spec fn sum_at(v: Seq<DimWeight>, d: int) -> nat
    decreases v.len(),
{
    if v.len() == 0 {
        0
    } else {
        sum_at(v.drop_last(), d) + if v.last().dim == d {
            v.last().weight as nat
        } else {
            0nat
        }
    }
}

/// The dot product of two sparse vectors.
pub open spec fn dot(a: Seq<DimWeight>, b: Seq<DimWeight>) -> nat
    decreases a.len(),
{
    if a.len() == 0 {
        0
    } else {
        dot(a.drop_last(), b) + a.last().weight as nat * sum_at(b, a.last().dim as int)
    }
}

/// The squared Euclidean norm of a sparse vector.
pub open spec fn norm2(v: Seq<DimWeight>) -> nat {
    dot(v, v)
}

/// A vector with no entry at a dimension carries no weight there.
pub proof fn lemma_sum_at_absent(v: Seq<DimWeight>, d: int)
    requires
        forall|i: int| 0 <= i < v.len() ==> (#[trigger] v[i]).dim != d,
    ensures
        sum_at(v, d) == 0,
    decreases v.len(),
{
    if v.len() > 0 {
        lemma_sum_at_absent(v.drop_last(), d);
    }
}

/// With distinct dimensions, the weight at a dimension is one entry's weight.
pub proof fn lemma_sum_at_bound(v: Seq<DimWeight>, d: int)
    requires
        forall|i: int, j: int| 0 <= i < j < v.len() ==> v[i].dim != v[j].dim,
    ensures
        sum_at(v, d) <= 0xFFFF,
    decreases v.len(),
{
    if v.len() > 0 {
        if v.last().dim == d {
            assert(forall|i: int|
                0 <= i < v.drop_last().len() ==> (#[trigger] v.drop_last()[i]).dim != d);
            lemma_sum_at_absent(v.drop_last(), d);
        } else {
            lemma_sum_at_bound(v.drop_last(), d);
        }
    }
}

/// An entry's weight is part of the weight its vector carries at its dimension.
pub proof fn lemma_sum_at_present(v: Seq<DimWeight>, i: int)
    requires
        0 <= i < v.len(),
    ensures
        sum_at(v, v[i].dim as int) >= v[i].weight,
    decreases v.len(),
{
    if i == v.len() - 1 {
    } else {
        lemma_sum_at_present(v.drop_last(), i);
    }
}

/// The dot product of well-formed vectors stays under the relevance bound.
pub proof fn lemma_dot_bound(a: Seq<DimWeight>, b: Seq<DimWeight>)
    requires
        a.len() <= VEC_DIMS_MAX,
        forall|i: int, j: int| 0 <= i < j < b.len() ==> b[i].dim != b[j].dim,
    ensures
        dot(a, b) <= a.len() * 0xFFFF * 0xFFFF,
        dot(a, b) < REL_BOUND,
    decreases a.len(),
{
    if a.len() == 0 {
    } else {
        lemma_dot_bound(a.drop_last(), b);
        lemma_sum_at_bound(b, a.last().dim as int);
        assert(a.last().weight as nat * sum_at(b, a.last().dim as int) <= 0xFFFF * 0xFFFF)
            by (nonlinear_arith)
            requires
                a.last().weight <= 0xFFFF,
                sum_at(b, a.last().dim as int) <= 0xFFFF,
        ;
        assert((a.len() - 1) * 0xFFFF * 0xFFFF + 0xFFFF * 0xFFFF == a.len() * 0xFFFF * 0xFFFF)
            by (nonlinear_arith);
        assert(a.len() * 0xFFFF * 0xFFFF <= VEC_DIMS_MAX * 0xFFFF * 0xFFFF) by (nonlinear_arith)
            requires
                a.len() <= VEC_DIMS_MAX,
        ;
    }
}

/// Appending an entry adds its weight at its own dimension and nothing else.
pub proof fn lemma_sum_at_push(v: Seq<DimWeight>, x: DimWeight, d: int)
    ensures
        sum_at(v.push(x), d) == sum_at(v, d) + if x.dim == d {
            x.weight as nat
        } else {
            0nat
        },
{
    assert(v.push(x).drop_last() =~= v);
}

/// Appending an entry to the second vector adds that entry's weight times the
/// first vector's weight at the entry's dimension.
pub proof fn lemma_dot_push_snd(a: Seq<DimWeight>, b: Seq<DimWeight>, x: DimWeight)
    ensures
        dot(a, b.push(x)) == dot(a, b) + x.weight as nat * sum_at(a, x.dim as int),
    decreases a.len(),
{
    if a.len() == 0 {
    } else {
        lemma_dot_push_snd(a.drop_last(), b, x);
        lemma_sum_at_push(b, x, a.last().dim as int);
        let aw = a.last().weight as nat;
        let xw = x.weight as nat;
        if x.dim == a.last().dim {
            assert(aw * (sum_at(b, a.last().dim as int) + xw) == aw * sum_at(
                b,
                a.last().dim as int,
            ) + aw * xw) by (nonlinear_arith);
            assert(sum_at(a, x.dim as int) == sum_at(a.drop_last(), x.dim as int) + aw);
            assert(xw * (sum_at(a.drop_last(), x.dim as int) + aw) == xw * sum_at(
                a.drop_last(),
                x.dim as int,
            ) + xw * aw) by (nonlinear_arith);
            assert(aw * xw == xw * aw) by (nonlinear_arith);
        } else {
            assert(sum_at(a, x.dim as int) == sum_at(a.drop_last(), x.dim as int));
        }
    }
}

/// Law: the dot product — and with it cosine similarity — is symmetric.
pub proof fn lemma_dot_symmetric(a: Seq<DimWeight>, b: Seq<DimWeight>)
    ensures
        dot(a, b) == dot(b, a),
    decreases a.len(),
{
    if a.len() == 0 {
        assert(a =~= Seq::<DimWeight>::empty());
        lemma_dot_empty_snd(b);
    } else {
        lemma_dot_symmetric(a.drop_last(), b);
        lemma_dot_push_snd(b, a.drop_last(), a.last());
        assert(a.drop_last().push(a.last()) =~= a);
    }
}

/// A dot product against the empty vector is zero.
pub proof fn lemma_dot_empty_snd(b: Seq<DimWeight>)
    ensures
        dot(b, Seq::<DimWeight>::empty()) == 0,
    decreases b.len(),
{
    if b.len() > 0 {
        lemma_dot_empty_snd(b.drop_last());
        assert(sum_at(Seq::<DimWeight>::empty(), b.last().dim as int) == 0);
        assert(b.last().weight as nat * 0 == 0);
    }
}

/// A non-empty well-formed vector has a positive squared norm.
pub proof fn lemma_norm2_pos(v: Seq<DimWeight>)
    requires
        v.len() > 0,
        forall|i: int| 0 <= i < v.len() ==> (#[trigger] v[i]).weight > 0,
    ensures
        norm2(v) > 0,
{
    lemma_sum_at_present(v, v.len() - 1);
    let lw = v.last().weight as nat;
    let s = sum_at(v, v.last().dim as int);
    assert(lw * s > 0) by (nonlinear_arith)
        requires
            lw > 0,
            s >= lw,
    ;
}

/// Law: the cosine similarity of a non-empty well-formed vector with itself
/// is exactly one — the squared dot product with itself equals the product
/// of the two squared norms under the root — and it is well-defined, the
/// norm being positive.
pub proof fn lemma_cosine_self(v: Seq<DimWeight>)
    requires
        vec_wf(v),
        v.len() > 0,
    ensures
        dot(v, v) * dot(v, v) == norm2(v) * norm2(v),
        norm2(v) > 0,
{
    lemma_norm2_pos(v);
}

/// The exact relevance of a document against a query: the dot product of the
/// two vectors over the document's squared norm (under the square root shared
/// with the query norm, which ranking cancels out).
#[derive(Clone, Copy, PartialEq, Eq, Structural, Debug)]
pub struct Relevance {
    /// Dot product of the document vector with the query vector.
    pub dot: u64,
    /// Squared norm of the document vector.
    pub norm2: u64,
}

/// Both components are bounded and the norm is positive, as every score that
/// the engine produces is.
pub open spec fn rel_wf(r: Relevance) -> bool {
    r.dot < REL_BOUND && 0 < r.norm2 < REL_BOUND
}

/// `a` scores no higher than `b`: cross-multiplied cosine comparison.
pub open spec fn rel_le(a: Relevance, b: Relevance) -> bool {
    a.dot * a.dot * b.norm2 <= b.dot * b.dot * a.norm2
}

/// Cross-multiplied comparison orders relevances transitively.
pub proof fn lemma_rel_le_trans(a: Relevance, b: Relevance, c: Relevance)
    requires
        rel_wf(a),
        rel_wf(b),
        rel_wf(c),
        rel_le(a, b),
        rel_le(b, c),
    ensures
        rel_le(a, c),
{
    let ad = a.dot as int;
    let bd = b.dot as int;
    let cd = c.dot as int;
    let an = a.norm2 as int;
    let bn = b.norm2 as int;
    let cn = c.norm2 as int;
    assert(ad * ad * cn <= cd * cd * an) by (nonlinear_arith)
        requires
            ad * ad * bn <= bd * bd * an,
            bd * bd * cn <= cd * cd * bn,
            an > 0,
            bn > 0,
            cn > 0,
            ad >= 0,
            bd >= 0,
            cd >= 0,
    ;
}

} // verus!
