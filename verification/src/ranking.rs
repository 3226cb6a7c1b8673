//! Result rows and their ranking. Rows are ordered by descending relevance —
//! compared exactly, by cross-multiplying the rational scores — and ties are
//! broken by ascending sequence id, then by the score representation and the
//! language tag, so the order is total and the ranked list deterministic.

use vstd::prelude::*;

use crate::language::{lang_rank, lang_rank_of, Language};
use crate::vector::{rel_le, rel_wf, Relevance, REL_BOUND};

verus! {

/// One ranked result row: a backing record's sequence id, the relevance its
/// document earned against the query, and the language class of the search.
#[derive(Clone, Copy, PartialEq, Eq, Structural, Debug)]
pub struct ResultItem {
    /// External identifier of the backing dictionary record.
    pub seq_id: u32,
    /// Exact relevance of the document this row came from.
    pub relevance: Relevance,
    /// Language class tagged onto the row.
    pub language: Language,
}

/// Strict total order on rows: higher relevance first; among equal scores,
/// ascending sequence id, then the score representation, then the language.
pub open spec fn row_lt(x: ResultItem, y: ResultItem) -> bool {
    let xc = x.relevance.dot * x.relevance.dot * y.relevance.norm2;
    let yc = y.relevance.dot * y.relevance.dot * x.relevance.norm2;
    if xc != yc {
        xc > yc
    } else if x.seq_id != y.seq_id {
        x.seq_id < y.seq_id
    } else if x.relevance.dot != y.relevance.dot {
        x.relevance.dot < y.relevance.dot
    } else if x.relevance.norm2 != y.relevance.norm2 {
        x.relevance.norm2 < y.relevance.norm2
    } else {
        lang_rank(x.language) < lang_rank(y.language)
    }
}

/// The order is total: two rows are ordered one way or the other, or equal.
pub proof fn lemma_row_order_total(x: ResultItem, y: ResultItem)
    ensures
        row_lt(x, y) || row_lt(y, x) || x == y,
{
}

/// The order is transitive.
pub proof fn lemma_row_lt_trans(x: ResultItem, y: ResultItem, z: ResultItem)
    requires
        rel_wf(x.relevance),
        rel_wf(y.relevance),
        rel_wf(z.relevance),
        row_lt(x, y),
        row_lt(y, z),
    ensures
        row_lt(x, z),
{
    let xy_strict = !rel_le(x.relevance, y.relevance);
    let yz_strict = !rel_le(y.relevance, z.relevance);
    if xy_strict {
        if rel_le(x.relevance, z.relevance) {
            crate::vector::lemma_rel_le_trans(x.relevance, z.relevance, y.relevance);
        }
    } else if yz_strict {
        if rel_le(x.relevance, z.relevance) {
            crate::vector::lemma_rel_le_trans(y.relevance, x.relevance, z.relevance);
        }
    } else {
        crate::vector::lemma_rel_le_trans(x.relevance, y.relevance, z.relevance);
        crate::vector::lemma_rel_le_trans(z.relevance, y.relevance, x.relevance);
    }
}

/// Compares two rows in the ranking order.
pub fn row_before(x: &ResultItem, y: &ResultItem) -> (r: bool)
    requires
        rel_wf(x.relevance),
        rel_wf(y.relevance),
    ensures
        r == row_lt(*x, *y),
{
    let xd: u128 = x.relevance.dot as u128;
    let yd: u128 = y.relevance.dot as u128;
    let xn: u128 = x.relevance.norm2 as u128;
    let yn: u128 = y.relevance.norm2 as u128;
    proof {
        assert(xd * xd < 0x10_0000_0000_0000_0000_0000u128 && xd * xd * yn
            < 0x4000_0000_0000_0000_0000_0000_0000_0000u128) by (nonlinear_arith)
            requires
                xd < 0x400_0000_0000,
                yn < 0x400_0000_0000,
        ;
        assert(yd * yd < 0x10_0000_0000_0000_0000_0000u128 && yd * yd * xn
            < 0x4000_0000_0000_0000_0000_0000_0000_0000u128) by (nonlinear_arith)
            requires
                yd < 0x400_0000_0000,
                xn < 0x400_0000_0000,
        ;
    }
    let xc: u128 = xd * xd * yn;
    let yc: u128 = yd * yd * xn;
    if xc != yc {
        xc > yc
    } else if x.seq_id != y.seq_id {
        x.seq_id < y.seq_id
    } else if x.relevance.dot != y.relevance.dot {
        x.relevance.dot < y.relevance.dot
    } else if x.relevance.norm2 != y.relevance.norm2 {
        x.relevance.norm2 < y.relevance.norm2
    } else {
        lang_rank_of(x.language) < lang_rank_of(y.language)
    }
}

/// Inserting an element leaves a sequence holding exactly the old elements
/// and the new one.
proof fn lemma_insert_contains<A>(s: Seq<A>, pos: int, x: A)
    requires
        0 <= pos <= s.len(),
    ensures
        forall|y: A| s.insert(pos, x).contains(y) <==> (s.contains(y) || y == x),
{
    s.insert_ensures(pos, x);
    let t = s.insert(pos, x);
    assert forall|y: A| t.contains(y) implies (s.contains(y) || y == x) by {
        let i = choose|i: int| 0 <= i < t.len() && t[i] == y;
        if i < pos {
            assert(s[i] == y);
        } else if i == pos {
        } else {
            assert(s[i - 1] == y);
        }
    }
    assert forall|y: A| s.contains(y) implies t.contains(y) by {
        let i = choose|i: int| 0 <= i < s.len() && s[i] == y;
        if i < pos {
            assert(t[i] == y);
        } else {
            assert(t[i + 1] == y);
        }
    }
    assert(t[pos] == x);
}

/// Finds where a row belongs in an already ranked list.
fn find_pos(out: &Vec<ResultItem>, x: &ResultItem) -> (pos: usize)
    requires
        rel_wf(x.relevance),
        forall|i: int| 0 <= i < out@.len() ==> rel_wf((#[trigger] out@[i]).relevance),
    ensures
        pos <= out@.len(),
        forall|i: int| 0 <= i < pos ==> row_lt(out@[i], *x),
        pos < out@.len() ==> !row_lt(out@[pos as int], *x),
{
    let n = out.len();
    let mut pos: usize = 0;
    while pos < n
        invariant
            pos <= n,
            n == out@.len(),
            rel_wf(x.relevance),
            forall|i: int| 0 <= i < out@.len() ==> rel_wf((#[trigger] out@[i]).relevance),
            forall|i: int| 0 <= i < pos ==> row_lt(out@[i], *x),
        decreases n - pos,
    {
        if !row_before(&out[pos], x) {
            return pos;
        }
        pos = pos + 1;
    }
    pos
}

/// Sorts rows into the ranking order, dropping duplicate rows: the result
/// holds exactly the distinct rows of the input, in strictly increasing
/// ranking order (descending relevance first).
pub fn sort_rows(rows: &Vec<ResultItem>) -> (out: Vec<ResultItem>)
    requires
        forall|i: int| 0 <= i < rows@.len() ==> rel_wf((#[trigger] rows@[i]).relevance),
    ensures
        forall|y: ResultItem| out@.contains(y) <==> rows@.contains(y),
        forall|i: int, j: int| 0 <= i < j < out@.len() ==> row_lt(out@[i], out@[j]),
        forall|i: int| 0 <= i < out@.len() ==> rel_wf((#[trigger] out@[i]).relevance),
{
    let mut out: Vec<ResultItem> = Vec::new();
    let n = rows.len();
    let mut k: usize = 0;
    while k < n
        invariant
            k <= n,
            n == rows@.len(),
            forall|i: int| 0 <= i < rows@.len() ==> rel_wf((#[trigger] rows@[i]).relevance),
            forall|y: ResultItem| out@.contains(y) <==> rows@.subrange(0, k as int).contains(y),
            forall|i: int, j: int| 0 <= i < j < out@.len() ==> row_lt(out@[i], out@[j]),
            forall|i: int| 0 <= i < out@.len() ==> rel_wf((#[trigger] out@[i]).relevance),
        decreases n - k,
    {
        let x = rows[k];
        let m = out.len();
        let pos = find_pos(&out, &x);
        let ghost pre = out@;
        let mut dup = false;
        if pos < m {
            if out[pos] == x {
                dup = true;
            }
        }
        if !dup {
            proof {
                if (pos as int) < pre.len() {
                    lemma_row_order_total(out@[pos as int], x);
                    assert(row_lt(x, pre[pos as int]));
                }
            }
            out.insert(pos, x);
            proof {
                lemma_insert_contains(pre, pos as int, x);
                assert forall|i: int, j: int| 0 <= i < j < out@.len() implies row_lt(
                    out@[i],
                    out@[j],
                ) by {
                    pre.insert_ensures(pos as int, x);
                    if j < pos {
                    } else if j == pos {
                        assert(out@[j] == x);
                        assert(out@[i] == pre[i]);
                    } else if i == pos {
                        assert(out@[i] == x);
                        assert(out@[j] == pre[j - 1]);
                        assert(row_lt(x, pre[pos as int]));
                        if (pos as int) < j - 1 {
                            assert(row_lt(pre[pos as int], pre[j - 1]));
                            lemma_row_lt_trans(x, pre[pos as int], pre[j - 1]);
                        }
                    } else if i < pos {
                        assert(out@[i] == pre[i]);
                        assert(out@[j] == pre[j - 1]);
                    } else {
                        assert(out@[i] == pre[i - 1]);
                        assert(out@[j] == pre[j - 1]);
                    }
                }
            }
        }
        proof {
            assert forall|y: ResultItem| out@.contains(y) <==> rows@.subrange(0, k + 1).contains(
                y,
            ) by {
                assert(rows@.subrange(0, k + 1) =~= rows@.subrange(0, k as int).push(
                    rows@[k as int],
                ));
                vstd::seq_lib::lemma_seq_contains_after_push(
                    rows@.subrange(0, k as int),
                    rows@[k as int],
                    y,
                );
                assert(rows@.subrange(0, k + 1).contains(y) == (rows@.subrange(
                    0,
                    k as int,
                ).contains(y) || y == x));
                assert(pre.contains(y) == rows@.subrange(0, k as int).contains(y));
                if dup {
                    assert(out@ == pre);
                    assert(out@[pos as int] == x);
                    assert(out@.contains(x));
                } else {
                    assert(out@ == pre.insert(pos as int, x));
                    assert(out@.contains(y) == (pre.contains(y) || y == x));
                }
            }
        }
        k = k + 1;
    }
    proof {
        assert(rows@.subrange(0, n as int) =~= rows@);
    }
    out
}

} // verus!
