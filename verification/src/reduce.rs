//! Ragged-length weighted reduction of a curve pair.
//!
//! Two curves may have different lengths `e1` and `e2`, both at most the
//! curve set's reference length `L`.  Their comparison scalar is the
//! weighted mean, over all `L` conceptual time steps, of an elementwise
//! reduction:
//!
//! 1. over the overlapping prefix `0..min(e1, e2)` the curves are reduced
//!    sample against sample, each with weight 1;
//! 2. over `min(e1, e2)..max(e1, e2)` the shorter curve's final sample
//!    stands in for its missing samples, each with weight 1;
//! 3. beyond both ends both curves are held at their final samples, so a
//!    single reduction of the two final samples carries the whole remaining
//!    weight `L - max(e1, e2)`; when `L == max(e1, e2)` this step is skipped
//!    entirely.
//!
//! The weights always sum exactly to `L`, so the result is a mean over all
//! `L` positions, never fewer.  This module produces the exact list of
//! (sample, sample, weight) terms; folding them with the selected
//! floating-point combinator is the caller's final step.

use vstd::prelude::*;

verus! {

/// One elementwise reduction to perform: combine sample `a` with sample `b`
/// (both IEEE 754 bit patterns) and give the outcome weight `weight` in the
/// weighted mean.
#[derive(Clone, Copy, Debug, PartialEq, Eq, Structural)]
pub struct ReductionTerm {
    pub a: u64,
    pub b: u64,
    pub weight: usize,
}

/// The full term list for comparing curves `s1` and `s2` against reference
/// length `target_len`: prefix terms, tail terms against the shorter curve's
/// final sample, and — only when some weight is left — one extrapolation
/// term of weight `target_len - max(e1, e2)`.
pub open spec fn reduction_plan(s1: Seq<u64>, s2: Seq<u64>, target_len: usize) -> Seq<
    ReductionTerm,
> {
    let e1 = s1.len() as int;
    let e2 = s2.len() as int;
    let c = if e1 <= e2 {
        e1
    } else {
        e2
    };
    let m = if e1 <= e2 {
        e2
    } else {
        e1
    };
    let n = if m < target_len {
        m + 1
    } else {
        m
    };
    Seq::new(
        n as nat,
        |t: int|
            if t < c {
                ReductionTerm { a: s1[t], b: s2[t], weight: 1 }
            } else if t < m {
                if e1 < e2 {
                    ReductionTerm { a: s1[e1 - 1], b: s2[t], weight: 1 }
                } else {
                    ReductionTerm { a: s2[e2 - 1], b: s1[t], weight: 1 }
                }
            } else {
                ReductionTerm { a: s1[e1 - 1], b: s2[e2 - 1], weight: (target_len - m) as usize }
            },
    )
}

/// Total weight of a term list.
pub open spec fn sum_weights(s: Seq<ReductionTerm>) -> int
    decreases s.len(),
{
    if s.len() == 0 {
        0
    } else {
        sum_weights(s.drop_last()) + s.last().weight
    }
}

proof fn lemma_sum_weights_all_one(s: Seq<ReductionTerm>)
    requires
        forall|t: int| 0 <= t < s.len() ==> (#[trigger] s[t]).weight == 1,
    ensures
        sum_weights(s) == s.len(),
    decreases s.len(),
{
    if s.len() > 0 {
        lemma_sum_weights_all_one(s.drop_last());
    }
}

/// Weight conservation: for any pair of curve lengths `e1, e2 <= L`, the
/// prefix, tail and extrapolation weights of the reduction plan sum exactly
/// to the reference length `L`.
pub proof fn lemma_weight_conservation(s1: Seq<u64>, s2: Seq<u64>, target_len: usize)
    requires
        1 <= s1.len() <= target_len,
        1 <= s2.len() <= target_len,
    ensures
        sum_weights(reduction_plan(s1, s2, target_len)) == target_len,
{
    let p = reduction_plan(s1, s2, target_len);
    let e1 = s1.len() as int;
    let e2 = s2.len() as int;
    let m = if e1 <= e2 {
        e2
    } else {
        e1
    };
    if m < target_len {
        assert(forall|t: int| 0 <= t < p.drop_last().len() ==> (#[trigger] p.drop_last()[t]).weight
            == 1);
        lemma_sum_weights_all_one(p.drop_last());
        assert(sum_weights(p) == sum_weights(p.drop_last()) + p.last().weight);
    } else {
        lemma_sum_weights_all_one(p);
    }
}

/// Degenerate equal-length case: when both curves already have the
/// reference length, the plan is exactly the elementwise pairing with unit
/// weights — the tail and extrapolation steps contribute nothing and the
/// weighted mean degenerates to the plain arithmetic mean over the curves.
pub proof fn lemma_degenerate_equal_length(s1: Seq<u64>, s2: Seq<u64>, target_len: usize)
    requires
        s1.len() == target_len,
        s2.len() == target_len,
        1 <= target_len,
    ensures
        reduction_plan(s1, s2, target_len) == Seq::new(
            target_len as nat,
            |t: int| ReductionTerm { a: s1[t], b: s2[t], weight: 1 },
        ),
{
    assert(reduction_plan(s1, s2, target_len) =~= Seq::new(
        target_len as nat,
        |t: int| ReductionTerm { a: s1[t], b: s2[t], weight: 1 },
    ));
}

/// The sample sequence `s` held at its own final value out to length `len`.
pub open spec fn held_flat(s: Seq<u64>, len: int) -> Seq<u64> {
    Seq::new(
        len as nat,
        |t: int|
            if t < s.len() {
                s[t]
            } else {
                s.last()
            },
    )
}

/// A term list expanded position by position: each term repeated as many
/// times as its weight.
pub open spec fn expanded(p: Seq<ReductionTerm>) -> Seq<(u64, u64)>
    decreases p.len(),
{
    if p.len() == 0 {
        Seq::empty()
    } else {
        expanded(p.drop_last()) + Seq::new(
            p.last().weight as nat,
            |t: int| (p.last().a, p.last().b),
        )
    }
}

proof fn lemma_expanded_all_one(p: Seq<ReductionTerm>)
    requires
        forall|t: int| 0 <= t < p.len() ==> (#[trigger] p[t]).weight == 1,
    ensures
        expanded(p).len() == p.len(),
        forall|t: int|
            0 <= t < p.len() ==> #[trigger] expanded(p)[t] == (p[t].a, p[t].b),
    decreases p.len(),
{
    if p.len() > 0 {
        lemma_expanded_all_one(p.drop_last());
    }
}

/// The final scalar is a mean over all `target_len` conceptual positions,
/// never fewer: the plan, expanded by weight, pairs the two curves held
/// flat at their final values out to the reference length, one entry per
/// position (in the tail the shorter curve's final sample comes first, so
/// the pair may appear reversed).
pub proof fn lemma_plan_covers_all_positions(
    s1: Seq<u64>,
    s2: Seq<u64>,
    target_len: usize,
    p: Seq<ReductionTerm>,
)
    requires
        1 <= s1.len() <= target_len,
        1 <= s2.len() <= target_len,
        p == reduction_plan(s1, s2, target_len),
    ensures
        expanded(p).len() == target_len,
        forall|t: int|
            0 <= t < target_len ==> #[trigger] expanded(p)[t] == (
                held_flat(s1, target_len as int)[t],
                held_flat(s2, target_len as int)[t],
            ) || expanded(p)[t] == (
                held_flat(s2, target_len as int)[t],
                held_flat(s1, target_len as int)[t],
            ),
{
    let e1 = s1.len() as int;
    let e2 = s2.len() as int;
    let m = if e1 <= e2 {
        e2
    } else {
        e1
    };
    let h1 = held_flat(s1, target_len as int);
    let h2 = held_flat(s2, target_len as int);
    if m < target_len {
        let q = p.drop_last();
        assert(forall|t: int| 0 <= t < q.len() ==> (#[trigger] q[t]).weight == 1);
        lemma_expanded_all_one(q);
        assert(expanded(p) == expanded(q) + Seq::new(
            p.last().weight as nat,
            |t: int| (p.last().a, p.last().b),
        ));
        assert forall|t: int| 0 <= t < target_len implies #[trigger] expanded(p)[t] == (
            h1[t],
            h2[t],
        ) || expanded(p)[t] == (h2[t], h1[t]) by {
            if t < m {
                assert(expanded(p)[t] == expanded(q)[t]);
                assert(expanded(q)[t] == (q[t].a, q[t].b));
            } else {
                assert(expanded(p)[t] == (p.last().a, p.last().b));
            }
        }
    } else {
        assert(forall|t: int| 0 <= t < p.len() ==> (#[trigger] p[t]).weight == 1);
        lemma_expanded_all_one(p);
        assert forall|t: int| 0 <= t < target_len implies #[trigger] expanded(p)[t] == (
            h1[t],
            h2[t],
        ) || expanded(p)[t] == (h2[t], h1[t]) by {
            assert(expanded(p)[t] == (p[t].a, p[t].b));
        }
    }
}

/// The three weights of the ragged-length reduction — prefix, tail and
/// extrapolation — for curve lengths `e1` and `e2` under reference length
/// `target_len`.  They always sum exactly to `target_len`.
pub fn reduction_weights(e1: usize, e2: usize, target_len: usize) -> (w: (usize, usize, usize))
    requires
        1 <= e1 <= target_len,
        1 <= e2 <= target_len,
    ensures
        w.0 == if e1 <= e2 {
            e1 as int
        } else {
            e2 as int
        },
        w.1 == if e1 <= e2 {
            e2 - e1
        } else {
            e1 - e2
        },
        w.2 == target_len - (if e1 <= e2 {
            e2 as int
        } else {
            e1 as int
        }),
        w.0 + w.1 + w.2 == target_len,
{
    if e1 <= e2 {
        (e1, e2 - e1, target_len - e2)
    } else {
        (e2, e1 - e2, target_len - e1)
    }
}

/// Builds the term list for comparing `curve1` and `curve2` against the
/// reference length `target_len`: exactly the reduction plan of the module
/// documentation, whose weights sum to `target_len`.
pub fn reduction_terms(curve1: &Vec<u64>, curve2: &Vec<u64>, target_len: usize) -> (r: Vec<
    ReductionTerm,
>)
    requires
        1 <= curve1@.len() <= target_len,
        1 <= curve2@.len() <= target_len,
    ensures
        r@ == reduction_plan(curve1@, curve2@, target_len),
        sum_weights(r@) == target_len,
{
    let ghost p = reduction_plan(curve1@, curve2@, target_len);
    let e1 = curve1.len();
    let e2 = curve2.len();
    let c = if e1 <= e2 {
        e1
    } else {
        e2
    };
    let m = if e1 <= e2 {
        e2
    } else {
        e1
    };
    let mut r: Vec<ReductionTerm> = Vec::new();
    for t in 0..c
        invariant
            e1 == curve1@.len(),
            e2 == curve2@.len(),
            c == if e1 <= e2 { e1 as int } else { e2 as int },
            r@.len() == t,
            forall|idx: int| 0 <= idx < t ==> r@[idx] == p[idx],
            p == reduction_plan(curve1@, curve2@, target_len),
    {
        r.push(ReductionTerm { a: curve1[t], b: curve2[t], weight: 1 });
    }
    if e1 < e2 {
        let a = curve1[e1 - 1];
        for t in e1..e2
            invariant
                e1 == curve1@.len(),
                e2 == curve2@.len(),
                e1 < e2,
                a == curve1@[e1 - 1],
                r@.len() == t,
                forall|idx: int| 0 <= idx < t ==> r@[idx] == p[idx],
                p == reduction_plan(curve1@, curve2@, target_len),
        {
            r.push(ReductionTerm { a, b: curve2[t], weight: 1 });
        }
    } else if e2 < e1 {
        let a = curve2[e2 - 1];
        for t in e2..e1
            invariant
                e1 == curve1@.len(),
                e2 == curve2@.len(),
                e2 < e1,
                a == curve2@[e2 - 1],
                r@.len() == t,
                forall|idx: int| 0 <= idx < t ==> r@[idx] == p[idx],
                p == reduction_plan(curve1@, curve2@, target_len),
        {
            r.push(ReductionTerm { a, b: curve1[t], weight: 1 });
        }
    }
    if m < target_len {
        r.push(ReductionTerm { a: curve1[e1 - 1], b: curve2[e2 - 1], weight: target_len - m });
    }
    proof {
        assert(r@ =~= p);
        lemma_weight_conservation(curve1@, curve2@, target_len);
    }
    r
}

} // verus!
