//! The similarity engine: cosine scoring and exact (brute-force) ranking over
//! fixed-point embedding vectors.
//!
//! A vector is a `Vec<i64>` of fixed-point components; the scale is the
//! caller's choice, since cosine similarity is invariant under scaling either
//! argument. A score is a fixed-point `i128` where [`SCORE_ONE`] stands for a
//! cosine of one. The score of two vectors is
//! `dot(a, b) * SCORE_ONE / isqrt(norm2(a) * norm2(b))`, rounded toward zero,
//! and zero when either vector has zero norm, so a zero vector never produces
//! a NaN-like artefact: it simply scores zero against everything.

use vstd::prelude::*;
use vstd::arithmetic::div_mod::lemma_div_multiples_vanish;

verus! {

/// The fixed-point score that stands for a cosine of exactly one.
pub const SCORE_ONE: i128 = 1_000_000;

/// The largest magnitude an embedding component may have.
///
/// Together with [`MAX_DIMENSION`] this keeps every intermediate product of
/// the scoring arithmetic inside `i128`/`u128`.
pub const COMPONENT_LIMIT: i64 = 1_000_000;

/// The largest vector length the scoring arithmetic accepts.
pub const MAX_DIMENSION: usize = 65_536;

/// The largest magnitude a dot product of two admissible vectors can reach:
/// `MAX_DIMENSION * COMPONENT_LIMIT * COMPONENT_LIMIT`.
pub const DOT_BOUND: i128 = 65_536 * 1_000_000 * 1_000_000;

/// Every component of `s` has magnitude at most [`COMPONENT_LIMIT`].
pub open spec fn bounded(s: Seq<i64>) -> bool {
    forall|i: int| 0 <= i < s.len() ==> -(COMPONENT_LIMIT as int) <= #[trigger] s[i]
        <= COMPONENT_LIMIT as int
}

/// The dot product of two equal-length vectors (of the common prefix, where
/// lengths differ).
pub open spec fn spec_dot(a: Seq<i64>, b: Seq<i64>) -> int
    decreases a.len(),
{
    if a.len() == 0 || b.len() == 0 {
        0
    } else {
        spec_dot(a.drop_last(), b.drop_last()) + a.last() * b.last()
    }
}

/// The squared Euclidean norm of a vector.
pub open spec fn spec_norm2(a: Seq<i64>) -> int {
    spec_dot(a, a)
}

/// `|x * y| <= bx * by` when `|x| <= bx` and `|y| <= by`.
proof fn lemma_mul_magnitude(x: int, y: int, bx: int, by: int)
    by (nonlinear_arith)
    requires
        -bx <= x <= bx,
        -by <= y <= by,
        0 <= bx,
        0 <= by,
    ensures
        -(bx * by) <= x * y <= bx * by,
{
}

/// A vector dotted with itself is non-negative.
pub proof fn lemma_norm2_nonneg(a: Seq<i64>)
    ensures
        spec_norm2(a) >= 0,
    decreases a.len(),
{
    if a.len() == 0 {
    } else {
        assert(spec_norm2(a.drop_last()) >= 0) by {
            lemma_norm2_nonneg(a.drop_last());
        }
        assert(a.last() * a.last() >= 0) by (nonlinear_arith);
    }
}

/// The dot product against an all-zero vector is zero.
pub proof fn lemma_dot_zero(a: Seq<i64>, z: Seq<i64>)
    requires
        forall|i: int| 0 <= i < z.len() ==> #[trigger] z[i] == 0,
    ensures
        spec_dot(a, z) == 0,
        spec_dot(z, a) == 0,
    decreases a.len() + z.len(),
{
    if a.len() == 0 || z.len() == 0 {
    } else {
        assert(forall|i: int| 0 <= i < z.len() - 1 ==> #[trigger] z.drop_last()[i] == 0);
        lemma_dot_zero(a.drop_last(), z.drop_last());
        let x = a.last() as int;
        let y = z.last() as int;
        assert(y == 0);
        assert(x * y == 0 && y * x == 0) by (nonlinear_arith)
            requires
                y == 0,
        ;
    }
}

/// The integer square root: the greatest `r` with `r * r <= n`.
pub open spec fn spec_isqrt(n: nat) -> nat
    decreases n,
{
    if n == 0 {
        0
    } else {
        let r = spec_isqrt((n - 1) as nat);
        if (r + 1) * (r + 1) <= n {
            r + 1
        } else {
            r
        }
    }
}

/// `spec_isqrt(n)` really is the floor of the square root of `n`.
pub proof fn lemma_isqrt_bounds(n: nat)
    ensures
        spec_isqrt(n) * spec_isqrt(n) <= n,
        n < (spec_isqrt(n) as int + 1) * (spec_isqrt(n) as int + 1),
    decreases n,
{
    if n == 0 {
        assert(spec_isqrt(0) == 0);
    } else {
        lemma_isqrt_bounds((n - 1) as nat);
        let r = spec_isqrt((n - 1) as nat);
        assert(r * r <= n - 1 < (r + 1) * (r + 1));
        if (r + 1) * (r + 1) <= n {
            assert(spec_isqrt(n) == r + 1);
            assert(n < ((r + 1) + 1) * ((r + 1) + 1)) by (nonlinear_arith)
                requires
                    n - 1 < (r + 1) * (r + 1),
            ;
            assert(spec_isqrt(n) * spec_isqrt(n) <= n);
            assert(n < (spec_isqrt(n) + 1) * (spec_isqrt(n) + 1));
        } else {
            assert(spec_isqrt(n) == r);
            assert(r * r <= n - 1 <= n);
            assert(spec_isqrt(n) * spec_isqrt(n) <= n);
            assert(n < (spec_isqrt(n) + 1) * (spec_isqrt(n) + 1));
        }
    }
}

/// Any `r` within the floor-square-root bounds of `n` is `spec_isqrt(n)`.
pub proof fn lemma_isqrt_unique(n: nat, r: nat)
    requires
        r * r <= n,
        n < (r + 1) * (r + 1),
    ensures
        r == spec_isqrt(n),
{
    let s = spec_isqrt(n);
    lemma_isqrt_bounds(n);
    if r < s {
        assert((r + 1) * (r + 1) <= s * s) by (nonlinear_arith)
            requires
                r + 1 <= s,
        ;
    }
    if s < r {
        assert((s + 1) * (s + 1) <= r * r) by (nonlinear_arith)
            requires
                s + 1 <= r,
        ;
    }
}

/// The integer square root of `n`, by binary search.
pub fn isqrt(n: u128) -> (r: u128)
    requires
        n < 0x1_0000_0000_0000_0000_0000_0000_0000u128,
    ensures
        r == spec_isqrt(n as nat),
        r * r <= n,
{
    let mut lo: u128 = 0;
    let mut hi: u128 = 0x100_0000_0000_0000;
    assert(hi * hi > n) by (nonlinear_arith)
        requires
            hi == 0x100_0000_0000_0000u128,
            n < 0x1_0000_0000_0000_0000_0000_0000_0000u128,
    ;
    while lo + 1 < hi
        invariant
            lo < hi <= 0x100_0000_0000_0000u128,
            lo * lo <= n,
            n < hi * hi,
        decreases hi - lo,
    {
        let mid = lo + (hi - lo) / 2;
        assert(lo < mid < hi);
        assert(mid * mid < 0x1_0000_0000_0000_0000_0000_0000_0000) by (nonlinear_arith)
            requires
                mid < 0x100_0000_0000_0000u128,
        ;
        if mid * mid <= n {
            lo = mid;
        } else {
            hi = mid;
        }
    }
    proof {
        lemma_isqrt_unique(n as nat, lo as nat);
    }
    lo
}

/// The cosine similarity score of `a` and `b`: the fixed-point quotient of the
/// dot product by the product of the norms, rounded toward zero, and zero when
/// either vector has zero norm.
pub open spec fn spec_cosine(a: Seq<i64>, b: Seq<i64>) -> int {
    let d = spec_dot(a, b);
    let na = spec_norm2(a);
    let nb = spec_norm2(b);
    if na == 0 || nb == 0 {
        0
    } else {
        let q = spec_isqrt((na * nb) as nat);
        let m = (vstd::math::abs(d) * SCORE_ONE) / (q as int);
        if d < 0 {
            -m
        } else {
            m
        }
    }
}

/// The dot product of two bounded vectors, exactly.
pub fn dot(a: &Vec<i64>, b: &Vec<i64>) -> (d: i128)
    requires
        a@.len() == b@.len(),
        a@.len() <= MAX_DIMENSION as int,
        bounded(a@),
        bounded(b@),
    ensures
        d == spec_dot(a@, b@),
        -DOT_BOUND <= d <= DOT_BOUND,
{
    let ghost l = COMPONENT_LIMIT as int;
    let n = a.len();
    let mut acc: i128 = 0;
    let mut i: usize = 0;
    while i < n
        invariant
            0 <= i <= n,
            n == a@.len() == b@.len(),
            n <= MAX_DIMENSION as int,
            bounded(a@),
            bounded(b@),
            acc == spec_dot(a@.take(i as int), b@.take(i as int)),
            -(i * l * l) <= acc <= i * l * l,
            l == COMPONENT_LIMIT as int,
        decreases n - i,
    {
        proof {
            lemma_mul_magnitude(a@[i as int] as int, b@[i as int] as int, l, l);
            assert((i + 1) * l * l == i * l * l + l * l) by (nonlinear_arith);
            assert((i + 1) * l * l <= DOT_BOUND) by (nonlinear_arith)
                requires
                    0 <= i < MAX_DIMENSION as int,
                    l == COMPONENT_LIMIT as int,
            ;
        }
        let term: i128 = (a[i] as i128) * (b[i] as i128);
        proof {
            assert(a@.take(i + 1).drop_last() =~= a@.take(i as int));
            assert(b@.take(i + 1).drop_last() =~= b@.take(i as int));
            assert(a@.take(i + 1).last() == a@[i as int]);
            assert(b@.take(i + 1).last() == b@[i as int]);
        }
        acc = acc + term;
        i = i + 1;
    }
    proof {
        assert(a@.take(n as int) =~= a@);
        assert(b@.take(n as int) =~= b@);
        assert(n * l * l <= DOT_BOUND) by (nonlinear_arith)
            requires
                0 <= n <= MAX_DIMENSION as int,
                l == COMPONENT_LIMIT as int,
        ;
    }
    acc
}

/// The cosine similarity score of two bounded, equal-length vectors.
pub fn cosine_score(a: &Vec<i64>, b: &Vec<i64>) -> (r: i128)
    requires
        a@.len() == b@.len(),
        a@.len() <= MAX_DIMENSION as int,
        bounded(a@),
        bounded(b@),
    ensures
        r == spec_cosine(a@, b@),
{
    let d = dot(a, b);
    let na = dot(a, a);
    let nb = dot(b, b);
    proof {
        lemma_norm2_nonneg(a@);
        lemma_norm2_nonneg(b@);
    }
    if na == 0 || nb == 0 {
        return 0;
    }
    let nau: u128 = na as u128;
    let nbu: u128 = nb as u128;
    proof {
        assert(nau == na as int && nbu == nb as int);
        assert(1 <= nau * nbu < 0x1_0000_0000_0000_0000_0000_0000_0000) by (nonlinear_arith)
            requires
                1 <= nau <= DOT_BOUND as u128,
                1 <= nbu <= DOT_BOUND as u128,
        ;
    }
    let prod: u128 = nau * nbu;
    let q = isqrt(prod);
    proof {
        lemma_isqrt_bounds(prod as nat);
        let qi = q as int;
        let pi = prod as int;
        assert(pi < (qi + 1) * (qi + 1));
        assert(qi >= 1) by (nonlinear_arith)
            requires
                qi >= 0,
                pi >= 1,
                pi < (qi + 1) * (qi + 1),
        ;
        assert(q >= 1);
    }
    let mag: u128 = if d < 0 {
        (-d) as u128
    } else {
        d as u128
    };
    assert(mag == vstd::math::abs(d as int));
    assert(mag <= 65_536_000_000_000_000u128);
    proof {
        assert(mag * (SCORE_ONE as u128) <= 65_536_000_000_000_000_000_000u128)
            by (nonlinear_arith)
            requires
                mag <= 65_536_000_000_000_000u128,
        ;
    }
    let scaled: u128 = mag * (SCORE_ONE as u128);
    let quotient: u128 = scaled / q;
    proof {
        vstd::arithmetic::div_mod::lemma_div_nonincreasing(scaled as int, q as int);
        assert(quotient <= scaled);
    }
    let r: i128 = if d < 0 {
        -(quotient as i128)
    } else {
        quotient as i128
    };
    r
}

/// Cosine of a vector with itself is exactly one (scaled to [`SCORE_ONE`])
/// whenever the vector has non-zero norm, and zero when it has zero norm.
pub proof fn lemma_cosine_self(a: Seq<i64>)
    ensures
        spec_norm2(a) != 0 ==> spec_cosine(a, a) == SCORE_ONE as int,
        spec_norm2(a) == 0 ==> spec_cosine(a, a) == 0,
{
    lemma_norm2_nonneg(a);
    let na = spec_norm2(a);
    if na != 0 {
        assert(na * na >= 0) by (nonlinear_arith)
            requires
                na > 0,
        ;
        assert(na < na + 1);
        assert((na + 1) * (na + 1) > na * na) by (nonlinear_arith)
            requires
                na > 0,
        ;
        lemma_isqrt_unique((na * na) as nat, na as nat);
        assert(spec_isqrt((na * na) as nat) == na);
        assert(vstd::math::abs(na) == na);
        lemma_div_multiples_vanish(SCORE_ONE as int, na);
        assert(na * SCORE_ONE == SCORE_ONE * na) by (nonlinear_arith);
        assert((na * SCORE_ONE) / na == SCORE_ONE as int);
    }
}

/// Cosine against an all-zero vector is exactly zero, on either side.
pub proof fn lemma_cosine_zero(a: Seq<i64>, z: Seq<i64>)
    requires
        forall|i: int| 0 <= i < z.len() ==> #[trigger] z[i] == 0,
    ensures
        spec_cosine(a, z) == 0,
        spec_cosine(z, a) == 0,
{
    lemma_dot_zero(z, z);
}

/// `x` ranks at or before `y`: a strictly greater score, or an equal score and
/// an index no later in insertion order. A total order on scored pairs, so a
/// ranking is stable and fully determined.
pub open spec fn rank_le(x: (i128, usize), y: (i128, usize)) -> bool {
    x.0 > y.0 || (x.0 == y.0 && x.1 <= y.1)
}

/// [`rank_le`] as a reusable ordering function.
pub open spec fn rank_leq() -> spec_fn((i128, usize), (i128, usize)) -> bool {
    |x: (i128, usize), y: (i128, usize)| rank_le(x, y)
}

/// [`rank_le`] is a total ordering on scored pairs.
pub proof fn lemma_rank_leq_total()
    ensures
        vstd::relations::total_ordering(rank_leq()),
{
}

/// [`rank_le`], decided executably.
pub fn rank_le_exec(x: (i128, usize), y: (i128, usize)) -> (b: bool)
    ensures
        b == rank_le(x, y),
{
    x.0 > y.0 || (x.0 == y.0 && x.1 <= y.1)
}

/// The scored pairs of a candidate list against a query: one `(score, index)`
/// pair per candidate, in insertion order.
pub open spec fn spec_scores(cands: Seq<Seq<i64>>, query: Seq<i64>) -> Seq<(i128, usize)> {
    Seq::new(cands.len(), |i: int| (spec_cosine(cands[i], query) as i128, i as usize))
}

/// The ranking of a candidate list against a query: all scored pairs, ordered
/// by descending score with ties in insertion order, cut to the best `k`.
pub open spec fn spec_rank(cands: Seq<Seq<i64>>, query: Seq<i64>, k: int) -> Seq<(i128, usize)> {
    let sorted = spec_scores(cands, query).sort_by(rank_leq());
    sorted.take(vstd::math::min(k, sorted.len() as int))
}

/// Every vector of `cands` has length `dim` and bounded components.
pub open spec fn admissible_candidates(cands: Seq<Seq<i64>>, dim: int) -> bool {
    forall|i: int| 0 <= i < cands.len() ==> (#[trigger] cands[i]).len() == dim && bounded(
        cands[i],
    )
}

/// Rank `candidates` against `query` by descending cosine score, ties broken
/// by insertion order, and return the best `k` as `(score, index)` pairs.
///
/// The result is exactly [`spec_rank`] of the inputs — a pure function of
/// them — so repeated calls on unchanged input return the identical ordering,
/// and its length is `min(k, candidates.len())`.
pub fn rank(query: &Vec<i64>, candidates: &Vec<Vec<i64>>, k: usize) -> (r: Vec<(i128, usize)>)
    requires
        query@.len() <= MAX_DIMENSION as int,
        bounded(query@),
        admissible_candidates(candidates.deep_view(), query@.len() as int),
    ensures
        r@ == spec_rank(candidates.deep_view(), query@, k as int),
        r@.len() == vstd::math::min(k as int, candidates@.len() as int),
{
    broadcast use vstd::seq_lib::group_to_multiset_ensures;

    let ghost cdv = candidates.deep_view();
    let n = candidates.len();
    let mut pairs: Vec<(i128, usize)> = Vec::new();
    let mut i: usize = 0;
    while i < n
        invariant
            0 <= i <= n,
            n == candidates@.len(),
            cdv == candidates.deep_view(),
            query@.len() <= MAX_DIMENSION as int,
            bounded(query@),
            admissible_candidates(cdv, query@.len() as int),
            pairs@.len() == i as int,
            forall|j: int| 0 <= j < i as int ==> #[trigger] pairs@[j] == (spec_cosine(
                cdv[j],
                query@,
            ) as i128, j as usize),
        decreases n - i,
    {
        assert(cdv[i as int] == candidates@[i as int]@);
        let s = cosine_score(&candidates[i], query);
        proof {
            assert(s == (spec_cosine(cdv[i as int], query@) as i128));
        }
        pairs.push((s, i));
        i = i + 1;
    }
    assert(pairs@ =~= spec_scores(cdv, query@));

    let mut ordered: Vec<(i128, usize)> = Vec::new();
    let mut j: usize = 0;
    while j < n
        invariant
            0 <= j <= n,
            pairs@.len() == n as int,
            ordered@.len() == j as int,
            vstd::relations::sorted_by(ordered@, rank_leq()),
            ordered@.to_multiset() == pairs@.take(j as int).to_multiset(),
        decreases n - j,
    {
        let x = pairs[j];
        let mut p: usize = 0;
        while p < ordered.len() && rank_le_exec(ordered[p], x)
            invariant
                0 <= p <= ordered@.len(),
                forall|q: int| 0 <= q < p as int ==> rank_le(#[trigger] ordered@[q], x),
            decreases ordered@.len() - p,
        {
            p = p + 1;
        }
        let ghost before = ordered@;
        proof {
            if (p as int) < before.len() {
                assert(!rank_le(before[p as int], x));
                assert(rank_le(x, before[p as int]));
            }
        }
        ordered.insert(p, x);
        proof {
            let leq = rank_leq();
            assert forall|u: int, v: int|
                0 <= u < v < ordered@.len() implies #[trigger] leq(
                ordered@[u],
                ordered@[v],
            ) by {
                if v < p as int {
                    assert(ordered@[u] == before[u] && ordered@[v] == before[v]);
                    assert(leq(before[u], before[v]));
                } else if u > p as int {
                    assert(ordered@[u] == before[u - 1] && ordered@[v] == before[v - 1]);
                    assert(leq(before[u - 1], before[v - 1]));
                } else if v == p as int {
                    assert(ordered@[u] == before[u] && ordered@[v] == x);
                    assert(rank_le(before[u], x));
                } else if u == p as int {
                    assert(ordered@[u] == x && ordered@[v] == before[v - 1]);
                    assert(rank_le(x, before[p as int]));
                    if (p as int) < v - 1 {
                        assert(leq(before[p as int], before[v - 1]));
                    }
                    assert(rank_le(x, before[v - 1]));
                } else {
                    assert(u < p as int && v > p as int);
                    assert(ordered@[u] == before[u] && ordered@[v] == before[v - 1]);
                    assert(rank_le(before[u], x));
                    assert(rank_le(x, before[p as int]));
                    if (p as int) < v - 1 {
                        assert(leq(before[p as int], before[v - 1]));
                    }
                    assert(rank_le(before[u], before[v - 1]));
                }
            }
            assert(vstd::relations::sorted_by(ordered@, rank_leq()));
            assert(ordered@.to_multiset() == before.to_multiset().insert(x)) by {
                vstd::seq_lib::to_multiset_insert(before, p as int, x);
            }
            assert(pairs@.take(j + 1).drop_last() =~= pairs@.take(j as int));
            assert(pairs@.take(j + 1) =~= pairs@.take(j as int).push(x));
            assert(pairs@.take(j as int).push(x).to_multiset() == pairs@.take(
                j as int,
            ).to_multiset().insert(x)) by {
                vstd::seq_lib::to_multiset_build(pairs@.take(j as int), x);
            }
        }
        j = j + 1;
    }
    proof {
        assert(pairs@.take(n as int) =~= pairs@);
        lemma_rank_leq_total();
        spec_scores(cdv, query@).lemma_sort_by_ensures(rank_leq());
        vstd::seq_lib::lemma_sorted_unique(
            ordered@,
            spec_scores(cdv, query@).sort_by(rank_leq()),
            rank_leq(),
        );
        assert(ordered@ == spec_scores(cdv, query@).sort_by(rank_leq()));
    }
    let m = if k < ordered.len() {
        k
    } else {
        ordered.len()
    };
    ordered.truncate(m);
    proof {
        assert(ordered@ =~= spec_rank(cdv, query@, k as int));
    }
    ordered
}

/// Ranking is deterministic: two results of [`spec_rank`] on the same query,
/// candidates and count are the same sequence, so repeated calls of [`rank`]
/// on unchanged input produce identical output.
pub proof fn lemma_rank_deterministic(
    cands: Seq<Seq<i64>>,
    query: Seq<i64>,
    k: int,
    r1: Seq<(i128, usize)>,
    r2: Seq<(i128, usize)>,
)
    requires
        r1 == spec_rank(cands, query, k),
        r2 == spec_rank(cands, query, k),
    ensures
        r1 == r2,
{
}

/// A ranking is ordered and scores what it names: entries descend by score
/// with ties in insertion order, and every entry carries the cosine score of
/// the candidate at its index.
pub proof fn lemma_rank_ordering(cands: Seq<Seq<i64>>, query: Seq<i64>, k: int)
    requires
        0 <= k,
        cands.len() <= usize::MAX,
    ensures
        forall|i1: int, i2: int|
            0 <= i1 < i2 < spec_rank(cands, query, k).len() ==> rank_le(
                #[trigger] spec_rank(cands, query, k)[i1],
                #[trigger] spec_rank(cands, query, k)[i2],
            ),
        forall|i: int|
            0 <= i < spec_rank(cands, query, k).len() ==> {
                let entry = #[trigger] spec_rank(cands, query, k)[i];
                &&& 0 <= entry.1 < cands.len()
                &&& entry.0 == spec_cosine(cands[entry.1 as int], query) as i128
            },
{
    broadcast use vstd::seq_lib::group_to_multiset_ensures;

    lemma_rank_leq_total();
    let s = spec_scores(cands, query);
    let t = s.sort_by(rank_leq());
    s.lemma_sort_by_ensures(rank_leq());
    assert(t.to_multiset().len() == t.len());
    assert(s.to_multiset().len() == s.len());
    let r = spec_rank(cands, query, k);
    assert forall|i1: int, i2: int| 0 <= i1 < i2 < r.len() implies rank_le(
        #[trigger] r[i1],
        #[trigger] r[i2],
    ) by {
        assert(r[i1] == t[i1] && r[i2] == t[i2]);
        assert(rank_leq()(t[i1], t[i2]));
    }
    assert forall|i: int| 0 <= i < r.len() implies {
        let entry = #[trigger] r[i];
        &&& 0 <= entry.1 < cands.len()
        &&& entry.0 == spec_cosine(cands[entry.1 as int], query) as i128
    } by {
        assert(r[i] == t[i]);
        assert(t.contains(t[i]));
        assert(t.to_multiset().contains(t[i]));
        assert(s.to_multiset().contains(t[i]));
        assert(s.contains(t[i]));
        let j = choose|j: int| 0 <= j < s.len() && s[j] == t[i];
        assert(s[j] == (spec_cosine(cands[j], query) as i128, j as usize));
    }
}

/// A ranking respects its count: it holds exactly `min(k, cands.len())`
/// entries.
pub proof fn lemma_rank_len(cands: Seq<Seq<i64>>, query: Seq<i64>, k: int)
    requires
        0 <= k,
    ensures
        spec_rank(cands, query, k).len() == vstd::math::min(k, cands.len() as int),
{
    broadcast use vstd::seq_lib::group_to_multiset_ensures;

    lemma_rank_leq_total();
    let s = spec_scores(cands, query);
    let t = s.sort_by(rank_leq());
    s.lemma_sort_by_ensures(rank_leq());
    assert(t.to_multiset().len() == t.len());
    assert(s.to_multiset().len() == s.len());
    assert(t.len() == cands.len());
}

} // verus!
