//! The embedding batch pipeline's pure logic: partitioning texts into
//! bounded-size batches, and reassembling per-batch results in input order.
//!
//! The pipeline submits each batch to the embedding provider as one logical
//! operation (one text per provider call within it), so the number of batches
//! is the number of provider-call groups. The provider calls themselves are
//! the application's concern; everything here is a pure function of its
//! arguments.

use vstd::prelude::*;

verus! {

/// The default upper bound on texts per provider batch.
pub const DEFAULT_MAX_BATCH_SIZE: usize = 100;

/// The dimension the embedding provider declares for its vectors, checked
/// against every response.
pub const EMBEDDING_DIMENSION: usize = 3072;

/// The declared dimension of provider embeddings.
pub fn get_embedding_dimension() -> (d: usize)
    ensures
        d == EMBEDDING_DIMENSION,
{
    EMBEDDING_DIMENSION
}

/// How many batches a list of `n` texts needs at batch size `b`: the ceiling
/// of `n / b`.
pub open spec fn spec_ceil_div(n: int, b: int) -> int {
    (n + b - 1) / b
}

/// A count `k` of batches with `(k - 1) * b < n <= k * b` is the ceiling of
/// `n / b`.
proof fn lemma_ceil_div_unique(n: int, b: int, k: int)
    requires
        b > 0,
        n >= 0,
        k >= 0,
        n <= k * b,
        (k - 1) * b < n,
    ensures
        k == spec_ceil_div(n, b),
{
    let q = spec_ceil_div(n, b);
    vstd::arithmetic::div_mod::lemma_fundamental_div_mod(n + b - 1, b);
    let r = (n + b - 1) % b;
    vstd::arithmetic::div_mod::lemma_mod_bound(n + b - 1, b);
    assert(n + b - 1 == b * q + r);
    assert(0 <= r < b);
    assert(k == q) by (nonlinear_arith)
        requires
            b > 0,
            n <= k * b,
            (k - 1) * b < n,
            n + b - 1 == b * q + r,
            0 <= r < b,
    ;
}

/// Split `texts` into contiguous batches of at most `max_batch` texts each,
/// in order.
///
/// The batches concatenate back to exactly the input — boundaries never
/// reorder texts — there are exactly `ceil(texts.len() / max_batch)` of
/// them (so an empty input yields no batches and no provider calls), and
/// every batch is non-empty and no larger than `max_batch`.
pub fn chunk_texts(texts: Vec<String>, max_batch: usize) -> (chunks: Vec<Vec<String>>)
    requires
        max_batch > 0,
    ensures
        chunks.deep_view().flatten() == texts.deep_view(),
        chunks@.len() == spec_ceil_div(texts@.len() as int, max_batch as int),
        texts@.len() == 0 ==> chunks@.len() == 0,
        forall|i: int| 0 <= i < chunks@.len() ==> 0 < (#[trigger] chunks@[i])@.len()
            <= max_batch as int,
{
    broadcast use vstd::prelude::Seq::lemma_flatten_push;

    let ghost tv = texts.deep_view();
    let n = texts.len();
    let mut remaining = texts;
    let mut chunks: Vec<Vec<String>> = Vec::new();
    let mut consumed: usize = 0;
    while consumed < n
        invariant
            max_batch > 0,
            0 <= consumed <= n,
            n == tv.len(),
            remaining@.len() == n - consumed,
            forall|j: int| 0 <= j < remaining@.len() ==> #[trigger] remaining@[j]@ == tv[j
                + consumed as int],
            chunks.deep_view().flatten() == tv.take(consumed as int),
            consumed < n ==> consumed == chunks@.len() * max_batch as int,
            consumed == n ==> consumed <= chunks@.len() * max_batch as int,
            chunks@.len() == 0 ==> consumed == 0,
            chunks@.len() > 0 ==> ((chunks@.len() - 1) * max_batch as int) < consumed as int,
            forall|i: int| 0 <= i < chunks@.len() ==> 0 < (#[trigger] chunks@[i])@.len()
                <= max_batch as int,
        decreases n - consumed,
    {
        let take_now = if n - consumed < max_batch {
            n - consumed
        } else {
            max_batch
        };
        let mut batch: Vec<String> = Vec::new();
        let mut t: usize = 0;
        while t < take_now
            invariant
                0 <= t <= take_now,
                take_now <= remaining@.len() + t,
                n == tv.len(),
                remaining@.len() == n - consumed - t,
                consumed + take_now <= n,
                forall|j: int| 0 <= j < remaining@.len() ==> #[trigger] remaining@[j]@ == tv[j
                    + consumed as int + t as int],
                batch.deep_view() == tv.subrange(consumed as int, consumed as int + t as int),
            decreases take_now - t,
        {
            let s = remaining.remove(0);
            let ghost before = batch.deep_view();
            batch.push(s);
            proof {
                assert(batch.deep_view() =~= before.push(s@));
                assert(batch.deep_view() =~= tv.subrange(
                    consumed as int,
                    consumed as int + t as int + 1,
                ));
            }
            t = t + 1;
        }
        let ghost bv = batch.deep_view();
        let ghost cv = chunks.deep_view();
        let ghost oldchunks = chunks@;
        chunks.push(batch);
        proof {
            assert(chunks.deep_view() =~= cv.push(bv));
            cv.lemma_flatten_push(bv);
            assert(chunks.deep_view().flatten() == cv.flatten() + bv);
            assert(cv.flatten() + bv =~= tv.take(consumed as int + take_now as int));
            assert((cv.len() + 1) * max_batch as int == cv.len() * max_batch as int
                + max_batch as int) by (nonlinear_arith);
            assert(chunks@.len() == cv.len() + 1);
            assert(chunks@.last()@.len() == take_now as int);
            assert(forall|i: int| 0 <= i < oldchunks.len() ==> chunks@[i] == oldchunks[i]);
        }
        consumed = consumed + take_now;
    }
    proof {
        assert(tv.take(n as int) =~= tv);
        let k = chunks@.len() as int;
        let b = max_batch as int;
        if n == 0 {
            assert(k == 0);
            assert(0 * b == 0 && (0 - 1) * b < 0) by (nonlinear_arith)
                requires
                    b > 0,
            ;
            lemma_ceil_div_unique(0, b, 0);
        } else {
            assert(k > 0);
            lemma_ceil_div_unique(n as int, b, k);
        }
    }
    chunks
}

/// Concatenate per-batch results back into one list, preserving order.
pub fn concat_batches(batches: Vec<Vec<Vec<i64>>>) -> (out: Vec<Vec<i64>>)
    ensures
        out.deep_view() == batches.deep_view().flatten(),
{
    broadcast use vstd::prelude::Seq::lemma_flatten_push;

    let ghost bv = batches.deep_view();
    let n = batches.len();
    let mut remaining = batches;
    let mut out: Vec<Vec<i64>> = Vec::new();
    let mut i: usize = 0;
    while i < n
        invariant
            0 <= i <= n,
            n == bv.len(),
            remaining@.len() == n - i,
            forall|j: int| 0 <= j < remaining@.len() ==> #[trigger] remaining@[j].deep_view()
                == bv[j + i as int],
            out.deep_view() == bv.take(i as int).flatten(),
        decreases n - i,
    {
        let mut batch = remaining.remove(0);
        let ghost batchv = batch.deep_view();
        let ghost outv = out.deep_view();
        out.append(&mut batch);
        proof {
            assert(out.deep_view() =~= outv + batchv);
            assert(bv.take(i as int + 1) =~= bv.take(i as int).push(bv[i as int]));
            bv.take(i as int).lemma_flatten_push(bv[i as int]);
            assert(out.deep_view() =~= bv.take(i as int + 1).flatten());
        }
        i = i + 1;
    }
    proof {
        assert(bv.take(n as int) =~= bv);
    }
    out
}

/// Order is preserved through batching: if every batch's output lists one
/// result per batch text, produced by the same per-text response function,
/// then the concatenated outputs are the per-text responses of the
/// concatenated texts, in the same order.
pub proof fn lemma_batched_outputs_align(
    chunks: Seq<Seq<Seq<char>>>,
    outs: Seq<Seq<Seq<i64>>>,
    resp: spec_fn(Seq<char>) -> Seq<i64>,
)
    requires
        outs.len() == chunks.len(),
        forall|i: int| 0 <= i < chunks.len() ==> #[trigger] outs[i] == chunks[i].map_values(resp),
    ensures
        outs.flatten() == chunks.flatten().map_values(resp),
    decreases chunks.len(),
{
    if chunks.len() == 0 {
        assert(outs.flatten() =~= chunks.flatten().map_values(resp));
    } else {
        let ctail = chunks.drop_first();
        let otail = outs.drop_first();
        assert(forall|i: int| 0 <= i < ctail.len() ==> #[trigger] otail[i] == outs[i + 1]);
        assert(forall|i: int| 0 <= i < ctail.len() ==> #[trigger] ctail[i] == chunks[i + 1]);
        lemma_batched_outputs_align(ctail, otail, resp);
        assert(outs.flatten() == outs[0] + otail.flatten());
        assert(chunks.flatten() == chunks[0] + ctail.flatten());
        assert((chunks[0] + ctail.flatten()).map_values(resp) =~= chunks[0].map_values(resp)
            + ctail.flatten().map_values(resp));
        assert(outs.flatten() =~= chunks.flatten().map_values(resp));
    }
}

/// How many of `embeddings` do not have the expected dimension.
pub open spec fn spec_drift_count(s: Seq<Seq<i64>>, expected: int) -> int
    decreases s.len(),
{
    if s.len() == 0 {
        0
    } else {
        spec_drift_count(s.drop_last(), expected) + if s.last().len() == expected {
            0int
        } else {
            1int
        }
    }
}

/// Count the embeddings whose length is not `expected`.
///
/// Dimension drift from the provider is tolerated, not fatal: the pipeline
/// reports how many vectors drifted and leaves them in place, so the caller
/// can log a warning.
pub fn count_dimension_drift(embeddings: &Vec<Vec<i64>>, expected: usize) -> (c: usize)
    ensures
        c == spec_drift_count(embeddings.deep_view(), expected as int),
        c <= embeddings@.len(),
{
    let ghost ev = embeddings.deep_view();
    proof {
        lemma_drift_count_le(ev, expected as int);
    }
    let n = embeddings.len();
    let mut c: usize = 0;
    let mut i: usize = 0;
    while i < n
        invariant
            0 <= i <= n,
            n == ev.len(),
            ev == embeddings.deep_view(),
            c == spec_drift_count(ev.take(i as int), expected as int),
            c <= i,
        decreases n - i,
    {
        proof {
            assert(ev.take(i + 1).drop_last() =~= ev.take(i as int));
            assert(ev.take(i + 1).last() == ev[i as int]);
        }
        if embeddings[i].len() != expected {
            c = c + 1;
        }
        i = i + 1;
    }
    proof {
        assert(ev.take(n as int) =~= ev);
    }
    c
}

/// The drift count never exceeds the number of embeddings.
proof fn lemma_drift_count_le(s: Seq<Seq<i64>>, expected: int)
    ensures
        0 <= spec_drift_count(s, expected) <= s.len(),
    decreases s.len(),
{
    if s.len() == 0 {
    } else {
        lemma_drift_count_le(s.drop_last(), expected);
    }
}

/// The first of a list of embeddings, or nothing if the provider returned an
/// empty list.
pub fn first_embedding(results: Vec<Vec<i64>>) -> (r: Option<Vec<i64>>)
    ensures
        match r {
            Some(v) => results@.len() > 0 && v@ == results.deep_view()[0],
            None => results@.len() == 0,
        },
{
    let mut results = results;
    if results.len() == 0 {
        None
    } else {
        Some(results.remove(0))
    }
}

} // verus!
