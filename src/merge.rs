//! Greedy coalescing of adjacent chunks under a length cap.
use crate::geometry::rate_times_ms;
use vstd::prelude::*;

verus! {

/// Chunks in order: each a range, each ending no later than the next starts.
pub open spec fn chunks_ordered(c: Seq<(usize, usize)>) -> bool {
    &&& forall|i: int| 0 <= i < c.len() ==> #[trigger] c[i].0 <= c[i].1
    &&& forall|i: int| 0 <= i < c.len() - 1 ==> #[trigger] c[i].1 <= c[i + 1].0
}

/// The merge cap: `max_duration_ms * sample_rate / 1000`, rounded down.
pub open spec fn merge_cap(max_duration_ms: u32, sample_rate: u32) -> int {
    max_duration_ms * sample_rate / 1000
}

/// Whether two chunks, their hop counts scaled by `hop`, fit under `cap`
/// together.
pub open spec fn fits(cur: (usize, usize), next: (usize, usize), cap: int, hop: int) -> bool {
    (cur.1 - cur.0) * hop + (next.1 - next.0) * hop <= cap
}

/// After the first `n >= 1` chunks: the chunks flushed so far and the
/// running chunk.
pub open spec fn merge_state(c: Seq<(usize, usize)>, cap: int, hop: int, n: nat) -> (
    Seq<(usize, usize)>,
    (usize, usize),
)
    decreases n,
{
    if n <= 1 {
        (Seq::empty(), c[0])
    } else {
        let (out, cur) = merge_state(c, cap, hop, (n - 1) as nat);
        let next = c[n - 1];
        if fits(cur, next, cap, hop) {
            (out, (cur.0, next.1))
        } else {
            (out.push(cur), next)
        }
    }
}

/// The merged chunks: the flushed ones, then the running one.
pub open spec fn merge_chunks(c: Seq<(usize, usize)>, cap: int, hop: int) -> Seq<(usize, usize)> {
    if c.len() == 0 {
        Seq::empty()
    } else {
        let (out, cur) = merge_state(c, cap, hop, c.len());
        out.push(cur)
    }
}

/// Coalesces each chunk into the running one while the two together stay
/// within `max_duration_ms * sample_rate / 1000`, lengths counted as hop
/// counts times `hop_size`; the gap between merged chunks is absorbed.
pub fn merge_short_chunks(
    chunks: &[(usize, usize)],
    max_duration_ms: u32,
    sample_rate: u32,
    hop_size: usize,
) -> (r: Vec<(usize, usize)>)
    requires
        chunks_ordered(chunks@),
    ensures
        r@ == merge_chunks(chunks@, merge_cap(max_duration_ms, sample_rate), hop_size as int),
{
    let n = chunks.len();
    if n == 0 {
        return Vec::new();
    }
    let cap = (rate_times_ms(max_duration_ms, sample_rate) / 1000) as u128;
    proof {
        assert(max_duration_ms * sample_rate == sample_rate * max_duration_ms) by (nonlinear_arith);
    }
    let ghost c = chunks@;
    let ghost hop = hop_size as int;
    let mut merged: Vec<(usize, usize)> = Vec::new();
    let (mut cur_start, mut cur_end) = chunks[0];
    let mut i: usize = 1;
    while i < n
        invariant
            n == c.len(),
            c == chunks@,
            chunks_ordered(c),
            hop == hop_size,
            cap == merge_cap(max_duration_ms, sample_rate),
            1 <= i <= n,
            (merged@, (cur_start, cur_end)) == merge_state(c, cap as int, hop, i as nat),
            cur_start <= cur_end,
            cur_end == c[i - 1].1,
        decreases n - i,
    {
        let (start, end) = chunks[i];
        assert(c[i as int - 1].1 <= c[i as int].0);
        assert((cur_end - cur_start) as u128 * (hop_size as u128) <= u128::MAX) by (nonlinear_arith)
            requires
                cur_end - cur_start <= usize::MAX,
                hop_size <= usize::MAX,
                cur_end - cur_start >= 0,
        ;
        assert((end - start) as u128 * (hop_size as u128) <= u128::MAX) by (nonlinear_arith)
            requires
                end - start <= usize::MAX,
                hop_size <= usize::MAX,
                end - start >= 0,
        ;
        let cur_len = (cur_end - cur_start) as u128 * (hop_size as u128);
        let next_len = (end - start) as u128 * (hop_size as u128);
        if cur_len <= cap && next_len <= cap - cur_len {
            cur_end = end;
        } else {
            merged.push((cur_start, cur_end));
            cur_start = start;
            cur_end = end;
        }
        i = i + 1;
    }
    merged.push((cur_start, cur_end));
    merged
}

/// No two neighbouring chunks fit under the cap together.
pub open spec fn no_fitting_neighbours(o: Seq<(usize, usize)>, cap: int, hop: int) -> bool {
    forall|i: int| 0 <= i < o.len() - 1 ==> !fits(#[trigger] o[i], o[i + 1], cap, hop)
}

/// `r` runs from the start of one of the first `n` chunks of `c` to the end
/// of the same or a later one of them.
pub open spec fn spans(c: Seq<(usize, usize)>, r: (usize, usize), n: int) -> bool {
    exists|a: int, b: int| 0 <= a <= b < n && r.0 == c[a].0 && r.1 == c[b].1
}

/// `r` lies inside one of the chunks of `o`.
pub open spec fn covered_by(o: Seq<(usize, usize)>, r: (usize, usize)) -> bool {
    exists|j: int| 0 <= j < o.len() && o[j].0 <= r.0 && r.1 <= o[j].1
}

/// Growing the second chunk never makes a pair fit.
proof fn lemma_fits_antimonotone(
    cur: (usize, usize),
    next: (usize, usize),
    longer: (usize, usize),
    cap: int,
    hop: int,
)
    requires
        hop >= 0,
        longer.1 - longer.0 >= next.1 - next.0,
        !fits(cur, next, cap, hop),
    ensures
        !fits(cur, longer, cap, hop),
{
    let d = next.1 - next.0;
    let e = longer.1 - longer.0;
    assert(d * hop <= e * hop) by (nonlinear_arith)
        requires
            d <= e,
            hop >= 0,
    ;
}

/// What holds of the merge state after every prefix of an ordered input.
proof fn lemma_merge_invariant(c: Seq<(usize, usize)>, cap: int, hop: int, n: nat)
    requires
        chunks_ordered(c),
        hop >= 0,
        1 <= n <= c.len(),
    ensures
        ({
            let (out, cur) = merge_state(c, cap, hop, n);
            let all = out.push(cur);
            &&& chunks_ordered(all)
            &&& no_fitting_neighbours(all, cap, hop)
            &&& cur.1 == c[n - 1].1
            &&& all.len() <= n
            &&& forall|j: int| 0 <= j < all.len() ==> #[trigger] spans(c, all[j], n as int)
            &&& forall|i: int| 0 <= i < n ==> #[trigger] covered_by(all, c[i])
        }),
    decreases n,
{
    let (out, cur) = merge_state(c, cap, hop, n);
    let all = out.push(cur);
    if n == 1 {
        assert(spans(c, all[0], 1));
        assert(covered_by(all, c[0]));
    } else {
        lemma_merge_invariant(c, cap, hop, (n - 1) as nat);
        let (out0, cur0) = merge_state(c, cap, hop, (n - 1) as nat);
        let all0 = out0.push(cur0);
        let next = c[n - 1];
        assert(c[n - 2].1 <= c[n - 1].0);
        assert(all0[all0.len() - 1] == cur0);
        assert forall|i: int| 0 <= i < all.len() implies #[trigger] all[i].0 <= all[i].1 by {
            if i < all0.len() - 1 || (i == all0.len() - 1 && i < all.len() - 1) {
                assert(all[i] == all0[i]);
            }
        }
        if fits(cur0, next, cap, hop) {
            assert(out == out0 && cur == (cur0.0, next.1));
            assert forall|j: int| 0 <= j < all.len() implies #[trigger] spans(c, all[j], n as int) by {
                assert(spans(c, all0[j], n - 1));
                let (a, b) = choose|a: int, b: int|
                    0 <= a <= b < n - 1 && all0[j].0 == c[a].0 && all0[j].1 == c[b].1;
                if j < out.len() {
                    assert(all[j] == all0[j]);
                } else {
                    assert(all[j].0 == c[a].0 && all[j].1 == c[n - 1].1);
                }
            }
            assert forall|i: int| 0 <= i < n implies #[trigger] covered_by(all, c[i]) by {
                if i == n - 1 {
                    assert(all[all.len() - 1] == cur);
                } else {
                    assert(covered_by(all0, c[i]));
                    let j = choose|j: int|
                        0 <= j < all0.len() && all0[j].0 <= c[i].0 && c[i].1 <= all0[j].1;
                    assert(all[j].0 <= c[i].0 && c[i].1 <= all[j].1);
                }
            }
            if out.len() > 0 {
                assert(all0[all0.len() - 2] == all[all.len() - 2]);
                lemma_fits_antimonotone(all0[all0.len() - 2], cur0, cur, cap, hop);
            }
            assert forall|i: int| 0 <= i < all.len() - 1 implies !fits(
                #[trigger] all[i],
                all[i + 1],
                cap,
                hop,
            ) by {
                if i < all.len() - 2 {
                    assert(all[i] == all0[i] && all[i + 1] == all0[i + 1]);
                }
            }
            assert forall|i: int| 0 <= i < all.len() - 1 implies #[trigger] all[i].1 <= all[i
                + 1].0 by {
                if i < all.len() - 2 {
                    assert(all[i] == all0[i] && all[i + 1] == all0[i + 1]);
                } else {
                    assert(all[i] == all0[i]);
                }
            }
        } else {
            assert(out == all0 && cur == next);
            assert forall|j: int| 0 <= j < all.len() implies #[trigger] spans(c, all[j], n as int) by {
                if j < all0.len() {
                    assert(spans(c, all0[j], n - 1));
                    let (a, b) = choose|a: int, b: int|
                        0 <= a <= b < n - 1 && all0[j].0 == c[a].0 && all0[j].1 == c[b].1;
                    assert(all[j] == all0[j]);
                } else {
                    assert(all[j] == c[n - 1]);
                }
            }
            assert forall|i: int| 0 <= i < n implies #[trigger] covered_by(all, c[i]) by {
                if i == n - 1 {
                    assert(all[all.len() - 1] == cur);
                } else {
                    assert(covered_by(all0, c[i]));
                    let j = choose|j: int|
                        0 <= j < all0.len() && all0[j].0 <= c[i].0 && c[i].1 <= all0[j].1;
                    assert(all[j] == all0[j]);
                }
            }
            assert forall|i: int| 0 <= i < all.len() - 1 implies !fits(
                #[trigger] all[i],
                all[i + 1],
                cap,
                hop,
            ) by {
                if i < all.len() - 2 {
                    assert(all[i] == all0[i] && all[i + 1] == all0[i + 1]);
                }
            }
            assert forall|i: int| 0 <= i < all.len() - 1 implies #[trigger] all[i].1 <= all[i
                + 1].0 by {
                if i < all.len() - 2 {
                    assert(all[i] == all0[i] && all[i + 1] == all0[i + 1]);
                }
            }
        }
    }
}

/// Merging a list in which no neighbours fit changes nothing, prefix by
/// prefix.
proof fn lemma_merge_state_of_unmergeable(o: Seq<(usize, usize)>, cap: int, hop: int, n: nat)
    requires
        no_fitting_neighbours(o, cap, hop),
        1 <= n <= o.len(),
    ensures
        merge_state(o, cap, hop, n) == (o.take(n - 1), o[n - 1]),
    decreases n,
{
    if n > 1 {
        lemma_merge_state_of_unmergeable(o, cap, hop, (n - 1) as nat);
        assert(!fits(o[n - 2], o[n - 1], cap, hop));
        assert(o.take(n - 2).push(o[n - 2]) =~= o.take(n - 1));
    } else {
        assert(o.take(0) =~= Seq::<(usize, usize)>::empty());
    }
}

/// Merging is idempotent: merging the merged chunks again, with the same cap
/// and hop, changes nothing.
pub proof fn lemma_merge_idempotent(
    chunks: Seq<(usize, usize)>,
    max_duration_ms: u32,
    sample_rate: u32,
    hop_size: usize,
)
    requires
        chunks_ordered(chunks),
    ensures
        ({
            let cap = merge_cap(max_duration_ms, sample_rate);
            let once = merge_chunks(chunks, cap, hop_size as int);
            merge_chunks(once, cap, hop_size as int) == once
        }),
{
    let cap = merge_cap(max_duration_ms, sample_rate);
    let hop = hop_size as int;
    if chunks.len() > 0 {
        lemma_merge_invariant(chunks, cap, hop, chunks.len());
        let once = merge_chunks(chunks, cap, hop);
        lemma_merge_state_of_unmergeable(once, cap, hop, once.len());
        assert(once.take(once.len() - 1).push(once[once.len() - 1]) =~= once);
    }
}

/// Merging never adds chunks; each merged chunk runs from the start of an
/// input chunk to the end of the same or a later one; and every input chunk
/// lies inside a merged chunk. The gaps between coalesced chunks are inside
/// the merged chunk.
pub proof fn lemma_merge_coarsens(
    chunks: Seq<(usize, usize)>,
    max_duration_ms: u32,
    sample_rate: u32,
    hop_size: usize,
)
    requires
        chunks_ordered(chunks),
    ensures
        ({
            let merged = merge_chunks(chunks, merge_cap(max_duration_ms, sample_rate), hop_size as int);
            &&& merged.len() <= chunks.len()
            &&& chunks_ordered(merged)
            &&& forall|j: int| 0 <= j < merged.len() ==> #[trigger] spans(chunks, merged[j], chunks.len() as int)
            &&& forall|i: int| 0 <= i < chunks.len() ==> #[trigger] covered_by(merged, chunks[i])
        }),
{
    if chunks.len() > 0 {
        lemma_merge_invariant(chunks, merge_cap(max_duration_ms, sample_rate), hop_size as int, chunks.len());
    }
}

/// Between a merged chunk ending at `left_end` and the next starting at
/// `right_start` lies a gap of the input: the end of one of its first `n`
/// chunks and the start of the following one.
pub open spec fn splits_at_gap(c: Seq<(usize, usize)>, left_end: usize, right_start: usize, n: int) -> bool {
    exists|k: int| 1 <= k < n && left_end == c[k - 1].1 && right_start == c[k].0
}

/// Merge state boundaries: the output starts where the input does, and
/// splits only at input gaps.
proof fn lemma_merge_boundaries(c: Seq<(usize, usize)>, cap: int, hop: int, n: nat)
    requires
        chunks_ordered(c),
        hop >= 0,
        1 <= n <= c.len(),
    ensures
        ({
            let (out, cur) = merge_state(c, cap, hop, n);
            let all = out.push(cur);
            &&& all[0].0 == c[0].0
            &&& forall|i: int|
                0 <= i < all.len() - 1 ==> #[trigger] splits_at_gap(c, all[i].1, all[i + 1].0, n as int)
        }),
    decreases n,
{
    if n > 1 {
        lemma_merge_boundaries(c, cap, hop, (n - 1) as nat);
        lemma_merge_invariant(c, cap, hop, (n - 1) as nat);
        let (out0, cur0) = merge_state(c, cap, hop, (n - 1) as nat);
        let all0 = out0.push(cur0);
        let (out, cur) = merge_state(c, cap, hop, n);
        let all = out.push(cur);
        assert(all0[all0.len() - 1] == cur0);
        assert(all0[0].0 == c[0].0);
        if out.len() > 0 {
            assert(all[0] == all0[0]);
        }
        assert forall|i: int| 0 <= i < all.len() - 1 implies #[trigger] splits_at_gap(
            c,
            all[i].1,
            all[i + 1].0,
            n as int,
        ) by {
            if i < all0.len() - 1 {
                assert(all[i] == all0[i]);
                assert(all[i + 1].0 == all0[i + 1].0);
                assert(splits_at_gap(c, all0[i].1, all0[i + 1].0, n - 1));
                let k = choose|k: int|
                    1 <= k < n - 1 && all0[i].1 == c[k - 1].1 && all0[i + 1].0 == c[k].0;
                assert(1 <= k < n && all[i].1 == c[k - 1].1 && all[i + 1].0 == c[k].0);
            } else {
                assert(all[i] == cur0 && all[i + 1] == c[n - 1]);
                assert(all[i].1 == c[n - 2].1);
            }
        }
    }
}

/// Merging splits only at gaps of the input: the first merged chunk starts
/// where the input starts, the last ends where the input ends, and every
/// boundary between neighbouring merged chunks is the end of one input chunk
/// and the start of the next. Each merged chunk thus covers one run of
/// consecutive input chunks.
pub proof fn lemma_merge_splits_at_input_gaps(
    chunks: Seq<(usize, usize)>,
    max_duration_ms: u32,
    sample_rate: u32,
    hop_size: usize,
)
    requires
        chunks_ordered(chunks),
        chunks.len() > 0,
    ensures
        ({
            let merged = merge_chunks(chunks, merge_cap(max_duration_ms, sample_rate), hop_size as int);
            &&& merged.len() > 0
            &&& merged[0].0 == chunks[0].0
            &&& merged.last().1 == chunks.last().1
            &&& forall|i: int|
                0 <= i < merged.len() - 1 ==> #[trigger] splits_at_gap(
                    chunks,
                    merged[i].1,
                    merged[i + 1].0,
                    chunks.len() as int,
                )
        }),
{
    let cap = merge_cap(max_duration_ms, sample_rate);
    lemma_merge_invariant(chunks, cap, hop_size as int, chunks.len());
    lemma_merge_boundaries(chunks, cap, hop_size as int, chunks.len());
}

/// On contiguous input, where each chunk ends where the next starts, the
/// merged chunks are contiguous too, from the input's start to its end: they
/// cover exactly the frames the input covers.
pub proof fn lemma_merge_keeps_contiguous_union(
    chunks: Seq<(usize, usize)>,
    max_duration_ms: u32,
    sample_rate: u32,
    hop_size: usize,
)
    requires
        chunks_ordered(chunks),
        chunks.len() > 0,
        forall|k: int| 0 <= k < chunks.len() - 1 ==> #[trigger] chunks[k].1 == chunks[k + 1].0,
    ensures
        ({
            let merged = merge_chunks(chunks, merge_cap(max_duration_ms, sample_rate), hop_size as int);
            &&& merged[0].0 == chunks[0].0
            &&& merged.last().1 == chunks.last().1
            &&& forall|i: int| 0 <= i < merged.len() - 1 ==> #[trigger] merged[i].1 == merged[i + 1].0
        }),
{
    let merged = merge_chunks(chunks, merge_cap(max_duration_ms, sample_rate), hop_size as int);
    lemma_merge_splits_at_input_gaps(chunks, max_duration_ms, sample_rate, hop_size);
    assert forall|i: int| 0 <= i < merged.len() - 1 implies #[trigger] merged[i].1 == merged[i + 1].0 by {
        assert(splits_at_gap(chunks, merged[i].1, merged[i + 1].0, chunks.len() as int));
        let k = choose|k: int|
            1 <= k < chunks.len() && merged[i].1 == chunks[k - 1].1 && merged[i + 1].0 == chunks[k].0;
        assert(chunks[k - 1].1 == chunks[k].0);
    }
}

} // verus!
