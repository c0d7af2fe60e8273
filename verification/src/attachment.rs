use vstd::prelude::*;

use crate::settings::AttachmentSettings;

verus! {

/// The stride with which child particles are sampled: the configured one, but at least one.
pub open spec fn effective_stride(stride: usize) -> nat {
    if stride == 0 {
        1
    } else {
        stride as nat
    }
}

/// How many particles of a child with `n` particles are sampled at stride `stride`.
pub open spec fn sample_count(n: nat, stride: nat) -> nat
    recommends
        stride > 0,
{
    ((n + stride - 1) as nat) / stride
}

/// The anchor particles chosen on a child body with `n` particles: every `stride`-th
/// particle, and where that is more than `max_total`, `max_total` of those samples spread
/// evenly over them (sample `k * count / max_total` for the `k`-th anchor).
pub open spec fn child_anchor_indices(n: nat, stride: usize, max_total: usize) -> Seq<int> {
    let st = effective_stride(stride);
    let count = sample_count(n, st);
    if count <= max_total {
        Seq::new(count, |j: int| j * st)
    } else {
        Seq::new(max_total as nat, |k: int| ((k * count) / (max_total as int)) * st)
    }
}

proof fn lemma_spread_strictly_increases(k: int, count: int, m: int)
    requires
        0 <= k,
        0 < m < count,
    ensures
        (k * count) / m < ((k + 1) * count) / m,
{
    assert((k + 1) * count == k * count + count) by (nonlinear_arith);
    assert((k * count + count) / m >= (k * count + m) / m) by (nonlinear_arith)
        requires
            0 < m < count,
            0 <= k,
    ;
    assert((k * count + m) / m == (k * count) / m + 1) by (nonlinear_arith)
        requires
            0 < m,
            0 <= k * count,
    ;
}

proof fn lemma_spread_below_count(k: int, count: int, m: int)
    requires
        0 <= k < m,
        0 < m < count,
    ensures
        0 <= (k * count) / m < count,
{
    assert(k * count < m * count) by (nonlinear_arith)
        requires
            0 <= k < m,
            0 < count,
    ;
    assert(0 <= k * count) by (nonlinear_arith)
        requires
            0 <= k,
            0 < count,
    ;
    assert((k * count) / m < count) by (nonlinear_arith)
        requires
            k * count < m * count,
            0 < m,
            0 <= k * count,
    ;
    assert(0 <= (k * count) / m) by (nonlinear_arith)
        requires
            0 <= k * count,
            0 < m,
    ;
}

/// Chooses the anchor particles of a child body with `child_len` particles, as
/// `child_anchor_indices` says.
pub fn select_child_anchor_indices<T>(child_len: usize, settings: &AttachmentSettings<T>) -> (out:
    Vec<usize>)
    requires
        ({
            let count = sample_count(
                child_len as nat,
                effective_stride(settings.child_sample_stride),
            );
            count > settings.max_total_attachments ==> (settings.max_total_attachments - 1)
                * count <= usize::MAX
        }),
    ensures
        out@.map_values(|i: usize| i as int) == child_anchor_indices(
            child_len as nat,
            settings.child_sample_stride,
            settings.max_total_attachments,
        ),
{
    let stride = if settings.child_sample_stride == 0 {
        1
    } else {
        settings.child_sample_stride
    };
    let ghost st = effective_stride(settings.child_sample_stride);
    let ghost count = sample_count(child_len as nat, st);
    let n_samples: usize = if child_len == 0 {
        0
    } else {
        (child_len - 1) / stride + 1
    };
    proof {
        if child_len > 0 {
            assert((child_len - 1) / (stride as int) + 1 == ((child_len + stride - 1) as nat) / (
            stride as nat)) by (nonlinear_arith)
                requires
                    child_len >= 1,
                    stride >= 1,
            ;
        }
        if child_len == 0 {
            assert(((stride - 1) as nat) / (stride as nat) == 0) by (nonlinear_arith)
                requires
                    stride >= 1,
            ;
        }
        assert(n_samples == count);
    }
    let mut sampled: Vec<usize> = Vec::new();
    let mut j: usize = 0;
    while j < n_samples
        invariant
            stride == st,
            stride >= 1,
            n_samples == count,
            child_len > 0 ==> n_samples == (child_len - 1) / (stride as int) + 1,
            child_len == 0 ==> n_samples == 0,
            j <= n_samples,
            sampled.len() == j,
            forall|q: int| 0 <= q < j ==> sampled@[q] == q * stride,
        decreases n_samples - j,
    {
        proof {
            assert(j * stride <= child_len - 1) by (nonlinear_arith)
                requires
                    j < (child_len - 1) / (stride as int) + 1,
                    stride >= 1,
                    child_len >= 1,
            ;
        }
        sampled.push(j * stride);
        j = j + 1;
    }
    let max = settings.max_total_attachments;
    let len = sampled.len();
    if len <= max {
        proof {
            assert(sampled@.map_values(|i: usize| i as int) =~= Seq::new(
                count,
                |q: int| q * st,
            ));
        }
        return sampled;
    }
    let mut out: Vec<usize> = Vec::new();
    let mut k: usize = 0;
    while k < max
        invariant
            len == sampled.len(),
            len == count,
            max < len,
            (max - 1) * len <= usize::MAX,
            k <= max,
            stride == st,
            stride >= 1,
            forall|q: int| 0 <= q < len ==> sampled@[q] == q * stride,
            out.len() == k,
            forall|q: int|
                0 <= q < k ==> out@[q] as int == ((q * len) / (max as int)) * stride,
        decreases max - k,
    {
        proof {
            assert(k * len <= (max - 1) * len) by (nonlinear_arith)
                requires
                    k < max,
            ;
            lemma_spread_below_count(k as int, len as int, max as int);
        }
        let mapped = (k * len) / max;
        let idx = sampled[mapped];
        let last = if out.len() == 0 {
            None
        } else {
            Some(out[out.len() - 1])
        };
        if last != Some(idx) {
            out.push(idx);
        } else {
            proof {
                lemma_spread_strictly_increases(k - 1, len as int, max as int);
                assert(((k - 1) * len) / (max as int) < (k * len) / (max as int));
                assert(((k - 1) * len) / (max as int) * stride < ((k * len) / (max as int))
                    * stride) by (nonlinear_arith)
                    requires
                        ((k - 1) * len) / (max as int) < (k * len) / (max as int),
                        stride >= 1,
                ;
            }
        }
        k = k + 1;
    }
    proof {
        assert(out@.map_values(|i: usize| i as int) =~= Seq::new(
            max as nat,
            |q: int| ((q * count) / (max as int)) * st,
        ));
    }
    out
}

/// A pairing of a child anchor particle with the parent particle it is attached to.
/// `distance_rank` orders candidates by their squared distance: a smaller rank is a shorter
/// distance, and equal distances have equal ranks.
#[derive(Clone, Copy, PartialEq, Eq, Debug)]
pub struct AttachmentCandidate {
    pub parent_idx: usize,
    pub child_idx: usize,
    pub distance_rank: u64,
}

/// The candidates of `s` whose rank is `r`, in their order in `s`.
pub open spec fn with_rank(s: Seq<AttachmentCandidate>, r: u64) -> Seq<AttachmentCandidate> {
    s.filter(|c: AttachmentCandidate| c.distance_rank == r)
}

/// Ranks never decrease along `s`.
pub open spec fn sorted_by_rank(s: Seq<AttachmentCandidate>) -> bool {
    forall|i: int, j: int|
        0 <= i <= j < s.len() ==> #[trigger] s[i].distance_rank <= #[trigger] s[j].distance_rank
}

proof fn lemma_with_rank_push(s: Seq<AttachmentCandidate>, x: AttachmentCandidate, r: u64)
    ensures
        with_rank(s.push(x), r) == (if x.distance_rank == r {
            with_rank(s, r).push(x)
        } else {
            with_rank(s, r)
        }),
{
    let pred = |c: AttachmentCandidate| c.distance_rank == r;
    s.lemma_filter_push(x, pred);
}

proof fn lemma_with_rank_add(a: Seq<AttachmentCandidate>, b: Seq<AttachmentCandidate>, r: u64)
    ensures
        with_rank(a + b, r) == with_rank(a, r) + with_rank(b, r),
{
    let pred = |c: AttachmentCandidate| c.distance_rank == r;
    Seq::filter_distributes_over_add(a, b, pred);
}

proof fn lemma_with_rank_none(s: Seq<AttachmentCandidate>, r: u64)
    requires
        forall|i: int| 0 <= i < s.len() ==> #[trigger] s[i].distance_rank != r,
    ensures
        with_rank(s, r) == Seq::<AttachmentCandidate>::empty(),
    decreases s.len(),
{
    if s.len() > 0 {
        lemma_with_rank_none(s.drop_last(), r);
        assert(s.drop_last().push(s.last()) =~= s);
        lemma_with_rank_push(s.drop_last(), s.last(), r);
    }
}

/// `s` with `x` inserted after the last candidate, counted from the end, whose rank is not
/// larger than the rank of `x`.
pub open spec fn insert_by_rank(s: Seq<AttachmentCandidate>, x: AttachmentCandidate) -> Seq<
    AttachmentCandidate,
>
    decreases s.len(),
{
    if s.len() == 0 {
        seq![x]
    } else if s.last().distance_rank <= x.distance_rank {
        s.push(x)
    } else {
        insert_by_rank(s.drop_last(), x).push(s.last())
    }
}

/// The candidates of `s` sorted by rank, those of equal rank in their order in `s`: each
/// candidate in turn inserted as `insert_by_rank` says.
pub open spec fn sorted_by_distance(s: Seq<AttachmentCandidate>) -> Seq<AttachmentCandidate>
    decreases s.len(),
{
    if s.len() == 0 {
        seq![]
    } else {
        insert_by_rank(sorted_by_distance(s.drop_last()), s.last())
    }
}

proof fn lemma_insert_at(s: Seq<AttachmentCandidate>, x: AttachmentCandidate, p: int)
    requires
        0 <= p <= s.len(),
        forall|q: int| 0 <= q < p ==> #[trigger] s[q].distance_rank <= x.distance_rank,
        forall|q: int| p <= q < s.len() ==> #[trigger] s[q].distance_rank > x.distance_rank,
    ensures
        insert_by_rank(s, x) == s.take(p).push(x) + s.skip(p),
    decreases s.len(),
{
    if s.len() == 0 {
        assert(s.take(p).push(x) + s.skip(p) =~= seq![x]);
    } else if s.last().distance_rank <= x.distance_rank {
        assert(p == s.len()) by {
            if p < s.len() {
                assert(s[s.len() - 1].distance_rank > x.distance_rank);
            }
        }
        assert(s.take(p).push(x) + s.skip(p) =~= s.push(x));
    } else {
        let d = s.drop_last();
        assert(p < s.len()) by {
            if p == s.len() {
                assert(s[s.len() - 1].distance_rank <= x.distance_rank);
            }
        }
        assert forall|q: int| 0 <= q < p implies #[trigger] d[q].distance_rank <= x.distance_rank by {
            assert(d[q] == s[q]);
        }
        assert forall|q: int| p <= q < d.len() implies #[trigger] d[q].distance_rank
            > x.distance_rank by {
            assert(d[q] == s[q]);
        }
        lemma_insert_at(d, x, p);
        assert((d.take(p).push(x) + d.skip(p)).push(s.last()) =~= s.take(p).push(x) + s.skip(p));
    }
}

/// Sorts candidates by distance rank, keeping candidates of equal rank in their order (a
/// stable sort).
pub fn sort_candidates_by_distance(candidates: Vec<AttachmentCandidate>) -> (sorted: Vec<
    AttachmentCandidate,
>)
    ensures
        sorted@ == sorted_by_distance(candidates@),
        sorted_by_rank(sorted@),
        forall|r: u64| #[trigger] with_rank(sorted@, r) == with_rank(candidates@, r),
        sorted@.to_multiset() == candidates@.to_multiset(),
{
    broadcast use vstd::seq_lib::group_to_multiset_ensures;
    broadcast use vstd::multiset::group_multiset_axioms;

    let mut sorted: Vec<AttachmentCandidate> = Vec::new();
    let mut i: usize = 0;
    while i < candidates.len()
        invariant
            i <= candidates.len(),
            sorted@ == sorted_by_distance(candidates@.take(i as int)),
            sorted_by_rank(sorted@),
            forall|r: u64| #[trigger]
                with_rank(sorted@, r) == with_rank(candidates@.take(i as int), r),
            sorted@.to_multiset() == candidates@.take(i as int).to_multiset(),
        decreases candidates.len() - i,
    {
        let x = candidates[i];
        // insert after every candidate whose rank is not larger
        let mut p: usize = 0;
        while p < sorted.len() && sorted[p].distance_rank <= x.distance_rank
            invariant
                p <= sorted.len(),
                forall|q: int| 0 <= q < p ==> #[trigger] sorted@[q].distance_rank
                    <= x.distance_rank,
            decreases sorted.len() - p,
        {
            p = p + 1;
        }
        let ghost old_sorted = sorted@;
        proof {
            // everything from `p` on is larger
            assert forall|q: int| p <= q < old_sorted.len() implies #[trigger]
                old_sorted[q].distance_rank > x.distance_rank by {
                assert(old_sorted[p as int].distance_rank > x.distance_rank);
                assert(old_sorted[p as int].distance_rank <= old_sorted[q].distance_rank);
            }
        }
        sorted.insert(p, x);
        proof {
            lemma_insert_at(old_sorted, x, p as int);
            assert(candidates@.take(i + 1).drop_last() =~= candidates@.take(i as int));
            let front = old_sorted.take(p as int);
            let back = old_sorted.skip(p as int);
            assert(old_sorted =~= front + back);
            assert(sorted@ =~= front.push(x) + back);
            assert(candidates@.take(i + 1) =~= candidates@.take(i as int).push(x));
            assert(sorted@.remove(p as int) =~= old_sorted);
            assert(sorted@[p as int] == x);
            let m = sorted@.to_multiset();
            sorted@.to_multiset_ensures();
            candidates@.take(i as int).to_multiset_ensures();
            assert(sorted@.remove(p as int).to_multiset() =~= m.remove(x));
            assert(sorted@.contains(x));
            assert(m.count(x) > 0);
            assert(m =~= m.remove(x).insert(x));
            assert(sorted@.to_multiset() =~= old_sorted.to_multiset().insert(x));
            assert forall|r: u64| #[trigger]
                with_rank(sorted@, r) == with_rank(candidates@.take(i + 1), r) by {
                lemma_with_rank_add(front.push(x), back, r);
                lemma_with_rank_add(front, back, r);
                lemma_with_rank_push(front, x, r);
                lemma_with_rank_push(candidates@.take(i as int), x, r);
                if x.distance_rank == r {
                    assert forall|q: int| 0 <= q < back.len() implies #[trigger]
                        back[q].distance_rank != r by {
                        assert(back[q] == old_sorted[p + q]);
                    }
                    lemma_with_rank_none(back, r);
                    assert(with_rank(front, r).push(x) + with_rank(back, r) =~= (with_rank(
                        front,
                        r,
                    ) + with_rank(back, r)).push(x));
                }
            }
            assert forall|a: int, b: int| 0 <= a <= b < sorted@.len() implies #[trigger]
                sorted@[a].distance_rank <= #[trigger] sorted@[b].distance_rank by {
                if a < p && b < p {
                    assert(sorted@[a] == old_sorted[a] && sorted@[b] == old_sorted[b]);
                } else if a < p && b == p {
                    assert(sorted@[a] == old_sorted[a]);
                } else if a < p {
                    assert(sorted@[a] == old_sorted[a] && sorted@[b] == old_sorted[b - 1]);
                } else if a == p && b > p {
                    assert(sorted@[b] == old_sorted[b - 1]);
                } else if a > p {
                    assert(sorted@[a] == old_sorted[a - 1] && sorted@[b] == old_sorted[b - 1]);
                }
            }
        }
        i = i + 1;
    }
    proof {
        assert(candidates@.take(candidates@.len() as int) =~= candidates@);
    }
    sorted
}

/// Anchors of a child body are particles of it, in increasing order, so none is chosen
/// twice.
pub proof fn law_child_anchors_increasing(n: nat, stride: usize, max_total: usize)
    ensures
        forall|k: int|
            0 <= k < child_anchor_indices(n, stride, max_total).len() ==> 0 <= #[trigger] child_anchor_indices(
                n,
                stride,
                max_total,
            )[k] < n,
        forall|a: int, b: int|
            0 <= a < b < child_anchor_indices(n, stride, max_total).len() ==> #[trigger] child_anchor_indices(
                n,
                stride,
                max_total,
            )[a] < #[trigger] child_anchor_indices(n, stride, max_total)[b],
{
    let st = effective_stride(stride);
    let count = sample_count(n, st);
    let s = child_anchor_indices(n, stride, max_total);
    if count > max_total {
        let m = max_total as int;
        assert forall|k: int| 0 <= k < s.len() implies 0 <= #[trigger] s[k] < n by {
            lemma_spread_below_count(k, count as int, m);
            lemma_sample_below((k * count) / m, st, count, n);
        }
        assert forall|a: int, b: int| 0 <= a < b < s.len() implies #[trigger] s[a] < #[trigger] s[b] by {
            lemma_spread_increasing(a, b, count as int, m);
            assert(((a * count) / m) * st < ((b * count) / m) * st) by (nonlinear_arith)
                requires
                    (a * count) / m < (b * count) / m,
                    st >= 1,
            ;
        }
    } else {
        assert forall|k: int| 0 <= k < s.len() implies 0 <= #[trigger] s[k] < n by {
            lemma_sample_below(k, st, count, n);
        }
        assert forall|a: int, b: int| 0 <= a < b < s.len() implies #[trigger] s[a] < #[trigger] s[b] by {
            assert(a * st < b * st) by (nonlinear_arith)
                requires
                    a < b,
                    st >= 1,
            ;
        }
    }
}

proof fn lemma_sample_below(j: int, st: nat, count: nat, n: nat)
    requires
        0 <= j < count,
        count == ((n + st - 1) as nat) / st,
        st >= 1,
    ensures
        0 <= j * st < n,
{
    assert(0 <= j * st) by (nonlinear_arith)
        requires
            0 <= j,
            st >= 1,
    ;
    assert(j * st < n) by (nonlinear_arith)
        requires
            0 <= j < count,
            count == ((n + st - 1) as nat) / st,
            st >= 1,
    ;
}

proof fn lemma_spread_increasing(a: int, b: int, count: int, m: int)
    requires
        0 <= a < b,
        0 < m < count,
    ensures
        (a * count) / m < (b * count) / m,
{
    assert(b * count >= a * count + count) by (nonlinear_arith)
        requires
            a < b,
            0 < count,
    ;
    assert((b * count) / m >= (a * count + m) / m) by (nonlinear_arith)
        requires
            b * count >= a * count + count,
            0 < m < count,
            0 <= a,
    ;
    assert((a * count + m) / m == (a * count) / m + 1) by (nonlinear_arith)
        requires
            0 < m,
            0 <= a * count,
    ;
    assert(0 <= a * count) by (nonlinear_arith)
        requires
            0 <= a,
            0 < count,
    ;
}

/// Pruning keeps the nearest candidates: what it keeps is a leading part of the sorted
/// candidates, holding every candidate within the bound and at least three candidates (or
/// all of them, where there are fewer).
pub proof fn law_prune_keeps_nearest(sorted: Seq<AttachmentCandidate>, max_rank: u64)
    requires
        sorted_by_rank(sorted),
    ensures
        ({
            let kept = sorted.take(pruned_len(sorted, max_rank) as int);
            &&& pruned_len(sorted, max_rank) <= sorted.len()
            &&& kept.len() >= (if sorted.len() < 3 {
                sorted.len()
            } else {
                3
            })
            &&& forall|k: int|
                0 <= k < sorted.len() && (#[trigger] sorted[k]).distance_rank <= max_rank
                    ==> k < kept.len()
        }),
{
    let pred = |c: AttachmentCandidate| c.distance_rank <= max_rank;
    sorted.lemma_filter_len(pred);
    if sorted.len() > 4 {
        assert forall|k: int|
            0 <= k < sorted.len() && (#[trigger] sorted[k]).distance_rank <= max_rank implies k
            < count_within(sorted, max_rank) by {
            // every candidate up to `k` is within the bound
            let front = sorted.take(k + 1);
            let back = sorted.skip(k + 1);
            assert(sorted =~= front + back);
            Seq::filter_distributes_over_add(front, back, pred);
            assert forall|q: int| 0 <= q < front.len() implies pred(#[trigger] front[q]) by {
                assert(sorted[q].distance_rank <= sorted[k].distance_rank);
            }
            lemma_filter_all(front, pred);
            back.lemma_filter_len(pred);
        }
    }
}

/// Ties between parent and child particles are never repeated, and every tie names a parent
/// particle that exists.
pub proof fn law_support_pairs_distinct(cands: Seq<AttachmentCandidate>, len: nat, s: nat)
    ensures
        support_pairs(cands, len, s).no_duplicates(),
        forall|k: int|
            0 <= k < support_pairs(cands, len, s).len() ==> 0 <= (#[trigger] support_pairs(
                cands,
                len,
                s,
            )[k]).0 < len,
    decreases cands.len(),
{
    if cands.len() > 0 {
        let prev = support_pairs(cands.drop_last(), len, s);
        law_support_pairs_distinct(cands.drop_last(), len, s);
        let c = cands.last();
        let pred = fresh_support(c.parent_idx as int, c.child_idx as int, len, s, prev);
        let fresh = index_range(len).filter(pred);
        let added = fresh.map_values(tie_to(c.child_idx as int));
        index_range(len).lemma_filter_len(pred);
        assert forall|q: int| 0 <= q < fresh.len() implies pred(#[trigger] fresh[q]) && 0 <= fresh[q] < len by {
            index_range(len).lemma_filter_pred(pred, q);
            let j = choose|j: int| 0 <= j < index_range(len).len() && index_range(len)[j] == fresh[q];
            index_range(len).lemma_filter_contains_rev(pred, fresh[q]);
        }
        assert(fresh.no_duplicates()) by {
            lemma_filter_increasing(index_range(len), pred);
        }
        let all = support_pairs(cands, len, s);
        assert(all == prev + added);
        assert forall|a: int, b: int| 0 <= a < all.len() && 0 <= b < all.len() && a != b implies all[a] != all[b] by {
            if a >= prev.len() && b >= prev.len() {
                assert(all[a] == (fresh[a - prev.len()], c.child_idx as int));
                assert(all[b] == (fresh[b - prev.len()], c.child_idx as int));
            } else if a >= prev.len() {
                assert(pred(fresh[a - prev.len()]));
                assert(prev.contains(all[b]));
            } else if b >= prev.len() {
                assert(pred(fresh[b - prev.len()]));
                assert(prev.contains(all[a]));
            }
        }
    }
}

proof fn lemma_filter_increasing(s: Seq<int>, pred: spec_fn(int) -> bool)
    requires
        forall|a: int, b: int| 0 <= a < b < s.len() ==> #[trigger] s[a] < #[trigger] s[b],
    ensures
        forall|a: int, b: int|
            0 <= a < b < s.filter(pred).len() ==> #[trigger] s.filter(pred)[a]
                < #[trigger] s.filter(pred)[b],
        s.filter(pred).no_duplicates(),
    decreases s.len(),
{
    if s.len() > 0 {
        let init = s.drop_last();
        lemma_filter_increasing(init, pred);
        assert(init.push(s.last()) =~= s);
        init.lemma_filter_push(s.last(), pred);
        init.lemma_filter_len(pred);
        assert forall|k: int| 0 <= k < init.filter(pred).len() implies #[trigger] init.filter(pred)[k]
            < s.last() by {
            init.lemma_filter_contains_rev(pred, init.filter(pred)[k]);
            let j = choose|j: int| 0 <= j < init.len() && init[j] == init.filter(pred)[k];
            assert(s[j] < s[s.len() - 1]);
        }
    } else {
        assert(s.filter(pred) =~= seq![]);
    }
    let f = s.filter(pred);
    assert forall|a: int, b: int| 0 <= a < f.len() && 0 <= b < f.len() && a != b implies f[a] != f[b] by {
        if a < b {
            assert(f[a] < f[b]);
        } else {
            assert(f[b] < f[a]);
        }
    }
}

/// How many of the candidates lie within rank `max_rank`.
pub open spec fn count_within(s: Seq<AttachmentCandidate>, max_rank: u64) -> nat {
    s.filter(|c: AttachmentCandidate| c.distance_rank <= max_rank).len()
}

/// How many of the sorted candidates survive pruning: all of them when there are at most
/// four, else those within `max_rank`, but never fewer than three.
pub open spec fn pruned_len(s: Seq<AttachmentCandidate>, max_rank: u64) -> nat {
    if s.len() <= 4 {
        s.len()
    } else if count_within(s, max_rank) < 3 {
        3
    } else {
        count_within(s, max_rank)
    }
}

/// Sorts the candidates by rank (stably) and drops those that lie farther than `max_rank`
/// (the rank of the largest distance still accepted). Sets of four or fewer candidates are
/// kept whole, and at least the three nearest candidates are always kept.
pub fn prune_distance_outliers(candidates: Vec<AttachmentCandidate>, max_rank: u64) -> (kept:
    Vec<AttachmentCandidate>)
    ensures
        kept@ == sorted_by_distance(candidates@).take(
            pruned_len(sorted_by_distance(candidates@), max_rank) as int,
        ),
{
    let sorted = sort_candidates_by_distance(candidates);
    let n = sorted.len();
    if n <= 4 {
        proof {
            assert(sorted@.take(n as int) =~= sorted@);
        }
        return sorted;
    }
    // within the sorted candidates, those within the bound form a prefix
    let mut within: usize = 0;
    while within < n && sorted[within].distance_rank <= max_rank
        invariant
            within <= n,
            n == sorted.len(),
            forall|q: int| 0 <= q < within ==> #[trigger] sorted@[q].distance_rank <= max_rank,
        decreases n - within,
    {
        within = within + 1;
    }
    proof {
        let pred = |c: AttachmentCandidate| c.distance_rank <= max_rank;
        let front = sorted@.take(within as int);
        let back = sorted@.skip(within as int);
        assert(sorted@ =~= front + back);
        Seq::filter_distributes_over_add(front, back, pred);
        assert(front.filter(pred) =~= front) by {
            front.lemma_filter_len(pred);
            assert forall|q: int| 0 <= q < front.len() implies pred(#[trigger] front[q]) by {}
            front.filter_lemma(pred);
            lemma_filter_all(front, pred);
        }
        assert forall|q: int| 0 <= q < back.len() implies !pred(#[trigger] back[q]) by {
            assert(back[q] == sorted@[within + q]);
            assert(sorted@[within as int].distance_rank > max_rank);
            assert(sorted@[within as int].distance_rank <= sorted@[within + q].distance_rank);
        }
        back.lemma_all_neg_filter_empty(pred);
        assert(count_within(sorted@, max_rank) == within);
    }
    let keep = if within < 3 {
        3
    } else {
        within
    };
    let mut kept: Vec<AttachmentCandidate> = Vec::new();
    let mut q: usize = 0;
    while q < keep
        invariant
            keep <= n,
            n == sorted.len(),
            q <= keep,
            kept@ == sorted@.take(q as int),
        decreases keep - q,
    {
        kept.push(sorted[q]);
        proof {
            assert(kept@ =~= sorted@.take(q + 1));
        }
        q = q + 1;
    }
    kept
}

/// The number of parent particles tied to each child anchor: the configured one, but at
/// least one.
pub open spec fn support_count(springs: usize) -> nat {
    if springs == 0 {
        1
    } else {
        springs as nat
    }
}

/// Whether parent particle `q` supports a child anchor whose nearest parent particle is `p`:
/// the supports are spread evenly around the parent, `(p + i * len / s) % len` for the
/// `i`-th of `s` supports.
pub open spec fn is_support(p: int, len: int, s: int, q: int) -> bool {
    exists|i: int| 0 <= i < s && q == #[trigger] ((p + (i * len) / s) % len)
}

/// The supports of an anchor at parent particle `p` and child particle `child` that do not
/// tie a pair already in `prev`, in increasing order.
pub open spec fn fresh_supports(p: int, child: int, len: nat, s: nat, prev: Seq<(int, int)>) -> Seq<
    int,
> {
    index_range(len).filter(fresh_support(p, child, len, s, prev))
}

/// `0, 1, ..., n - 1`.
pub open spec fn index_range(n: nat) -> Seq<int> {
    Seq::new(n, |q: int| q)
}

/// Whether parent particle `q` is a support of anchor (`p`, `child`) whose pair is not in
/// `prev`.
pub open spec fn fresh_support(p: int, child: int, len: nat, s: nat, prev: Seq<(int, int)>) -> spec_fn(
    int,
) -> bool {
    |q: int| is_support(p, len as int, s as int, q) && !prev.contains((q, child))
}

/// The pair that ties parent particle `q` to child particle `child`.
pub open spec fn tie_to(child: int) -> spec_fn(int) -> (int, int) {
    |q: int| (q, child)
}

/// The (parent, child) particle pairs that the candidates are expanded to: for each
/// candidate in turn, its supports in increasing order, each pair once.
pub open spec fn support_pairs(cands: Seq<AttachmentCandidate>, len: nat, s: nat) -> Seq<
    (int, int),
>
    decreases cands.len(),
{
    if cands.len() == 0 {
        seq![]
    } else {
        let prev = support_pairs(cands.drop_last(), len, s);
        let c = cands.last();
        prev + fresh_supports(c.parent_idx as int, c.child_idx as int, len, s, prev).map_values(
            tie_to(c.child_idx as int),
        )
    }
}

/// The entries of `v` as integers.
pub open spec fn as_ints(v: Seq<usize>) -> Seq<int> {
    v.map_values(|x: usize| x as int)
}

/// The parent particle of each tie.
pub open spec fn tie_parents(pairs: Seq<(int, int)>) -> Seq<int> {
    pairs.map_values(|pr: (int, int)| pr.0)
}

/// The child particle of each tie.
pub open spec fn tie_children(pairs: Seq<(int, int)>) -> Seq<int> {
    pairs.map_values(|pr: (int, int)| pr.1)
}

proof fn lemma_spread_monotone(i: int, j: int, len: int, s: int)
    requires
        0 <= i <= j,
        0 <= len,
        0 < s,
    ensures
        (i * len) / s <= (j * len) / s,
{
    assert(i * len <= j * len) by (nonlinear_arith)
        requires
            0 <= i <= j,
            0 <= len,
    ;
    vstd::arithmetic::div_mod::lemma_div_is_ordered(i * len, j * len, s);
}

/// Whether parent particle `q` is one of the `s` supports of parent particle `p`.
fn supports(p: usize, len: usize, s: usize, q: usize) -> (b: bool)
    requires
        len > 0,
        s > 0,
        (s - 1) * len <= usize::MAX,
        p + ((s - 1) * len) / (s as int) <= usize::MAX,
    ensures
        b == is_support(p as int, len as int, s as int, q as int),
{
    let mut i: usize = 0;
    while i < s
        invariant
            len > 0,
            s > 0,
            (s - 1) * len <= usize::MAX,
            p + ((s - 1) * len) / (s as int) <= usize::MAX,
            i <= s,
            forall|k: int| 0 <= k < i ==> q != #[trigger] ((p + (k * len) / (s as int)) % (
            len as int)),
        decreases s - i,
    {
        proof {
            assert(i * len <= (s - 1) * len) by (nonlinear_arith)
                requires
                    i <= s - 1,
            ;
            lemma_spread_monotone(i as int, s - 1, len as int, s as int);
        }
        let off = (i * len) / s;
        if (p + off) % len == q {
            return true;
        }
        i = i + 1;
    }
    false
}

/// Ties every candidate anchor to `parent_springs_per_child_anchor` (at least one) parent
/// particles spread evenly around a parent with `parent_len` particles, starting at the
/// candidate's parent particle. Returns the parent and the child particle of each tie, in
/// the order of `support_pairs`; a pair is tied once only.
pub fn expand_candidates_to_supports<T>(
    candidates: &Vec<AttachmentCandidate>,
    parent_len: usize,
    settings: &AttachmentSettings<T>,
) -> (idxs: (Vec<usize>, Vec<usize>))
    requires
        (support_count(settings.parent_springs_per_child_anchor) - 1) * parent_len
            <= usize::MAX,
        forall|k: int|
            0 <= k < candidates.len() ==> #[trigger] candidates@[k].parent_idx + ((support_count(
                settings.parent_springs_per_child_anchor,
            ) - 1) * parent_len) / (support_count(settings.parent_springs_per_child_anchor) as int)
                <= usize::MAX,
    ensures
        as_ints(idxs.0@) == tie_parents(
            support_pairs(
                candidates@,
                parent_len as nat,
                support_count(settings.parent_springs_per_child_anchor),
            ),
        ),
        as_ints(idxs.1@) == tie_children(
            support_pairs(
                candidates@,
                parent_len as nat,
                support_count(settings.parent_springs_per_child_anchor),
            ),
        ),
{
    let s = if settings.parent_springs_per_child_anchor == 0 {
        1
    } else {
        settings.parent_springs_per_child_anchor
    };
    let ghost sn = support_count(settings.parent_springs_per_child_anchor);
    let ghost len = parent_len as nat;
    let mut parent_idxs: Vec<usize> = Vec::new();
    let mut child_idxs: Vec<usize> = Vec::new();
    let ghost mut pairs: Seq<(int, int)> = seq![];
    proof {
        assert(as_ints(parent_idxs@) =~= tie_parents(pairs));
        assert(as_ints(child_idxs@) =~= tie_children(pairs));
    }
    let mut c: usize = 0;
    while c < candidates.len()
        invariant
            s == sn,
            s > 0,
            len == parent_len,
            sn == support_count(settings.parent_springs_per_child_anchor),
            (s - 1) * parent_len <= usize::MAX,
            forall|k: int|
                0 <= k < candidates.len() ==> #[trigger] candidates@[k].parent_idx + ((s - 1)
                    * parent_len) / (s as int) <= usize::MAX,
            c <= candidates.len(),
            pairs == support_pairs(candidates@.take(c as int), len, sn),
            as_ints(parent_idxs@) == tie_parents(pairs),
            as_ints(child_idxs@) == tie_children(pairs),
        decreases candidates.len() - c,
    {
        let cand = candidates[c];
        let p = cand.parent_idx;
        let child = cand.child_idx;
        let prev_len = parent_idxs.len();
        let ghost prev = pairs;
        let ghost pred = fresh_support(p as int, child as int, len, sn, prev);
        let ghost mut fresh: Seq<int> = seq![];
        proof {
            assert(index_range(0).filter(pred) =~= fresh);
            assert(pairs =~= prev + fresh.map_values(tie_to(child as int)));
            assert(as_ints(parent_idxs@).take(prev_len as int) =~= as_ints(parent_idxs@));
            assert(as_ints(child_idxs@).take(prev_len as int) =~= as_ints(child_idxs@));
        }
        let mut q: usize = 0;
        while q < parent_len
            invariant
                s == sn,
                s > 0,
                len == parent_len,
                (s - 1) * parent_len <= usize::MAX,
                p + ((s - 1) * parent_len) / (s as int) <= usize::MAX,
                q <= parent_len,
                prev_len == prev.len(),
                pred == fresh_support(p as int, child as int, len, sn, prev),
                fresh == index_range(q as nat).filter(pred),
                pairs == prev + fresh.map_values(tie_to(child as int)),
                as_ints(parent_idxs@) == tie_parents(pairs),
                as_ints(child_idxs@) == tie_children(pairs),
                as_ints(parent_idxs@).take(prev_len as int) == tie_parents(prev),
                as_ints(child_idxs@).take(prev_len as int) == tie_children(prev),
                prev_len <= parent_idxs.len(),
                prev_len <= child_idxs.len(),
            decreases parent_len - q,
        {
            let is_sup = supports(p, parent_len, s, q);
            let mut seen = false;
            let mut k: usize = 0;
            while k < prev_len
                invariant
                    k <= prev_len,
                    prev_len <= parent_idxs.len(),
                    prev_len <= child_idxs.len(),
                    prev_len == prev.len(),
                    as_ints(parent_idxs@).take(prev_len as int) == tie_parents(prev),
                    as_ints(child_idxs@).take(prev_len as int) == tie_children(prev),
                    seen <==> exists|j: int|
                        0 <= j < k && #[trigger] prev[j] == (q as int, child as int),
                decreases prev_len - k,
            {
                if parent_idxs[k] == q && child_idxs[k] == child {
                    seen = true;
                }
                proof {
                    assert(as_ints(parent_idxs@).take(prev_len as int)[k as int] == parent_idxs@[k as int] as int);
                    assert(as_ints(child_idxs@).take(prev_len as int)[k as int] == child_idxs@[k as int] as int);
                    assert(tie_parents(prev)[k as int] == prev[k as int].0);
                    assert(tie_children(prev)[k as int] == prev[k as int].1);
                }
                k = k + 1;
            }
            proof {
                assert(seen <==> prev.contains((q as int, child as int)));
                assert(index_range((q + 1) as nat) =~= index_range(q as nat).push(q as int));
                index_range(q as nat).lemma_filter_push(q as int, pred);
            }
            if is_sup && !seen {
                let ghost old_pairs = pairs;
                let ghost old_parents = parent_idxs@;
                let ghost old_children = child_idxs@;
                parent_idxs.push(q);
                child_idxs.push(child);
                proof {
                    fresh = fresh.push(q as int);
                    pairs = prev + fresh.map_values(tie_to(child as int));
                    assert(pairs =~= old_pairs.push((q as int, child as int)));
                    assert(as_ints(parent_idxs@) =~= as_ints(old_parents).push(q as int));
                    assert(as_ints(child_idxs@) =~= as_ints(old_children).push(child as int));
                    assert(tie_parents(pairs) =~= tie_parents(old_pairs).push(q as int));
                    assert(tie_children(pairs) =~= tie_children(old_pairs).push(child as int));
                    assert(as_ints(parent_idxs@) =~= tie_parents(pairs));
                    assert(as_ints(child_idxs@) =~= tie_children(pairs));
                    assert(as_ints(parent_idxs@).take(prev_len as int) =~= tie_parents(prev));
                    assert(as_ints(child_idxs@).take(prev_len as int) =~= tie_children(prev));
                }
            }
            q = q + 1;
        }
        proof {
            assert(candidates@.take(c + 1).drop_last() =~= candidates@.take(c as int));
            assert(candidates@.take(c + 1).last() == cand);
        }
        c = c + 1;
    }
    proof {
        assert(candidates@.take(candidates@.len() as int) =~= candidates@);
    }
    (parent_idxs, child_idxs)
}

proof fn lemma_filter_all<A>(s: Seq<A>, pred: spec_fn(A) -> bool)
    requires
        forall|q: int| 0 <= q < s.len() ==> pred(#[trigger] s[q]),
    ensures
        s.filter(pred) == s,
    decreases s.len(),
{
    if s.len() > 0 {
        lemma_filter_all(s.drop_last(), pred);
        assert(s.drop_last().push(s.last()) =~= s);
        s.drop_last().lemma_filter_push(s.last(), pred);
    } else {
        assert(s.filter(pred) =~= s);
    }
}

} // verus!
