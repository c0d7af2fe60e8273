use vstd::prelude::*;

verus! {

/// The neighbours of vertex `center` on a ring of `n` vertices: the previous and the next.
pub open spec fn ring_neighbors_spec(center: int, n: int) -> (int, int) {
    ((center + n - 1) % n, (center + 1) % n)
}

/// The previous and the next vertex of `center` on a closed polygon of `n` vertices, the
/// indices that a bending constraint at `center` ties together.
pub fn ring_neighbors(center: usize, n: usize) -> (r: (usize, usize))
    requires
        n > 0,
        center + n <= usize::MAX,
    ensures
        r.0 as int == ring_neighbors_spec(center as int, n as int).0,
        r.1 as int == ring_neighbors_spec(center as int, n as int).1,
{
    ((center + n - 1) % n, (center + 1) % n)
}

/// The outline of a polygon with `n` vertices: each vertex with the next one, around the
/// ring. Bodies with fewer than two vertices have no outline.
pub open spec fn boundary_pairs_spec(n: nat) -> Seq<(usize, usize)> {
    if n < 2 {
        seq![]
    } else {
        Seq::new(n, |i: int| (i as usize, ((i + 1) % (n as int)) as usize))
    }
}

/// The particle pairs of the outline distance constraints of a body with `n` particles.
pub fn boundary_constraint_pairs(n: usize) -> (pairs: Vec<(usize, usize)>)
    ensures
        pairs@ == boundary_pairs_spec(n as nat),
{
    let mut pairs: Vec<(usize, usize)> = Vec::new();
    if n < 2 {
        proof {
            assert(pairs@ =~= boundary_pairs_spec(n as nat));
        }
        return pairs;
    }
    let mut i: usize = 0;
    while i < n
        invariant
            n >= 2,
            i <= n,
            pairs@ =~= boundary_pairs_spec(n as nat).take(i as int),
        decreases n - i,
    {
        pairs.push((i, (i + 1) % n));
        i = i + 1;
    }
    proof {
        assert(boundary_pairs_spec(n as nat).take(n as int) =~= boundary_pairs_spec(n as nat));
    }
    pairs
}

/// The bending constraints of a polygon with `n` vertices: at every vertex, with its two
/// ring neighbours, as (previous, center, next). Polygons of fewer than three vertices get
/// none.
pub open spec fn bending_triples_spec(n: nat) -> Seq<(usize, usize, usize)> {
    if n < 3 {
        seq![]
    } else {
        Seq::new(
            n,
            |i: int|
                (
                    ring_neighbors_spec(i, n as int).0 as usize,
                    i as usize,
                    ring_neighbors_spec(i, n as int).1 as usize,
                ),
        )
    }
}

/// The (previous, center, next) particle triples of the outline bending constraints of a
/// body with `n` particles.
pub fn bending_constraint_triples(n: usize) -> (triples: Vec<(usize, usize, usize)>)
    requires
        n + n <= usize::MAX,
    ensures
        triples@ == bending_triples_spec(n as nat),
{
    let mut triples: Vec<(usize, usize, usize)> = Vec::new();
    if n < 3 {
        proof {
            assert(triples@ =~= bending_triples_spec(n as nat));
        }
        return triples;
    }
    let mut i: usize = 0;
    while i < n
        invariant
            n >= 3,
            n + n <= usize::MAX,
            i <= n,
            triples@ =~= bending_triples_spec(n as nat).take(i as int),
        decreases n - i,
    {
        let (prev, next) = ring_neighbors(i, n);
        triples.push((prev, i, next));
        i = i + 1;
    }
    proof {
        assert(bending_triples_spec(n as nat).take(n as int) =~= bending_triples_spec(n as nat));
    }
    triples
}

/// A pair with its smaller index first: two pairs with the same key tie the same particles.
pub open spec fn unordered_key(p: (usize, usize)) -> (usize, usize) {
    if p.0 < p.1 {
        p
    } else {
        (p.1, p.0)
    }
}

/// `s` with every pair dropped whose particles an earlier pair already ties.
pub open spec fn dedup_unordered(s: Seq<(usize, usize)>) -> Seq<(usize, usize)>
    decreases s.len(),
{
    if s.len() == 0 {
        seq![]
    } else {
        let prev = dedup_unordered(s.drop_last());
        if exists|k: int| 0 <= k < prev.len() && unordered_key(#[trigger] prev[k]) == unordered_key(
            s.last(),
        ) {
            prev
        } else {
            prev.push(s.last())
        }
    }
}

/// Appends `pair` unless an entry of `out` already ties the same two particles.
fn push_unordered_unique(out: &mut Vec<(usize, usize)>, pair: (usize, usize))
    ensures
        final(out)@ == (if exists|k: int|
            0 <= k < old(out)@.len() && unordered_key(#[trigger] old(out)@[k]) == unordered_key(
                pair,
            ) {
            old(out)@
        } else {
            old(out)@.push(pair)
        }),
{
    let key = if pair.0 < pair.1 {
        pair
    } else {
        (pair.1, pair.0)
    };
    let mut k: usize = 0;
    while k < out.len()
        invariant
            k <= out.len(),
            out@ == old(out)@,
            key == unordered_key(pair),
            forall|j: int| 0 <= j < k ==> unordered_key(#[trigger] out@[j]) != key,
        decreases out.len() - k,
    {
        let e = out[k];
        let ek = if e.0 < e.1 {
            e
        } else {
            (e.1, e.0)
        };
        if ek.0 == key.0 && ek.1 == key.1 {
            return;
        }
        k = k + 1;
    }
    out.push(pair);
}

proof fn lemma_dedup_push(s: Seq<(usize, usize)>, x: (usize, usize))
    ensures
        dedup_unordered(s.push(x)) == (if exists|k: int|
            0 <= k < dedup_unordered(s).len() && unordered_key(#[trigger] dedup_unordered(s)[k])
                == unordered_key(x) {
            dedup_unordered(s)
        } else {
            dedup_unordered(s).push(x)
        }),
{
    assert(s.push(x).drop_last() =~= s);
}

/// The pairs that join each of `n` vertices to the vertex `step` further around the ring,
/// when `step` is at least two.
pub open spec fn step_pairs(n: nat, step: int) -> Seq<(usize, usize)> {
    if step < 2 {
        seq![]
    } else {
        Seq::new(n, |i: int| (i as usize, ((i + step) % (n as int)) as usize))
    }
}

/// The shear constraints of a polygon with `n` vertices: each vertex joined to the vertex a
/// third of the way around and to the one half of the way around (where those are at least
/// two vertices away), each pair of particles once. Polygons of fewer than four vertices
/// get none.
pub open spec fn shear_pairs_spec(n: nat) -> Seq<(usize, usize)> {
    if n < 4 {
        seq![]
    } else {
        dedup_unordered(step_pairs(n, (n / 3) as int) + step_pairs(n, (n / 2) as int))
    }
}

/// The particle pairs of the shear distance constraints of a body with `n` particles.
pub fn shear_constraint_pairs(n: usize) -> (pairs: Vec<(usize, usize)>)
    requires
        n + n / 2 <= usize::MAX,
    ensures
        pairs@ == shear_pairs_spec(n as nat),
{
    let mut pairs: Vec<(usize, usize)> = Vec::new();
    if n < 4 {
        proof {
            assert(pairs@ =~= shear_pairs_spec(n as nat));
        }
        return pairs;
    }
    let ghost all = step_pairs(n as nat, (n / 3) as int) + step_pairs(n as nat, (n / 2) as int);
    let ghost mut done: nat = 0;
    proof {
        assert(all.take(0) =~= seq![]);
        assert(pairs@ =~= dedup_unordered(all.take(0)));
    }
    let mut t: usize = 0;
    while t < 2
        invariant
            n >= 4,
            n + n / 2 <= usize::MAX,
            t <= 2,
            all == step_pairs(n as nat, (n / 3) as int) + step_pairs(n as nat, (n / 2) as int),
            done == (if t == 0 {
                0
            } else if t == 1 {
                step_pairs(n as nat, (n / 3) as int).len()
            } else {
                all.len()
            }),
            pairs@ == dedup_unordered(all.take(done as int)),
        decreases 2 - t,
    {
        let step = if t == 0 {
            n / 3
        } else {
            n / 2
        };
        if step >= 2 {
            let mut i: usize = 0;
            while i < n
                invariant
                    n >= 4,
                    n + n / 2 <= usize::MAX,
                    2 <= step <= n / 2,
                    t < 2,
                    step == (if t == 0 {
                        n / 3
                    } else {
                        n / 2
                    }),
                    all == step_pairs(n as nat, (n / 3) as int) + step_pairs(
                        n as nat,
                        (n / 2) as int,
                    ),
                    i <= n,
                    done == (if t == 0 {
                        0
                    } else {
                        step_pairs(n as nat, (n / 3) as int).len()
                    }) + i,
                    pairs@ == dedup_unordered(all.take(done as int)),
                decreases n - i,
            {
                let j = (i + step) % n;
                proof {
                    assert(all[done as int] == (i, j));
                    assert(all.take(done + 1int) =~= all.take(done as int).push((i, j)));
                    lemma_dedup_push(all.take(done as int), (i, j));
                }
                push_unordered_unique(&mut pairs, (i, j));
                proof {
                    done = done + 1;
                }
                i = i + 1;
            }
        }
        t = t + 1;
    }
    proof {
        assert(all.take(all.len() as int) =~= all);
    }
    pairs
}

/// The pairs that join each of `n` vertices of a ring to the vertex `step` further on.
pub open spec fn ring_step_pairs_spec(n: nat, step: int) -> Seq<(usize, usize)> {
    Seq::new(n, |i: int| (i as usize, ((i + step) % (n as int)) as usize))
}

/// Joins each of `n` vertices of a ring to the vertex `step` further on, as the polygon and
/// rectangle builders do for their outline (`step` one) and their diagonals.
pub fn ring_step_pairs(n: usize, step: usize) -> (pairs: Vec<(usize, usize)>)
    requires
        n > 0 ==> n - 1 + step <= usize::MAX,
    ensures
        pairs@ == ring_step_pairs_spec(n as nat, step as int),
{
    let mut pairs: Vec<(usize, usize)> = Vec::new();
    let mut i: usize = 0;
    while i < n
        invariant
            n > 0 ==> n - 1 + step <= usize::MAX,
            i <= n,
            pairs@ =~= ring_step_pairs_spec(n as nat, step as int).take(i as int),
        decreases n - i,
    {
        pairs.push((i, (i + step) % n));
        i = i + 1;
    }
    proof {
        assert(ring_step_pairs_spec(n as nat, step as int).take(n as int)
            =~= ring_step_pairs_spec(n as nat, step as int));
    }
    pairs
}

/// The step of the long shear link from vertex `i` of a ring of `n` vertices: half way
/// round, alternating between rounding down and up on odd rings, and at least two.
pub open spec fn opposite_step(n: int, i: int) -> int {
    let lo = if n / 2 < 2 {
        2
    } else {
        n / 2
    };
    let hi = if (n + 1) / 2 < 2 {
        2
    } else {
        (n + 1) / 2
    };
    if n % 2 == 0 || i % 2 == 0 {
        lo
    } else {
        hi
    }
}

/// The distance between the two vertices of `p` along a ring of `n` vertices, the shorter
/// way round.
pub open spec fn ring_distance(p: (usize, usize), n: int) -> int {
    let cw = (p.1 + n - p.0) % n;
    let ccw = (p.0 + n - p.1) % n;
    if cw < ccw {
        cw
    } else {
        ccw
    }
}

/// A shear link worth keeping: between two different vertices that are not neighbours.
pub open spec fn long_link(n: int) -> spec_fn((usize, usize)) -> bool {
    |p: (usize, usize)| p.0 != p.1 && ring_distance(p, n) > 1
}

/// The shape-aware shear constraints of a polygon with `n` vertices: every vertex linked to
/// the vertex opposite it (`opposite_step` further on), leaving out links between a vertex
/// and itself or a neighbour, each pair of particles once. Polygons of fewer than four
/// vertices get none.
pub open spec fn opposite_pairs_spec(n: nat) -> Seq<(usize, usize)> {
    if n < 4 {
        seq![]
    } else {
        dedup_unordered(
            Seq::new(
                n,
                |i: int| (i as usize, ((i + opposite_step(n as int, i)) % (n as int)) as usize),
            ).filter(long_link(n as int)),
        )
    }
}

/// The particle pairs of the shape-aware shear constraints of a body with `n` particles.
pub fn opposite_shear_pairs(n: usize) -> (pairs: Vec<(usize, usize)>)
    requires
        n + n <= usize::MAX,
    ensures
        pairs@ == opposite_pairs_spec(n as nat),
{
    let mut pairs: Vec<(usize, usize)> = Vec::new();
    if n < 4 {
        proof {
            assert(pairs@ =~= opposite_pairs_spec(n as nat));
        }
        return pairs;
    }
    let ghost cands = Seq::new(
        n as nat,
        |i: int| (i as usize, ((i + opposite_step(n as int, i)) % (n as int)) as usize),
    );
    let lo = if n / 2 < 2 {
        2
    } else {
        n / 2
    };
    let hi = if (n + 1) / 2 < 2 {
        2
    } else {
        (n + 1) / 2
    };
    proof {
        assert(cands.take(0).filter(long_link(n as int)) =~= seq![]);
    }
    let mut i: usize = 0;
    while i < n
        invariant
            n >= 4,
            n + n <= usize::MAX,
            i <= n,
            lo == n / 2,
            hi == (n + 1) / 2,
            cands == Seq::new(
                n as nat,
                |k: int| (k as usize, ((k + opposite_step(n as int, k)) % (n as int)) as usize),
            ),
            pairs@ == dedup_unordered(cands.take(i as int).filter(long_link(n as int))),
        decreases n - i,
    {
        let step = if n % 2 == 0 || i % 2 == 0 {
            lo
        } else {
            hi
        };
        let j = (i + step) % n;
        let cw = (j + n - i) % n;
        let ccw = (i + n - j) % n;
        let ring = if cw < ccw {
            cw
        } else {
            ccw
        };
        proof {
            assert(cands[i as int] == (i, j));
            assert(cands.take(i + 1) =~= cands.take(i as int).push((i, j)));
            cands.take(i as int).lemma_filter_push((i, j), long_link(n as int));
        }
        if i != j && ring > 1 {
            proof {
                lemma_dedup_push(cands.take(i as int).filter(long_link(n as int)), (i, j));
            }
            push_unordered_unique(&mut pairs, (i, j));
        }
        i = i + 1;
    }
    proof {
        assert(cands.take(n as int) =~= cands);
    }
    pairs
}

proof fn lemma_mod_once(x: int, m: int)
    requires
        0 <= x < 2 * m,
        0 < m,
    ensures
        x % m == (if x < m {
            x
        } else {
            x - m
        }),
{
    if x < m {
        vstd::arithmetic::div_mod::lemma_small_mod(x as nat, m as nat);
    } else {
        vstd::arithmetic::div_mod::lemma_mod_add_multiples_vanish(x - m, m);
        vstd::arithmetic::div_mod::lemma_small_mod((x - m) as nat, m as nat);
    }
}

/// No two entries of `s` tie the same two particles.
pub open spec fn distinct_ties(s: Seq<(usize, usize)>) -> bool {
    forall|a: int, b: int|
        0 <= a < b < s.len() ==> unordered_key(#[trigger] s[a]) != unordered_key(#[trigger] s[b])
}

/// Every entry of `dedup_unordered(s)` is an entry of `s`, and no two of them tie the same
/// particles.
pub proof fn lemma_dedup_unordered(s: Seq<(usize, usize)>)
    ensures
        distinct_ties(dedup_unordered(s)),
        forall|k: int|
            0 <= k < dedup_unordered(s).len() ==> s.contains(#[trigger] dedup_unordered(s)[k]),
    decreases s.len(),
{
    if s.len() > 0 {
        let prev = dedup_unordered(s.drop_last());
        lemma_dedup_unordered(s.drop_last());
        assert forall|k: int| 0 <= k < dedup_unordered(s).len() implies s.contains(
            #[trigger] dedup_unordered(s)[k],
        ) by {
            if k < prev.len() {
                let j = choose|j: int| 0 <= j < s.drop_last().len() && s.drop_last()[j] == prev[k];
                assert(s[j] == prev[k]);
            } else {
                assert(dedup_unordered(s)[k] == s[s.len() - 1]);
            }
        }
    }
}

/// The shear constraints of a polygon join two different particles of it, and no two of
/// them join the same two particles.
pub proof fn law_shear_pairs_distinct(n: nat)
    requires
        n <= usize::MAX,
    ensures
        distinct_ties(shear_pairs_spec(n)),
        forall|k: int|
            0 <= k < shear_pairs_spec(n).len() ==> (#[trigger] shear_pairs_spec(n)[k]).0 < n
                && shear_pairs_spec(n)[k].1 < n && shear_pairs_spec(n)[k].0 != shear_pairs_spec(
                n,
            )[k].1,
{
    if n >= 4 {
        let all = step_pairs(n, (n / 3) as int) + step_pairs(n, (n / 2) as int);
        lemma_dedup_unordered(all);
        assert forall|k: int| 0 <= k < shear_pairs_spec(n).len() implies (
        #[trigger] shear_pairs_spec(n)[k]).0 < n && shear_pairs_spec(n)[k].1 < n
            && shear_pairs_spec(n)[k].0 != shear_pairs_spec(n)[k].1 by {
            let p = shear_pairs_spec(n)[k];
            let j = choose|j: int| 0 <= j < all.len() && all[j] == p;
            let a = step_pairs(n, (n / 3) as int);
            if j < a.len() {
                let step = (n / 3) as int;
                assert(p == (j as usize, ((j + step) % (n as int)) as usize));
                lemma_mod_once(j + step, n as int);
            } else {
                let i = j - a.len();
                let step = (n / 2) as int;
                assert(p == all[j]);
                assert(p == (i as usize, ((i + step) % (n as int)) as usize));
                lemma_mod_once(i + step, n as int);
            }
        }
    }
}

/// Every pair of `s` has its particles tied by some pair of `dedup_unordered(s)`.
proof fn lemma_dedup_covers(s: Seq<(usize, usize)>, k: int)
    requires
        0 <= k < s.len(),
    ensures
        exists|m: int|
            0 <= m < dedup_unordered(s).len() && unordered_key(#[trigger] dedup_unordered(s)[m])
                == unordered_key(s[k]),
    decreases s.len(),
{
    let d = s.drop_last();
    let prev = dedup_unordered(d);
    assert(dedup_unordered(s) == if exists|j: int|
        0 <= j < prev.len() && unordered_key(#[trigger] prev[j]) == unordered_key(s.last()) {
        prev
    } else {
        prev.push(s.last())
    });
    if k < s.len() - 1 {
        lemma_dedup_covers(d, k);
        let m = choose|m: int|
            0 <= m < prev.len() && unordered_key(#[trigger] prev[m]) == unordered_key(d[k]);
        assert(d[k] == s[k]);
        assert(dedup_unordered(s)[m] == prev[m]);
    } else {
        if exists|j: int| 0 <= j < prev.len() && unordered_key(#[trigger] prev[j]) == unordered_key(
            s.last(),
        ) {
            let j = choose|j: int|
                0 <= j < prev.len() && unordered_key(#[trigger] prev[j]) == unordered_key(s.last());
            assert(dedup_unordered(s)[j] == prev[j]);
        } else {
            assert(dedup_unordered(s)[prev.len() as int] == s.last());
        }
    }
}

/// Some pair of `s` ties the particles of `p` (in either order).
pub open spec fn ties(s: Seq<(usize, usize)>, p: (usize, usize)) -> bool {
    exists|m: int| 0 <= m < s.len() && unordered_key(#[trigger] s[m]) == unordered_key(p)
}

/// Vertex `i` of a ring of `n` and the vertex half of the way around from it.
pub open spec fn half_partner(n: nat, i: int) -> (usize, usize) {
    (i as usize, ((i + n / 2) % (n as int)) as usize)
}

/// Vertex `i` of a ring of `n` and the vertex a third of the way around from it.
pub open spec fn third_partner(n: nat, i: int) -> (usize, usize) {
    (i as usize, ((i + n / 3) % (n as int)) as usize)
}

/// `p` joins some vertex of a ring of `n` to the vertex half of the way around, or, where a
/// third of the way around is at least two vertices, to the vertex a third of the way around.
pub open spec fn shear_link(n: nat, p: (usize, usize)) -> bool {
    exists|i: int|
        #![trigger half_partner(n, i)]
        #![trigger third_partner(n, i)]
        0 <= i < n && (p == half_partner(n, i) || (n / 3 >= 2 && p == third_partner(n, i)))
}

/// The shear constraints of a polygon with `n >= 4` vertices tie every vertex `i` to the
/// vertex half of the way around, and, where a third of the way around is at least two
/// vertices, to the vertex a third of the way around; and every shear pair is one of these.
pub proof fn law_shear_pairs_cover(n: nat)
    requires
        4 <= n <= usize::MAX,
    ensures
        forall|i: int| 0 <= i < n ==> #[trigger] ties(shear_pairs_spec(n), half_partner(n, i)),
        n / 3 >= 2 ==> forall|i: int|
            0 <= i < n ==> #[trigger] ties(shear_pairs_spec(n), third_partner(n, i)),
        forall|m: int|
            0 <= m < shear_pairs_spec(n).len() ==> #[trigger] shear_link(n, shear_pairs_spec(n)[m]),
{
    let a = step_pairs(n, (n / 3) as int);
    let b = step_pairs(n, (n / 2) as int);
    let all = a + b;
    assert forall|i: int| 0 <= i < n implies #[trigger] ties(
        shear_pairs_spec(n),
        half_partner(n, i),
    ) by {
        assert(all[a.len() + i] == b[i]);
        lemma_dedup_covers(all, a.len() + i);
    }
    if n / 3 >= 2 {
        assert forall|i: int| 0 <= i < n implies #[trigger] ties(
            shear_pairs_spec(n),
            third_partner(n, i),
        ) by {
            assert(all[i] == a[i]);
            lemma_dedup_covers(all, i);
        }
    }
    assert forall|m: int| 0 <= m < shear_pairs_spec(n).len() implies #[trigger] shear_link(
        n,
        shear_pairs_spec(n)[m],
    ) by {
        lemma_shear_pair_source(n, m);
    }
}

proof fn lemma_shear_pair_source(n: nat, m: int)
    requires
        4 <= n <= usize::MAX,
        0 <= m < shear_pairs_spec(n).len(),
    ensures
        shear_link(n, shear_pairs_spec(n)[m]),
{
    let a = step_pairs(n, (n / 3) as int);
    let b = step_pairs(n, (n / 2) as int);
    let all = a + b;
    lemma_dedup_unordered(all);
    let p = shear_pairs_spec(n)[m];
    assert(all.contains(p));
    let j = choose|j: int| 0 <= j < all.len() && all[j] == p;
    if j < a.len() {
        assert(p == a[j]);
        assert(n / 3 >= 2);
        assert(p == third_partner(n, j));
    } else {
        assert(p == b[j - a.len()]);
        assert(p == half_partner(n, j - a.len()));
    }
}

/// The shape-aware shear constraints of a polygon join particles that are not neighbours,
/// and no two of them join the same two particles.
pub proof fn law_opposite_pairs_distinct(n: nat)
    requires
        n <= usize::MAX,
    ensures
        distinct_ties(opposite_pairs_spec(n)),
        forall|k: int|
            0 <= k < opposite_pairs_spec(n).len() ==> long_link(n as int)(
                #[trigger] opposite_pairs_spec(n)[k],
            ),
{
    if n >= 4 {
        let cands = Seq::new(
            n,
            |i: int| (i as usize, ((i + opposite_step(n as int, i)) % (n as int)) as usize),
        );
        let f = cands.filter(long_link(n as int));
        lemma_dedup_unordered(f);
        assert forall|k: int| 0 <= k < opposite_pairs_spec(n).len() implies long_link(n as int)(
            #[trigger] opposite_pairs_spec(n)[k],
        ) by {
            let p = opposite_pairs_spec(n)[k];
            let j = choose|j: int| 0 <= j < f.len() && f[j] == p;
            cands.lemma_filter_pred(long_link(n as int), j);
        }
    }
}

/// The outline of a polygon with at least two vertices joins every vertex to the next one
/// around the ring, and never a vertex to itself.
pub proof fn law_boundary_pairs_ring(n: nat)
    requires
        n <= usize::MAX,
    ensures
        forall|k: int|
            0 <= k < boundary_pairs_spec(n).len() ==> {
                let p = #[trigger] boundary_pairs_spec(n)[k];
                &&& p.0 == k
                &&& p.1 < n
                &&& p.0 != p.1
                &&& (p.0 + 1) % (n as int) == p.1
            },
{
    assert forall|k: int| 0 <= k < boundary_pairs_spec(n).len() implies {
        let p = #[trigger] boundary_pairs_spec(n)[k];
        &&& p.0 == k
        &&& p.1 < n
        &&& p.0 != p.1
        &&& (p.0 + 1) % (n as int) == p.1
    } by {
        lemma_mod_once(k + 1, n as int);
    }
}

/// A bending constraint of a polygon with at least three vertices ties a vertex to two
/// different neighbours, neither of them the vertex itself.
pub proof fn law_bending_triples_distinct(n: nat)
    requires
        n <= usize::MAX,
    ensures
        forall|k: int|
            0 <= k < bending_triples_spec(n).len() ==> {
                let t = #[trigger] bending_triples_spec(n)[k];
                &&& t.1 == k
                &&& t.0 < n && t.2 < n
                &&& t.0 != t.1 && t.1 != t.2 && t.0 != t.2
            },
{
    assert forall|k: int| 0 <= k < bending_triples_spec(n).len() implies {
        let t = #[trigger] bending_triples_spec(n)[k];
        &&& t.1 == k
        &&& t.0 < n && t.2 < n
        &&& t.0 != t.1 && t.1 != t.2 && t.0 != t.2
    } by {
        let m = n as int;
        lemma_mod_once(k + m - 1, m);
        lemma_mod_once(k + 1, m);
    }
}

} // verus!
