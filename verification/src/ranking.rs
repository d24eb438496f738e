use vstd::prelude::*;

verus! {

/// Chunk `i` ranks ahead of chunk `j`: its score is higher, or the scores
/// tie and `i` comes first (the order of a stable sort by descending score).
pub open spec fn ranks_before(keys: Seq<u32>, i: int, j: int) -> bool {
    keys[i] > keys[j] || (keys[i] == keys[j] && i < j)
}

/// `r` is the first `min(k, keys.len())` positions of the stable ordering of
/// `keys` by descending score: in ranking order, and ahead of every position
/// left out.
pub open spec fn is_top(keys: Seq<u32>, r: Seq<usize>, k: nat) -> bool {
    &&& r.len() == (if k < keys.len() { k } else { keys.len() })
    &&& forall|a: int| 0 <= a < r.len() ==> #[trigger] r[a] < keys.len()
    &&& forall|a: int, b: int|
        0 <= a < b < r.len() ==> ranks_before(keys, #[trigger] r[a] as int, #[trigger] r[b] as int)
    &&& forall|j: int, a: int|
        0 <= j < keys.len() && !r.contains(j as usize) && 0 <= a < r.len() ==> #[trigger] ranks_before(
            keys,
            r[a] as int,
            j,
        )
}

proof fn lemma_covering_is_long(s: Seq<usize>, n: nat)
    requires
        n <= usize::MAX,
        forall|a: int, b: int| 0 <= a < s.len() && 0 <= b < s.len() && a != b ==> s[a] != s[b],
        forall|a: int| 0 <= a < s.len() ==> s[a] < n,
        forall|i: usize| i < n ==> s.contains(i),
    ensures
        s.len() >= n,
    decreases n,
{
    if n > 0 {
        let m = (n - 1) as usize;
        assert(s.contains(m));
        let p = choose|p: int| 0 <= p < s.len() && s[p] == m;
        let t = s.remove(p);
        assert forall|a: int| 0 <= a < t.len() implies t[a] < n - 1 by {
            if a < p {
                assert(t[a] == s[a]);
            } else {
                assert(t[a] == s[a + 1]);
            }
        }
        assert forall|a: int, b: int| 0 <= a < t.len() && 0 <= b < t.len() && a != b implies t[a]
            != t[b] by {
            let a2 = if a < p { a } else { a + 1 };
            let b2 = if b < p { b } else { b + 1 };
            assert(t[a] == s[a2] && t[b] == s[b2]);
        }
        assert forall|i: usize| i < n - 1 implies t.contains(i) by {
            assert(s.contains(i));
            let q = choose|q: int| 0 <= q < s.len() && s[q] == i;
            if q < p {
                assert(t[q] == s[q]);
            } else {
                assert(t[q - 1] == s[q]);
            }
        }
        lemma_covering_is_long(t, (n - 1) as nat);
    }
}

/// The first `k` positions of the stable ordering of `keys` by descending
/// score (see `is_top`, which determines them: `lemma_top_is_unique`).
pub open spec fn top_positions(keys: Seq<u32>, k: nat) -> Seq<usize> {
    choose|r: Seq<usize>| is_top(keys, r, k)
}

fn holds_index(r: &Vec<usize>, x: usize) -> (b: bool)
    ensures
        b == r@.contains(x),
{
    let mut i: usize = 0;
    while i < r.len()
        invariant
            i <= r@.len(),
            forall|a: int| 0 <= a < i ==> r@[a] != x,
        decreases r@.len() - i,
    {
        if r[i] == x {
            return true;
        }
        i = i + 1;
    }
    false
}

/// The positions of the `k` best-scoring chunks, best first; equal scores
/// keep their order in the list. Fewer than `k` chunks give all of them.
pub fn top_indices(keys: &Vec<u32>, k: usize) -> (r: Vec<usize>)
    ensures
        is_top(keys@, r@, k as nat),
        r@ == top_positions(keys@, k as nat),
{
    let n = keys.len();
    let mut r: Vec<usize> = Vec::new();
    while r.len() < k && r.len() < n
        invariant
            n == keys@.len(),
            r@.len() <= k,
            is_top(keys@, r@, r@.len() as nat),
        decreases k - r@.len(),
    {
        let mut best: usize = n;
        let mut j: usize = 0;
        while j < n
            invariant
                j <= n,
                n == keys@.len(),
                best == n || (best < j && !r@.contains(best)),
                forall|i: usize|
                    i < j && !r@.contains(i) ==> best < n && (best == i || ranks_before(
                        keys@,
                        best as int,
                        i as int,
                    )),
            decreases n - j,
        {
            let ghost old_best = best;
            let free = !holds_index(&r, j);
            if free {
                if best == n || keys[j] > keys[best] {
                    best = j;
                }
            }
            proof {
                assert forall|i: usize| i < j + 1 && !r@.contains(i) implies best < n && (best == i
                    || ranks_before(keys@, best as int, i as int)) by {
                    if i < j {
                        assert(old_best < n);
                    }
                }
            }
            j = j + 1;
        }
        proof {
            if best == n {
                assert forall|a: int, b: int|
                    0 <= a < r@.len() && 0 <= b < r@.len() && a != b implies r@[a] != r@[b] by {
                    if a < b {
                        assert(ranks_before(keys@, r@[a] as int, r@[b] as int));
                    } else {
                        assert(ranks_before(keys@, r@[b] as int, r@[a] as int));
                    }
                }
                assert forall|i: usize| i < n implies r@.contains(i) by {
                    if !r@.contains(i) {
                        assert(best < n);
                    }
                }
                lemma_covering_is_long(r@, n as nat);
                assert(false);
            }
        }
        let ghost prev = r@;
        r.push(best);
        proof {
            assert forall|a: int| 0 <= a < r@.len() implies #[trigger] r@[a] < keys@.len() by {
                if a < prev.len() {
                    assert(r@[a] == prev[a]);
                }
            }
            assert forall|a: int, b: int| 0 <= a < b < r@.len() implies ranks_before(
                keys@,
                #[trigger] r@[a] as int,
                #[trigger] r@[b] as int,
            ) by {
                assert(r@[a] == prev[a]);
                if b < prev.len() {
                    assert(r@[b] == prev[b]);
                } else {
                    assert(!prev.contains(best));
                }
            }
            assert forall|i: int, a: int|
                0 <= i < keys@.len() && !r@.contains(i as usize) && 0 <= a < r@.len() implies #[trigger] ranks_before(
                keys@,
                r@[a] as int,
                i,
            ) by {
                assert(r@[r@.len() - 1] == best);
                if prev.contains(i as usize) {
                    let q = choose|q: int| 0 <= q < prev.len() && prev[q] == i as usize;
                    assert(r@[q] == prev[q]);
                }
                if a < prev.len() {
                    assert(r@[a] == prev[a]);
                } else {
                    assert(i as usize != best);
                }
            }
        }
    }
    proof {
        let found = r@;
        assert(is_top(keys@, found, k as nat));
        let t = top_positions(keys@, k as nat);
        assert(is_top(keys@, t, k as nat));
        lemma_top_is_unique(keys@, r@, t, k as nat);
    }
    r
}

/// The selection is determined: two selections of the `k` best positions of
/// the same scores are equal.
pub proof fn lemma_top_is_unique(keys: Seq<u32>, r1: Seq<usize>, r2: Seq<usize>, k: nat)
    requires
        is_top(keys, r1, k),
        is_top(keys, r2, k),
    ensures
        r1 == r2,
{
    assert forall|p: int| 0 <= p < r1.len() implies r1[p] == r2[p] by {
        lemma_top_agree_upto(keys, r1, r2, k, p + 1);
    }
    assert(r1 =~= r2);
}

proof fn lemma_top_agree_upto(keys: Seq<u32>, r1: Seq<usize>, r2: Seq<usize>, k: nat, p: int)
    requires
        is_top(keys, r1, k),
        is_top(keys, r2, k),
        0 <= p <= r1.len(),
    ensures
        forall|q: int| 0 <= q < p ==> r1[q] == r2[q],
    decreases p,
{
    if p > 0 {
        lemma_top_agree_upto(keys, r1, r2, k, p - 1);
        let q = p - 1;
        let x = r1[q];
        let y = r2[q];
        if x != y {
            assert(ranks_before(keys, x as int, y as int)) by {
                if r1.contains(y) {
                    let c = choose|c: int| 0 <= c < r1.len() && r1[c] == y;
                    if c < q {
                        assert(r2[c] == y);
                        assert(ranks_before(keys, r2[c] as int, r2[q] as int));
                    } else {
                        assert(ranks_before(keys, r1[q] as int, r1[c] as int));
                    }
                }
            }
            assert(ranks_before(keys, y as int, x as int)) by {
                if r2.contains(x) {
                    let c = choose|c: int| 0 <= c < r2.len() && r2[c] == x;
                    if c < q {
                        assert(r1[c] == x);
                        assert(ranks_before(keys, r1[c] as int, r1[q] as int));
                    } else {
                        assert(ranks_before(keys, r2[q] as int, r2[c] as int));
                    }
                }
            }
        }
    }
}

} // verus!
