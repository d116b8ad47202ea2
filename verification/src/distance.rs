use vstd::prelude::*;

use vstd::multiset::Multiset;
use vstd::seq_lib::group_to_multiset_ensures;

use crate::text;

verus! {

// ---------------------------------------------------------------------------
// Levenshtein distance
// ---------------------------------------------------------------------------

pub open spec fn min3(x: nat, y: nat, z: nat) -> nat {
    if x <= y && x <= z {
        x
    } else if y <= z {
        y
    } else {
        z
    }
}

/// The edit distance: the least number of character insertions, deletions
/// and substitutions that turn `a` into `b`.
pub open spec fn lev(a: Seq<char>, b: Seq<char>) -> nat
    decreases a.len() + b.len(),
{
    if a.len() == 0 {
        b.len()
    } else if b.len() == 0 {
        a.len()
    } else {
        min3(
            lev(a.drop_last(), b) + 1,
            lev(a, b.drop_last()) + 1,
            lev(a.drop_last(), b.drop_last()) + (if a.last() == b.last() {
                0nat
            } else {
                1nat
            }),
        )
    }
}

/// The distance never exceeds the two lengths together.
pub proof fn lemma_lev_bound(a: Seq<char>, b: Seq<char>)
    ensures
        lev(a, b) <= a.len() + b.len(),
    decreases a.len() + b.len(),
{
    if a.len() == 0 || b.len() == 0 {
    } else {
        lemma_lev_bound(a.drop_last(), b);
    }
}

/// The distance is never negative.
pub proof fn lemma_lev_nonneg(a: Seq<char>, b: Seq<char>)
    ensures
        lev(a, b) >= 0,
{
}

/// The distance is symmetric.
pub proof fn lemma_lev_symmetric(a: Seq<char>, b: Seq<char>)
    ensures
        lev(a, b) == lev(b, a),
    decreases a.len() + b.len(),
{
    if a.len() == 0 || b.len() == 0 {
    } else {
        lemma_lev_symmetric(a.drop_last(), b);
        lemma_lev_symmetric(a, b.drop_last());
        lemma_lev_symmetric(a.drop_last(), b.drop_last());
    }
}

/// The distance is zero exactly between equal strings.
pub proof fn lemma_lev_zero_iff(a: Seq<char>, b: Seq<char>)
    ensures
        (lev(a, b) == 0) <==> (a == b),
    decreases a.len() + b.len(),
{
    if a.len() == 0 {
        if b.len() == 0 {
            assert(a =~= b);
        } else {
            assert(a != b) by {
                assert(a.len() != b.len());
            }
        }
    } else if b.len() == 0 {
        assert(a != b) by {
            assert(a.len() != b.len());
        }
    } else {
        lemma_lev_zero_iff(a.drop_last(), b.drop_last());
        if lev(a, b) == 0 {
            assert(lev(a.drop_last(), b.drop_last()) == 0 && a.last() == b.last());
            assert(a =~= b) by {
                assert(a.drop_last() == b.drop_last());
                assert(forall|k: int|
                    0 <= k < a.len() - 1 ==> a[k] == a.drop_last()[k] && b[k] == b.drop_last()[k]);
            }
        }
        if a == b {
            assert(a.drop_last() =~= b.drop_last());
            assert(a.last() == b.last());
            assert(lev(a, b) == 0);
        }
    }
}

/// The edit distance between two strings, by the usual row-by-row dynamic
/// program.
pub fn levenshtein(a: &str, b: &str) -> (d: usize)
    requires
        a@.len() + b@.len() < usize::MAX,
    ensures
        d as nat == lev(a@, b@),
{
    let av = text::chars_vec(a);
    let bv = text::chars_vec(b);
    let m = av.len();
    let n = bv.len();
    let mut prev: Vec<usize> = Vec::new();
    let mut j: usize = 0;
    while j <= n
        invariant
            j <= n + 1,
            n == bv@.len(),
            m == av@.len(),
            av@ == a@,
            bv@ == b@,
            m + n < usize::MAX,
            prev@.len() == j,
            forall|k: int| 0 <= k < j ==> prev@[k] as nat == lev(av@.take(0), bv@.take(k)),
        decreases n + 1 - j,
    {
        proof {
            assert(av@.take(0).len() == 0);
            assert(lev(av@.take(0), bv@.take(j as int)) == bv@.take(j as int).len());
        }
        prev.push(j);
        j = j + 1;
    }
    let mut i: usize = 1;
    while i <= m
        invariant
            1 <= i <= m + 1,
            n == bv@.len(),
            m == av@.len(),
            av@ == a@,
            bv@ == b@,
            m + n < usize::MAX,
            prev@.len() == n + 1,
            forall|k: int| 0 <= k <= n ==> prev@[k] as nat == lev(av@.take(i - 1), bv@.take(k)),
        decreases m + 1 - i,
    {
        let mut cur: Vec<usize> = Vec::new();
        cur.push(i);
        proof {
            assert(bv@.take(0).len() == 0);
            assert(av@.take(i as int).len() == i);
            assert(lev(av@.take(i as int), bv@.take(0)) == i);
        }
        let mut j: usize = 1;
        while j <= n
            invariant
                1 <= i <= m,
                1 <= j <= n + 1,
                n == bv@.len(),
                m == av@.len(),
                m + n < usize::MAX,
                prev@.len() == n + 1,
                forall|k: int| 0 <= k <= n ==> prev@[k] as nat == lev(av@.take(i - 1), bv@.take(k)),
                cur@.len() == j,
                forall|k: int| 0 <= k < j ==> cur@[k] as nat == lev(av@.take(i as int), bv@.take(k)),
            decreases n + 1 - j,
        {
            proof {
                lemma_lev_bound(av@.take(i - 1), bv@.take(j as int));
                lemma_lev_bound(av@.take(i as int), bv@.take(j - 1));
                lemma_lev_bound(av@.take(i - 1), bv@.take(j - 1));
            }
            let cost: usize = if av[i - 1] == bv[j - 1] {
                0
            } else {
                1
            };
            let del = prev[j] + 1;
            let ins = cur[j - 1] + 1;
            let sub = prev[j - 1] + cost;
            let mut d = del;
            if ins < d {
                d = ins;
            }
            if sub < d {
                d = sub;
            }
            proof {
                assert(av@.take(i as int).drop_last() =~= av@.take(i - 1));
                assert(bv@.take(j as int).drop_last() =~= bv@.take(j - 1));
                assert(av@.take(i as int).last() == av@[i - 1]);
                assert(bv@.take(j as int).last() == bv@[j - 1]);
                assert(d as nat == lev(av@.take(i as int), bv@.take(j as int)));
            }
            cur.push(d);
            j = j + 1;
        }
        prev = cur;
        i = i + 1;
    }
    proof {
        assert(av@.take(m as int) =~= av@);
        assert(bv@.take(n as int) =~= bv@);
    }
    prev[n]
}

// ---------------------------------------------------------------------------
// Ranking by distance
// ---------------------------------------------------------------------------

/// Strict order on (distance, position) pairs: by distance, then by the
/// position in the snapshot.
pub open spec fn pair_lt(x: (usize, usize), y: (usize, usize)) -> bool {
    x.0 < y.0 || (x.0 == y.0 && x.1 < y.1)
}

pub open spec fn pair_le(x: (usize, usize), y: (usize, usize)) -> bool {
    x.0 < y.0 || (x.0 == y.0 && x.1 <= y.1)
}

/// Ascending by distance; equal distances keep snapshot order.
pub open spec fn sorted_pairs(s: Seq<(usize, usize)>) -> bool {
    forall|i: int, j: int| 0 <= i < j < s.len() ==> pair_le(#[trigger] s[i], #[trigger] s[j])
}

fn pair_lt_exec(x: (usize, usize), y: (usize, usize)) -> (r: bool)
    ensures
        r == pair_lt(x, y),
{
    x.0 < y.0 || (x.0 == y.0 && x.1 < y.1)
}

/// Sorts distance pairs ascending, equal distances keeping their original
/// relative order of positions.
pub fn sort_pairs(arr: Vec<(usize, usize)>) -> (r: Vec<(usize, usize)>)
    ensures
        sorted_pairs(r@),
        r@.to_multiset() == arr@.to_multiset(),
        r@.len() == arr@.len(),
{
    broadcast use group_to_multiset_ensures;

    let ghost orig = arr@;
    let mut rest = arr;
    let mut out: Vec<(usize, usize)> = Vec::new();
    while rest.len() > 0
        invariant
            out@.to_multiset().add(rest@.to_multiset()) =~= orig.to_multiset(),
            out@.len() + rest@.len() == orig.len(),
            sorted_pairs(out@),
            forall|x: int, y: int|
                0 <= x < out@.len() && 0 <= y < rest@.len() ==> pair_le(
                    #[trigger] out@[x],
                    #[trigger] rest@[y],
                ),
        decreases rest@.len(),
    {
        let rn = rest.len();
        let mut mi: usize = 0;
        let mut k: usize = 1;
        while k < rn
            invariant
                mi < k <= rn,
                rn == rest@.len(),
                forall|y: int| 0 <= y < k ==> pair_le(rest@[mi as int], #[trigger] rest@[y]),
            decreases rn - k,
        {
            if pair_lt_exec(rest[k], rest[mi]) {
                mi = k;
            }
            k = k + 1;
        }
        let ghost prev_out = out@;
        let ghost prev_rest = rest@;
        let x = rest.remove(mi);
        out.push(x);
        proof {
            prev_rest.to_multiset_ensures();
            prev_out.to_multiset_ensures();
            assert(rest@ =~= prev_rest.remove(mi as int));
            assert(prev_rest.remove(mi as int).to_multiset() =~= prev_rest.to_multiset().remove(
                prev_rest[mi as int],
            ));
            assert(rest@.to_multiset() =~= prev_rest.to_multiset().remove(x));
            assert(out@ == prev_out.push(x));
            assert(prev_out.push(x).to_multiset() =~= prev_out.to_multiset().insert(x));
            assert(out@.to_multiset() =~= prev_out.to_multiset().insert(x));
            assert(prev_rest.to_multiset().contains(x));
            assert(out@.to_multiset().add(rest@.to_multiset()) =~= orig.to_multiset());
            assert forall|y: int| 0 <= y < rest@.len() implies pair_le(x, #[trigger] rest@[y]) by {
                if y < mi {
                    assert(rest@[y] == prev_rest[y]);
                } else {
                    assert(rest@[y] == prev_rest[y + 1]);
                }
            }
            assert(sorted_pairs(out@));
        }
    }
    proof {
        rest@.to_multiset_ensures();
        assert(rest@.to_multiset() =~= Multiset::<(usize, usize)>::empty());
        assert(out@.to_multiset() =~= orig.to_multiset());
    }
    out
}

/// The first `k` entries, or all of them if fewer.
pub fn take_prefix(v: &Vec<(usize, usize)>, k: usize) -> (r: Vec<(usize, usize)>)
    ensures
        r@ == if k <= v@.len() {
            v@.take(k as int)
        } else {
            v@
        },
{
    let n = v.len();
    let bound = if k < n {
        k
    } else {
        n
    };
    let mut r: Vec<(usize, usize)> = Vec::new();
    let mut i: usize = 0;
    while i < bound
        invariant
            i <= bound <= n,
            n == v@.len(),
            r@ =~= v@.take(i as int),
        decreases bound - i,
    {
        r.push(v[i]);
        proof {
            assert(r@ =~= v@.take(i + 1));
        }
        i = i + 1;
    }
    proof {
        if k > v@.len() {
            assert(v@.take(n as int) =~= v@);
        }
    }
    r
}

/// In a sorted ranking, an entry that did not make the first `k` is at
/// least as far as each entry that did.
pub proof fn lemma_sorted_prefix_optimal(s: Seq<(usize, usize)>, k: int, p: (usize, usize))
    requires
        sorted_pairs(s),
        0 <= k <= s.len(),
        s.to_multiset().contains(p),
        !s.take(k).contains(p),
    ensures
        forall|i: int| 0 <= i < k ==> pair_le(s[i], p),
{
    s.to_multiset_ensures();
    assert(s.contains(p));
    let idx = choose|idx: int| 0 <= idx < s.len() && s[idx] == p;
    if idx < k {
        assert(s.take(k)[idx] == p);
        assert(s.take(k).contains(p));
    }
    assert(forall|i: int| 0 <= i < k ==> pair_le(s[i], s[idx]));
}


/// The head of a ranking: sorts the pairs and keeps the first `k`. The
/// entries returned are entries of the input, pairwise distinct, in
/// ascending order, and no entry left behind ranks before any of them.
pub fn rank_top(pairs: Vec<(usize, usize)>, k: usize) -> (r: Vec<(usize, usize)>)
    requires
        pairs@.no_duplicates(),
    ensures
        r@.len() == if k <= pairs@.len() {
            k as int
        } else {
            pairs@.len() as int
        },
        sorted_pairs(r@),
        forall|j: int| 0 <= j < r@.len() ==> pairs@.contains(#[trigger] r@[j]),
        forall|j1: int, j2: int| 0 <= j1 < j2 < r@.len() ==> r@[j1] != r@[j2],
        forall|j: int, p: (usize, usize)|
            #![trigger r@[j], pairs@.contains(p)]
            0 <= j < r@.len() && pairs@.contains(p) && !r@.contains(p) ==> pair_le(r@[j], p),
{
    let ghost orig = pairs@;
    proof {
        orig.lemma_multiset_has_no_duplicates();
    }
    let sorted = sort_pairs(pairs);
    proof {
        sorted@.lemma_multiset_has_no_duplicates_conv();
        sorted@.to_multiset_ensures();
        orig.to_multiset_ensures();
    }
    let r = take_prefix(&sorted, k);
    proof {
        let m = r@.len() as int;
        assert(r@ =~= sorted@.take(m));
        assert forall|j: int| 0 <= j < m implies orig.contains(#[trigger] r@[j]) by {
            assert(r@[j] == sorted@[j]);
            assert(sorted@.contains(sorted@[j]));
            assert(sorted@.to_multiset().count(sorted@[j]) > 0);
            assert(orig.to_multiset().count(sorted@[j]) > 0);
        }
        assert forall|j1: int, j2: int| 0 <= j1 < j2 < m implies r@[j1] != r@[j2] by {
            assert(sorted@[j1] == r@[j1] && sorted@[j2] == r@[j2]);
        }
        assert forall|j: int, p: (usize, usize)|
            #![trigger r@[j], orig.contains(p)]
            0 <= j < m && orig.contains(p) && !r@.contains(p) implies pair_le(r@[j], p) by {
            assert(orig.to_multiset().count(p) > 0);
            assert(sorted@.to_multiset().contains(p));
            lemma_sorted_prefix_optimal(sorted@, m, p);
        }
    }
    r
}

} // verus!
