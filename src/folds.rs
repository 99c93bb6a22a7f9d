//! Deterministic cross-validation folds: a seeded shuffle of the day groups,
//! cut into contiguous slices, the last slice taking the remainder.
use rand::rngs::StdRng;
use rand::seq::SliceRandom;
use rand::SeedableRng;
use vstd::prelude::*;
use vstd::seq_lib::group_to_multiset_ensures;

verus! {

/// Default number of folds.
pub const FOLDS: usize = 10;

/// Every byte of the default shuffle seed.
pub const SEED_BYTE: u8 = 42;

/// The order that rand's seeded shuffle puts `items` in.
pub uninterp spec fn shuffled(seed: Seq<u8>, items: Seq<usize>) -> Seq<usize>;

/// Relies on `rand::rngs::StdRng::from_seed` and `SliceRandom::shuffle`:
/// the shuffle swaps elements in place, driven by the seeded generator alone,
/// so the result is a rearrangement that the seed and the items decide.
#[verifier::external_body]
fn shuffle_seeded(items: &mut Vec<usize>, seed: [u8; 32])
    ensures
        final(items)@ == shuffled(seed@, old(items)@),
        final(items)@.to_multiset() == old(items)@.to_multiset(),
{
    let mut rng = StdRng::from_seed(seed);
    items.shuffle(&mut rng);
}

/// The numbers `0` to `n - 1` in increasing order.
pub open spec fn identity(n: nat) -> Seq<usize> {
    Seq::new(n, |i: int| i as usize)
}

/// The group indices `0` to `n - 1` in shuffled order.
pub open spec fn spec_order(n: nat, seed: Seq<u8>) -> Seq<usize> {
    shuffled(seed, identity(n))
}

/// First position of fold `f` of `k` over `n` groups.
pub open spec fn fold_start(n: int, k: int, f: int) -> int {
    f * (n / k)
}

/// Position after the last one of fold `f`: the last fold runs to the end.
pub open spec fn fold_end(n: int, k: int, f: int) -> int {
    if f == k - 1 {
        n
    } else {
        (f + 1) * (n / k)
    }
}

/// The group indices in fold `f` of `k` over `n` groups.
pub open spec fn fold_members(n: nat, k: nat, seed: Seq<u8>, f: int) -> Seq<usize> {
    spec_order(n, seed).subrange(fold_start(n as int, k as int, f), fold_end(n as int, k as int, f))
}

/// Every number below `n` occurs in `s` exactly once, and nothing else.
pub open spec fn is_permutation(s: Seq<usize>, n: nat) -> bool {
    &&& s.len() == n
    &&& s.no_duplicates()
    &&& forall|i: int| 0 <= i < s.len() ==> (#[trigger] s[i]) < n
    &&& forall|v: int| 0 <= v < n ==> s.contains(#[trigger] (v as usize))
}

proof fn lemma_order_permutation(n: nat, seed: Seq<u8>, s: Seq<usize>)
    requires
        n <= usize::MAX,
        s == spec_order(n, seed),
        s.to_multiset() == identity(n).to_multiset(),
    ensures
        is_permutation(s, n),
{
    broadcast use group_to_multiset_ensures;

    let id = identity(n);
    assert forall|i: int, j: int| 0 <= i < id.len() && 0 <= j < id.len() && i != j implies id[i] != id[j] by {}
    assert(s.len() == s.to_multiset().len());
    assert(id.len() == id.to_multiset().len());
    assert(id.no_duplicates());
    id.lemma_multiset_has_no_duplicates();
    s.lemma_multiset_has_no_duplicates_conv();
    assert forall|i: int| 0 <= i < s.len() implies (#[trigger] s[i]) < n by {
        assert(s.contains(s[i]));
        assert(id.to_multiset().count(s[i]) > 0);
        assert(id.contains(s[i]));
    }
    assert forall|v: int| 0 <= v < n implies s.contains(#[trigger] (v as usize)) by {
        assert(id[v] == v as usize);
        assert(id.contains(v as usize));
        assert(s.to_multiset().count(v as usize) > 0);
    }
}

/// The shuffled order of `n` group indices under `seed`.
pub fn fold_order(n: usize, seed: [u8; 32]) -> (r: Vec<usize>)
    ensures
        r@ == spec_order(n as nat, seed@),
        is_permutation(r@, n as nat),
{
    let mut items: Vec<usize> = Vec::new();
    let mut i: usize = 0;
    while i < n
        invariant
            i <= n,
            items@ == identity(i as nat),
        decreases n - i,
    {
        items.push(i);
        i += 1;
        assert(items@ == identity(i as nat));
    }
    let ghost before = items@;
    shuffle_seeded(&mut items, seed);
    proof {
        lemma_order_permutation(n as nat, seed@, items@);
    }
    items
}

/// Fold `f` is a slice of the positions, and ends where fold `f + 1` starts.
pub proof fn lemma_fold_bounds(n: int, k: int, f: int)
    requires
        k >= 1,
        n >= 0,
        0 <= f < k,
    ensures
        0 <= fold_start(n, k, f) <= fold_end(n, k, f) <= n,
        f + 1 < k ==> fold_end(n, k, f) == fold_start(n, k, f + 1),
{
    let s = n / k;
    assert(0 <= k * s <= n) by (nonlinear_arith)
        requires
            s == n / k,
            k >= 1,
            n >= 0,
    ;
    assert(0 <= f * s <= (f + 1) * s) by (nonlinear_arith)
        requires
            0 <= f,
            0 <= s,
    ;
    assert(f * s <= k * s) by (nonlinear_arith)
        requires
            f < k,
            0 <= s,
    ;
    assert(fold_start(n, k, f) == f * s);
    if f + 1 < k {
        assert((f + 1) * s <= k * s) by (nonlinear_arith)
            requires
                f + 1 < k,
                0 <= s,
        ;
        assert(fold_end(n, k, f) == (f + 1) * s);
        assert(fold_start(n, k, f + 1) == (f + 1) * s);
    } else {
        assert(fold_end(n, k, f) == n);
    }
}

/// The group indices of each of `k` folds over `n` groups: the shuffled
/// order cut into `k` slices of `n / k`, the last one taking the rest.
pub fn fold_assignment(n: usize, k: usize, seed: [u8; 32]) -> (r: Vec<Vec<usize>>)
    requires
        k >= 1,
    ensures
        r@.len() == k,
        forall|f: int| 0 <= f < k ==> (#[trigger] r@[f])@ == fold_members(n as nat, k as nat, seed@, f),
        is_permutation(spec_order(n as nat, seed@), n as nat),
{
    let order = fold_order(n, seed);
    let size = n / k;
    let mut out: Vec<Vec<usize>> = Vec::new();
    let mut f: usize = 0;
    while f < k
        invariant
            f <= k,
            k >= 1,
            size == n / k,
            order@ == spec_order(n as nat, seed@),
            order@.len() == n,
            out@.len() == f,
            forall|g: int| 0 <= g < f ==> (#[trigger] out@[g])@ == fold_members(n as nat, k as nat, seed@, g),
        decreases k - f,
    {
        proof {
            lemma_fold_bounds(n as int, k as int, f as int);
        }
        let start = f * size;
        let end = if f == k - 1 { n } else { (f + 1) * size };
        let mut members: Vec<usize> = Vec::new();
        let mut p: usize = start;
        while p < end
            invariant
                start <= p <= end,
                end <= n,
                order@.len() == n,
                members@ == order@.subrange(start as int, p as int),
            decreases end - p,
        {
            members.push(order[p]);
            p += 1;
            assert(members@ == order@.subrange(start as int, p as int));
        }
        out.push(members);
        f += 1;
    }
    out
}


/// The folds before `upto` other than `f`, in order.
pub open spec fn spec_train_folds(f: int, upto: int) -> Seq<usize>
    decreases upto,
{
    if upto <= 0 {
        Seq::empty()
    } else if upto - 1 == f {
        spec_train_folds(f, upto - 1)
    } else {
        spec_train_folds(f, upto - 1).push((upto - 1) as usize)
    }
}

/// The folds whose groups make up the train set of fold `f`: every fold but
/// `f`, in fold order.
pub fn train_folds(folds: usize, f: usize) -> (r: Vec<usize>)
    ensures
        r@ == spec_train_folds(f as int, folds as int),
{
    let mut out: Vec<usize> = Vec::new();
    let mut g: usize = 0;
    while g < folds
        invariant
            g <= folds,
            out@ == spec_train_folds(f as int, g as int),
        decreases folds - g,
    {
        if g != f {
            out.push(g);
        }
        g += 1;
    }
    out
}

/// Fold `f` of `data` cut into `k` folds under `seed`: the groups whose
/// indices fold `f` holds, in shuffled order.
pub open spec fn spec_fold<T>(data: Seq<T>, k: nat, seed: Seq<u8>, f: int) -> Seq<T> {
    let members = fold_members(data.len(), k, seed, f);
    Seq::new(members.len(), |j: int| data[members[j] as int])
}

/// The default shuffle seed.
pub fn default_seed() -> (r: [u8; 32])
    ensures
        r@ == Seq::new(32, |i: int| SEED_BYTE),
{
    let r = [SEED_BYTE; 32];
    assert(r@ =~= Seq::new(32, |i: int| SEED_BYTE));
    r
}

/// Positions of `order` before `p` that hold `v`.
spec fn taken(order: Seq<usize>, p: int, v: int) -> bool {
    order.subrange(0, p).contains(v as usize)
}

/// Shuffles the day groups with the seeded generator and cuts them into
/// `folds` contiguous folds of `len / folds` groups, the last fold taking the
/// remainder. The same groups and seed always give the same folds.
pub fn shuffle_and_split_into_folds<T>(data: Vec<T>, folds: usize, seed: [u8; 32]) -> (r: Vec<Vec<T>>)
    requires
        folds >= 1,
    ensures
        r@.len() == folds,
        forall|f: int| 0 <= f < folds ==> (#[trigger] r@[f])@ == spec_fold(data@, folds as nat, seed@, f),
{
    let ghost all = data@;
    let n = data.len();
    let assignment = fold_assignment(n, folds, seed);
    let ghost order = spec_order(n as nat, seed@);
    let mut data = data;
    let mut slots: Vec<Option<T>> = Vec::new();
    let mut i: usize = 0;
    while data.len() > 0
        invariant
            all.len() == n,
            i <= n,
            data@ == all.skip(i as int),
            slots@.len() == i,
            forall|v: int| 0 <= v < i ==> (#[trigger] slots@[v]) == Some(all[v]),
        decreases data@.len(),
    {
        let item = data.remove(0);
        proof {
            assert(item == all[i as int]);
            assert(data@ == all.skip(i + 1));
        }
        slots.push(Some(item));
        i += 1;
    }
    let mut out: Vec<Vec<T>> = Vec::new();
    let mut f: usize = 0;
    let ghost mut done: int = 0;
    while f < folds
        invariant
            f < folds ==> done == fold_start(n as int, folds as int, f as int),
            0 <= done <= n,
            f <= folds,
            folds >= 1,
            all.len() == n,
            order == spec_order(n as nat, seed@),
            is_permutation(order, n as nat),
            assignment@.len() == folds,
            forall|g: int| 0 <= g < folds ==> (#[trigger] assignment@[g])@ == fold_members(n as nat, folds as nat, seed@, g),
            slots@.len() == n,
            forall|v: int| 0 <= v < n ==> (#[trigger] slots@[v]) == if taken(order, done, v) {
                None
            } else {
                Some(all[v])
            },
            out@.len() == f,
            forall|g: int| 0 <= g < f ==> (#[trigger] out@[g])@ == spec_fold(all, folds as nat, seed@, g),
        decreases folds - f,
    {
        proof {
            lemma_fold_bounds(n as int, folds as int, f as int);
        }
        let members = &assignment[f];
        let ghost start = fold_start(n as int, folds as int, f as int);
        let mut fold: Vec<T> = Vec::new();
        let mut j: usize = 0;
        while j < members.len()
            invariant
                j <= members@.len(),
                members@ == fold_members(n as nat, folds as nat, seed@, f as int),
                0 <= start <= start + members@.len() <= n,
                members@ == order.subrange(start, start + members@.len()),
                is_permutation(order, n as nat),
                all.len() == n,
                slots@.len() == n,
                forall|v: int| 0 <= v < n ==> (#[trigger] slots@[v]) == if taken(order, start + j, v) {
                    None
                } else {
                    Some(all[v])
                },
                fold@ == Seq::new(j as nat, |x: int| all[members@[x] as int]),
            decreases members@.len() - j,
        {
            let v = members[j];
            proof {
                assert(v == order[start + j]);
                assert(v < n);
                if taken(order, start + j, v as int) {
                    let q = choose|q: int| 0 <= q < start + j && #[trigger] order.subrange(0, start + j)[q] == v;
                    assert(order[q] == order[start + j]);
                }
            }
            let item = slots.remove(v);
            slots.insert(v, None);
            let item = item.unwrap();
            fold.push(item);
            proof {
                assert forall|w: int| 0 <= w < n implies (#[trigger] slots@[w]) == if taken(order, start + j + 1, w) {
                    None
                } else {
                    Some(all[w])
                } by {
                    let pre = order.subrange(0, start + j + 1);
                    assert(pre == order.subrange(0, start + j).push(v));
                    if w == v {
                        assert(pre[start + j] == v);
                    } else {
                        assert(taken(order, start + j + 1, w) == taken(order, start + j, w));
                    }
                }
                assert(fold@ =~= Seq::new((j + 1) as nat, |x: int| all[members@[x] as int]));
            }
            j += 1;
        }
        out.push(fold);
        proof {
            assert(fold_end(n as int, folds as int, f as int) == start + members@.len());
            done = start + members@.len();
        }
        f += 1;
    }
    out
}


/// The test slice of fold `f` of `k` over an order of group indices.
pub open spec fn test_slice(order: Seq<usize>, k: int, f: int) -> Seq<usize> {
    order.subrange(fold_start(order.len() as int, k, f), fold_end(order.len() as int, k, f))
}

/// The train set of fold `f`: the test slices of the folds before `upto`
/// other than `f`, in fold order.
pub open spec fn train_upto(order: Seq<usize>, k: int, f: int, upto: int) -> Seq<usize>
    decreases upto,
{
    if upto <= 0 {
        Seq::empty()
    } else if upto - 1 == f {
        train_upto(order, k, f, upto - 1)
    } else {
        train_upto(order, k, f, upto - 1) + test_slice(order, k, upto - 1)
    }
}

/// The train set of fold `f`: every other fold's test slice.
pub open spec fn train_set(order: Seq<usize>, k: int, f: int) -> Seq<usize> {
    train_upto(order, k, f, k)
}

/// Total size of the test slices of the first `g` folds.
pub open spec fn tested_upto(order: Seq<usize>, k: int, g: int) -> int
    decreases g,
{
    if g <= 0 {
        0
    } else {
        tested_upto(order, k, g - 1) + test_slice(order, k, g - 1).len()
    }
}

proof fn lemma_slices_ordered(n: int, k: int, g: int, h: int)
    requires
        k >= 1,
        n >= 0,
        0 <= g < h < k,
    ensures
        fold_end(n, k, g) <= fold_start(n, k, h),
    decreases h - g,
{
    lemma_fold_bounds(n, k, g);
    if g + 1 < h {
        lemma_fold_bounds(n, k, g + 1);
        lemma_slices_ordered(n, k, g + 1, h);
    }
}

proof fn lemma_position_fold(n: int, k: int, f: int, p: int)
    requires
        k >= 1,
        n >= 0,
        0 <= f < k,
        0 <= p < fold_end(n, k, f),
    ensures
        exists|g: int| 0 <= g <= f && fold_start(n, k, g) <= p < #[trigger] fold_end(n, k, g),
    decreases f,
{
    lemma_fold_bounds(n, k, f);
    assert(fold_start(n, k, 0) == 0) by (nonlinear_arith);
    if f > 0 && p < fold_start(n, k, f) {
        lemma_fold_bounds(n, k, f - 1);
        lemma_position_fold(n, k, f - 1, p);
        let g = choose|g: int| 0 <= g <= f - 1 && fold_start(n, k, g) <= p < #[trigger] fold_end(n, k, g);
    } else {
        assert(fold_start(n, k, f) <= p < fold_end(n, k, f));
    }
}

proof fn lemma_train_members(order: Seq<usize>, k: int, f: int, upto: int, v: usize)
    requires
        0 <= upto <= k,
        k >= 1,
    ensures
        train_upto(order, k, f, upto).contains(v) <==> exists|g: int| 0 <= g < upto && g != f && (#[trigger] test_slice(order, k, g)).contains(v),
    decreases upto,
{
    if upto > 0 {
        lemma_train_members(order, k, f, upto - 1, v);
        let prev = train_upto(order, k, f, upto - 1);
        if upto - 1 != f {
            let sl = test_slice(order, k, upto - 1);
            let cur = prev + sl;
            if cur.contains(v) {
                let i = choose|i: int| 0 <= i < cur.len() && cur[i] == v;
                if i < prev.len() {
                    assert(prev[i] == v);
                } else {
                    assert(sl[i - prev.len()] == v);
                }
            }
            if exists|g: int| 0 <= g < upto && g != f && (#[trigger] test_slice(order, k, g)).contains(v) {
                let g = choose|g: int| 0 <= g < upto && g != f && (#[trigger] test_slice(order, k, g)).contains(v);
                if g == upto - 1 {
                    let i = choose|i: int| 0 <= i < sl.len() && sl[i] == v;
                    assert(cur[prev.len() + i] == v);
                } else {
                    let i = choose|i: int| 0 <= i < prev.len() && prev[i] == v;
                    assert(cur[i] == v);
                }
            }
        }
    }
}

proof fn lemma_tested_upto(order: Seq<usize>, k: int, g: int)
    requires
        k >= 1,
        1 <= g <= k,
    ensures
        tested_upto(order, k, g) == fold_end(order.len() as int, k, g - 1),
    decreases g,
{
    let n = order.len() as int;
    lemma_fold_bounds(n, k, g - 1);
    let sl = test_slice(order, k, g - 1);
    assert(sl.len() == fold_end(n, k, g - 1) - fold_start(n, k, g - 1));
    if g > 1 {
        lemma_fold_bounds(n, k, g - 2);
        lemma_tested_upto(order, k, g - 1);
        assert(fold_end(n, k, g - 2) == fold_start(n, k, g - 1));
    } else {
        assert(fold_start(n, k, 0) == 0) by (nonlinear_arith);
    }
    assert(tested_upto(order, k, g) == tested_upto(order, k, g - 1) + sl.len());
}

/// Group `v` is in the test slice of fold `f0` and of no other fold.
pub open spec fn only_fold(order: Seq<usize>, k: int, v: int, f0: int) -> bool {
    &&& 0 <= f0 < k
    &&& forall|f: int| 0 <= f < k ==> (#[trigger] test_slice(order, k, f).contains(v as usize) <==> f == f0)
}

/// Group `v` is tested in exactly one fold.
pub open spec fn tested_once(order: Seq<usize>, k: int, v: int) -> bool {
    exists|f0: int| #[trigger] only_fold(order, k, v, f0)
}

/// Fold partition: over any order that holds each of the `n` group indices
/// once, with `k >= 1` folds, every group is in the test slice of exactly one
/// fold, it is in the train set of a fold exactly when it is not in that
/// fold's test slice (so in the train sets of the other `k - 1` folds), and
/// the test slices add up to all `n` groups.
pub proof fn lemma_folds_partition(order: Seq<usize>, n: nat, k: nat)
    requires
        is_permutation(order, n),
        k >= 1,
    ensures
        forall|v: int| 0 <= v < n ==> #[trigger] tested_once(order, k as int, v),
        forall|v: int, f: int| 0 <= v < n && 0 <= f < k ==> (#[trigger] train_set(order, k as int, f).contains(v as usize)
            <==> !test_slice(order, k as int, f).contains(v as usize)),
        tested_upto(order, k as int, k as int) == n,
{
    let ki = k as int;
    let ni = n as int;
    assert forall|v: int| 0 <= v < n implies #[trigger] tested_once(order, ki, v) by {
        assert(order.contains(v as usize));
        let p = choose|p: int| 0 <= p < order.len() && order[p] == v as usize;
        lemma_fold_bounds(ni, ki, ki - 1);
        lemma_position_fold(ni, ki, ki - 1, p);
        let f0 = choose|g: int| 0 <= g <= ki - 1 && fold_start(ni, ki, g) <= p < #[trigger] fold_end(ni, ki, g);
        assert forall|f: int| 0 <= f < k implies (#[trigger] test_slice(order, ki, f).contains(v as usize) <==> f == f0) by {
            lemma_fold_bounds(ni, ki, f);
            let sl = test_slice(order, ki, f);
            if f == f0 {
                assert(sl[p - fold_start(ni, ki, f)] == v as usize);
            }
            if sl.contains(v as usize) {
                let i = choose|i: int| 0 <= i < sl.len() && sl[i] == v as usize;
                let q = fold_start(ni, ki, f) + i;
                assert(order[q] == order[p]);
                assert(q == p);
                if f < f0 {
                    lemma_slices_ordered(ni, ki, f, f0);
                } else if f > f0 {
                    lemma_slices_ordered(ni, ki, f0, f);
                }
            }
        }
        assert(only_fold(order, ki, v, f0));
    }
    assert forall|v: int, f: int| 0 <= v < n && 0 <= f < k implies (#[trigger] train_set(order, ki, f).contains(v as usize)
        <==> !test_slice(order, ki, f).contains(v as usize)) by {
        lemma_train_members(order, ki, f, ki, v as usize);
        assert(tested_once(order, ki, v));
        let f0 = choose|f0: int| #[trigger] only_fold(order, ki, v, f0);
        if !test_slice(order, ki, f).contains(v as usize) {
            assert(test_slice(order, ki, f0).contains(v as usize));
        }
    }
    lemma_tested_upto(order, ki, ki);
}

/// Re-running the split on the same groups with the same seed gives the same
/// folds, group for group.
pub proof fn lemma_folds_reproducible<T>(a: Seq<T>, b: Seq<T>, k: nat, seed: Seq<u8>)
    requires
        a == b,
    ensures
        forall|f: int| 0 <= f < k ==> #[trigger] spec_fold(a, k, seed, f) == spec_fold(b, k, seed, f),
{
}

} // verus!
