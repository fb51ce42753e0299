//! Greedy suppression, the decision step of non-maximum suppression.
//!
//! Detections arrive sorted by confidence, highest first. Whether detection
//! `i` overlaps detection `j` strongly enough to suppress it is given as a
//! square table `overlaps`, where `overlaps[i][j]` is read only for `i < j`.
//! A detection is kept when no earlier kept detection overlaps it; a kept
//! detection suppresses every later detection it overlaps.

use vstd::prelude::*;

verus! {

/// The overlap table as a sequence of rows.
pub open spec fn table_view(overlaps: Seq<Vec<bool>>) -> Seq<Seq<bool>> {
    overlaps.map_values(|row: Vec<bool>| row@)
}

/// `overlaps` is an `n x n` table.
pub open spec fn is_square(overlaps: Seq<Seq<bool>>, n: int) -> bool {
    &&& overlaps.len() == n
    &&& forall|i: int| 0 <= i < n ==> (#[trigger] overlaps[i]).len() == n
}

/// Detection `i` overlaps the later detection `j`.
pub open spec fn overlaps_at(overlaps: Seq<Seq<bool>>, i: int, j: int) -> bool {
    overlaps[i][j]
}

/// Indices strictly increase and lie below `n`.
pub open spec fn increasing_below(keep: Seq<usize>, n: int) -> bool {
    &&& forall|a: int| 0 <= a < keep.len() ==> (#[trigger] keep[a]) < n
    &&& forall|a: int, b: int| 0 <= a < b < keep.len() ==> keep[a] < keep[b]
}

/// Some kept detection before `j` overlaps `j`.
pub open spec fn suppressed_by(overlaps: Seq<Seq<bool>>, keep: Seq<usize>, j: int) -> bool {
    exists|a: int|
        0 <= a < keep.len() && keep[a] < j && #[trigger] overlaps_at(overlaps, keep[a] as int, j)
}

/// `keep` is the result of greedy suppression over the first `n` detections:
/// it lists, in order, exactly the detections that no earlier kept detection
/// overlaps.
pub open spec fn is_greedy_selection(overlaps: Seq<Seq<bool>>, n: int, keep: Seq<usize>) -> bool {
    &&& increasing_below(keep, n)
    &&& forall|j: int| 0 <= j < n ==> (keep.contains(j as usize) <==> !suppressed_by(overlaps, keep, j))
}

/// Greedy non-maximum suppression over detections sorted by confidence.
///
/// Returns the indices of the detections that are kept, in their input order.
pub fn greedy_suppress(overlaps: &Vec<Vec<bool>>) -> (keep: Vec<usize>)
    requires
        is_square(table_view(overlaps@), overlaps@.len() as int),
    ensures
        is_greedy_selection(table_view(overlaps@), overlaps@.len() as int, keep@),
{
    let ghost t = table_view(overlaps@);
    let n = overlaps.len();
    let mut suppressed: Vec<bool> = Vec::new();
    let mut k: usize = 0;
    while k < n
        invariant
            k <= n,
            suppressed@.len() == k,
            forall|j: int| 0 <= j < k ==> !(#[trigger] suppressed@[j]),
        decreases n - k,
    {
        suppressed.push(false);
        k = k + 1;
    }
    let mut keep: Vec<usize> = Vec::new();
    let mut i: usize = 0;
    while i < n
        invariant
            n == overlaps@.len(),
            t == table_view(overlaps@),
            is_square(t, n as int),
            i <= n,
            suppressed@.len() == n,
            increasing_below(keep@, i as int),
            forall|j: int|
                0 <= j < i ==> (keep@.contains(j as usize) <==> !suppressed_by(
                    t,
                    keep@,
                    j,
                )),
            forall|j: int|
                i <= j < n ==> (#[trigger] suppressed@[j] <==> suppressed_by(t, keep@, j)),
        decreases n - i,
    {
        if !suppressed[i] {
            let ghost old_keep = keep@;
            keep.push(i);
            let mut j: usize = i + 1;
            while j < n
                invariant
                    n == overlaps@.len(),
                    t == table_view(overlaps@),
                    is_square(t, n as int),
                    i < n,
                    i + 1 <= j <= n,
                    suppressed@.len() == n,
                    keep@ == old_keep.push(i),
                    increasing_below(old_keep, i as int),
                    forall|m: int|
                        i < m < j ==> (#[trigger] suppressed@[m] <==> suppressed_by(
                            t,
                            keep@,
                            m,
                        )),
                    forall|m: int|
                        j <= m < n ==> (#[trigger] suppressed@[m] <==> suppressed_by(
                            t,
                            old_keep,
                            m,
                        )),
                decreases n - j,
            {
                let row = &overlaps[i];
                proof {
                    assert(t[i as int] == overlaps@[i as int]@);
                }
                if !suppressed[j] && row[j] {
                    suppressed.set(j, true);
                }
                proof {
                    lemma_suppressed_by_push(t, old_keep, i, j as int);
                }
                j = j + 1;
            }
            proof {
                assert forall|m: int| 0 <= m < i + 1 implies (keep@.contains(m as usize)
                    <==> !suppressed_by(t, keep@, m)) by {
                    lemma_suppressed_by_push_below(t, old_keep, i, m);
                    if m == i {
                        assert(keep@[keep@.len() - 1] == i);
                    } else {
                        if old_keep.contains(m as usize) {
                            let a = choose|a: int| 0 <= a < old_keep.len() && old_keep[a] == m as usize;
                            assert(keep@[a] == m as usize);
                        }
                        if keep@.contains(m as usize) {
                            let a = choose|a: int| 0 <= a < keep@.len() && keep@[a] == m as usize;
                            if a < old_keep.len() {
                                assert(old_keep[a] == m as usize);
                            }
                        }
                    }
                }
            }
        } else {
            proof {
                assert(suppressed_by(t, keep@, i as int));
            }
        }
        i = i + 1;
    }
    keep
}

/// Adding kept detection `i` to the kept list: a later detection `m` is
/// suppressed exactly when it was before, or `i` overlaps it.
proof fn lemma_suppressed_by_push(overlaps: Seq<Seq<bool>>, keep: Seq<usize>, i: usize, m: int)
    requires
        increasing_below(keep, i as int),
        i < m,
    ensures
        suppressed_by(overlaps, keep.push(i), m) <==> (suppressed_by(overlaps, keep, m)
            || overlaps_at(overlaps, i as int, m)),
{
    let k2 = keep.push(i);
    if suppressed_by(overlaps, k2, m) {
        let a = choose|a: int|
            0 <= a < k2.len() && k2[a] < m && #[trigger] overlaps_at(overlaps, k2[a] as int, m);
        if a < keep.len() {
            assert(keep[a] == k2[a]);
        }
    }
    if suppressed_by(overlaps, keep, m) {
        let a = choose|a: int|
            0 <= a < keep.len() && keep[a] < m && #[trigger] overlaps_at(overlaps, keep[a] as int, m);
        assert(k2[a] == keep[a]);
    }
    if overlaps_at(overlaps, i as int, m) {
        assert(k2[keep.len() as int] == i);
    }
}

/// Adding kept detection `i` leaves suppression of detections up to `i` unchanged.
proof fn lemma_suppressed_by_push_below(overlaps: Seq<Seq<bool>>, keep: Seq<usize>, i: usize, m: int)
    requires
        increasing_below(keep, i as int),
        m <= i,
    ensures
        suppressed_by(overlaps, keep.push(i), m) <==> suppressed_by(overlaps, keep, m),
{
    let k2 = keep.push(i);
    if suppressed_by(overlaps, k2, m) {
        let a = choose|a: int|
            0 <= a < k2.len() && k2[a] < m && #[trigger] overlaps_at(overlaps, k2[a] as int, m);
        assert(a < keep.len());
        assert(keep[a] == k2[a]);
    }
    if suppressed_by(overlaps, keep, m) {
        let a = choose|a: int|
            0 <= a < keep.len() && keep[a] < m && #[trigger] overlaps_at(overlaps, keep[a] as int, m);
        assert(k2[a] == keep[a]);
    }
}


/// Two kept lists that agree below `j` decide suppression of `j` alike.
proof fn lemma_suppressed_by_agrees(t: Seq<Seq<bool>>, k1: Seq<usize>, k2: Seq<usize>, j: int)
    requires
        forall|m: usize| (m as int) < j ==> (k1.contains(m) <==> k2.contains(m)),
    ensures
        suppressed_by(t, k1, j) <==> suppressed_by(t, k2, j),
{
    if suppressed_by(t, k1, j) {
        let a = choose|a: int| 0 <= a < k1.len() && k1[a] < j && #[trigger] overlaps_at(t, k1[a] as int, j);
        let m = k1[a];
        assert(k1.contains(m));
        let b = choose|b: int| 0 <= b < k2.len() && k2[b] == m;
        assert(overlaps_at(t, k2[b] as int, j));
    }
    if suppressed_by(t, k2, j) {
        let a = choose|a: int| 0 <= a < k2.len() && k2[a] < j && #[trigger] overlaps_at(t, k2[a] as int, j);
        let m = k2[a];
        assert(k2.contains(m));
        let b = choose|b: int| 0 <= b < k1.len() && k1[b] == m;
        assert(overlaps_at(t, k1[b] as int, j));
    }
}

/// Two greedy selections over the same table keep the same detections below `j`.
proof fn lemma_same_membership(t: Seq<Seq<bool>>, n: int, k1: Seq<usize>, k2: Seq<usize>, j: int)
    requires
        is_greedy_selection(t, n, k1),
        is_greedy_selection(t, n, k2),
        0 <= j <= n,
    ensures
        forall|m: usize| (m as int) < j ==> (k1.contains(m) <==> k2.contains(m)),
    decreases j,
{
    if j > 0 {
        lemma_same_membership(t, n, k1, k2, j - 1);
        lemma_suppressed_by_agrees(t, k1, k2, j - 1);
    }
}

/// Two increasing index lists with the same members are equal.
proof fn lemma_increasing_same_members(k1: Seq<usize>, k2: Seq<usize>, n: int)
    requires
        increasing_below(k1, n),
        increasing_below(k2, n),
        forall|m: usize| (m as int) < n ==> (k1.contains(m) <==> k2.contains(m)),
    ensures
        k1 == k2,
    decreases k1.len(),
{
    if k1.len() == 0 {
        if k2.len() > 0 {
            assert(k2.contains(k2[0]));
        }
        assert(k1 =~= k2);
    } else {
        assert(k1.contains(k1[0]));
        let b = choose|b: int| 0 <= b < k2.len() && k2[b] == k1[0];
        assert(k2.contains(k2[0]));
        let c = choose|c: int| 0 <= c < k1.len() && k1[c] == k2[0];
        if b > 0 {
            assert(k2[0] < k2[b]);
            if c > 0 {
                assert(k1[0] < k1[c]);
            }
            assert(false);
        }
        let r1 = k1.drop_first();
        let r2 = k2.drop_first();
        assert forall|m: usize| (m as int) < n implies (r1.contains(m) <==> r2.contains(m)) by {
            if r1.contains(m) {
                let a = choose|a: int| 0 <= a < r1.len() && r1[a] == m;
                assert(k1[a + 1] == m);
                assert(k1[0] < k1[a + 1]);
                assert(k2.contains(m));
                let d = choose|d: int| 0 <= d < k2.len() && k2[d] == m;
                assert(d != 0);
                assert(r2[d - 1] == m);
            }
            if r2.contains(m) {
                let a = choose|a: int| 0 <= a < r2.len() && r2[a] == m;
                assert(k2[a + 1] == m);
                assert(k2[0] < k2[a + 1]);
                assert(k1.contains(m));
                let d = choose|d: int| 0 <= d < k1.len() && k1[d] == m;
                assert(d != 0);
                assert(r1[d - 1] == m);
            }
        }
        lemma_increasing_same_members(r1, r2, n);
        assert(k1 =~= k2) by {
            assert forall|i: int| 0 <= i < k1.len() implies k1[i] == k2[i] by {
                if i > 0 {
                    assert(k1[i] == r1[i - 1]);
                    assert(k2[i] == r2[i - 1]);
                }
            }
        }
    }
}

/// Greedy suppression is deterministic: over one table there is exactly one
/// selection, so the result of `greedy_suppress` is fully pinned down.
pub proof fn lemma_greedy_selection_unique(t: Seq<Seq<bool>>, n: int, k1: Seq<usize>, k2: Seq<usize>)
    requires
        0 <= n,
        is_greedy_selection(t, n, k1),
        is_greedy_selection(t, n, k2),
    ensures
        k1 == k2,
{
    lemma_same_membership(t, n, k1, k2, n);
    lemma_increasing_same_members(k1, k2, n);
}

/// The highest-confidence detection is always kept, and it comes first.
pub proof fn lemma_first_detection_kept(t: Seq<Seq<bool>>, n: int, keep: Seq<usize>)
    requires
        0 < n,
        is_greedy_selection(t, n, keep),
    ensures
        keep.len() > 0,
        keep[0] == 0,
{
    assert(!suppressed_by(t, keep, 0));
    assert(keep.contains(0usize));
    let a = choose|a: int| 0 <= a < keep.len() && keep[a] == 0usize;
    if a > 0 {
        assert(keep[0] < keep[a]);
    }
}

/// No kept detection overlaps a later kept one, and every discarded detection
/// is overlapped by an earlier kept one.
pub proof fn lemma_kept_separated_discarded_covered(t: Seq<Seq<bool>>, n: int, keep: Seq<usize>)
    requires
        is_greedy_selection(t, n, keep),
    ensures
        forall|a: int, b: int|
            0 <= a < b < keep.len() ==> !overlaps_at(t, keep[a] as int, keep[b] as int),
        forall|j: usize|
            (j as int) < n && !#[trigger] keep.contains(j) ==> exists|a: int|
                0 <= a < keep.len() && keep[a] < j && #[trigger] overlaps_at(
                    t,
                    keep[a] as int,
                    j as int,
                ),
{
    assert forall|a: int, b: int| 0 <= a < b < keep.len() implies !overlaps_at(
        t,
        keep[a] as int,
        keep[b] as int,
    ) by {
        let j = keep[b] as int;
        assert(keep.contains(keep[b]));
        assert(!suppressed_by(t, keep, j));
        assert(keep[a] < keep[b]);
    }
    assert forall|j: usize| (j as int) < n && !#[trigger] keep.contains(j) implies exists|a: int|
        0 <= a < keep.len() && keep[a] < j && #[trigger] overlaps_at(t, keep[a] as int, j as int) by {
        assert(suppressed_by(t, keep, j as int));
    }
}

/// The table restricted to the kept detections, in kept order.
pub open spec fn restrict(t: Seq<Seq<bool>>, keep: Seq<usize>) -> Seq<Seq<bool>> {
    Seq::new(
        keep.len(),
        |a: int| Seq::new(keep.len(), |b: int| t[keep[a] as int][keep[b] as int]),
    )
}

/// The indices `0 .. len`.
pub open spec fn all_indices(len: nat) -> Seq<usize> {
    Seq::new(len, |a: int| a as usize)
}

/// Suppression is idempotent: running it again over the kept detections keeps them all.
pub proof fn lemma_greedy_selection_idempotent(t: Seq<Seq<bool>>, n: int, keep: Seq<usize>)
    requires
        is_greedy_selection(t, n, keep),
        keep.len() <= usize::MAX,
    ensures
        is_greedy_selection(restrict(t, keep), keep.len() as int, all_indices(keep.len())),
{
    lemma_kept_separated_discarded_covered(t, n, keep);
    let r = restrict(t, keep);
    let ids = all_indices(keep.len());
    let len = keep.len() as int;
    assert forall|j: int| 0 <= j < len implies (ids.contains(j as usize) <==> !suppressed_by(
        r,
        ids,
        j,
    )) by {
        assert(ids[j] == j as usize);
        if suppressed_by(r, ids, j) {
            let a = choose|a: int| 0 <= a < ids.len() && ids[a] < j && #[trigger] overlaps_at(r, ids[a] as int, j);
            assert(overlaps_at(t, keep[a] as int, keep[j] as int));
        }
    }
}

/// With no overlapping pairs, every detection is kept.
pub proof fn lemma_no_overlap_keeps_all(t: Seq<Seq<bool>>, n: int)
    requires
        0 <= n <= usize::MAX,
        forall|i: int, j: int| 0 <= i < j < n ==> !overlaps_at(t, i, j),
    ensures
        is_greedy_selection(t, n, all_indices(n as nat)),
{
    let ids = all_indices(n as nat);
    assert forall|j: int| 0 <= j < n implies (ids.contains(j as usize) <==> !suppressed_by(t, ids, j)) by {
        assert(ids[j] == j as usize);
    }
}

} // verus!
