//! The deadlock detector: Banker's-algorithm safety check.
//!
//! The check is stateless: it takes a snapshot of one resource class of the
//! ledger — the `need` and `allocation` matrices and the `available` vector —
//! and decides whether the state is *safe*: whether some ordering of all
//! tasks lets each acquire its full remaining need in turn and then return
//! its allocation to the pool. [`safety_check`] returns exactly that, proved
//! in both directions, so a denial really means no completion ordering
//! exists.
use vstd::prelude::*;

verus! {

/// Row `r` fits under work vector `w` elementwise.
pub open spec fn row_le(r: Seq<usize>, w: Seq<int>) -> bool {
    forall|j: int| 0 <= j < w.len() ==> #[trigger] r[j] <= w[j]
}

/// `w + a`, elementwise.
pub open spec fn row_add(w: Seq<int>, a: Seq<usize>) -> Seq<int> {
    Seq::new(w.len(), |j: int| w[j] + a[j])
}

/// Every task is marked finished.
pub open spec fn all_finished(fin: Seq<bool>) -> bool {
    forall|t: int| 0 <= t < fin.len() ==> #[trigger] fin[t]
}

/// The available vector, as unbounded integers.
pub open spec fn ints_of(v: Seq<usize>) -> Seq<int> {
    Seq::new(v.len(), |j: int| v[j] as int)
}

/// From work `w`, with the tasks marked in `fin` already finished, can all
/// remaining tasks finish within `k` steps? A step picks an unfinished task
/// whose whole need row fits under the current work, finishes it, and adds
/// its allocation row back to the work pool.
pub open spec fn can_finish_in(
    need: Seq<Seq<usize>>,
    alloc: Seq<Seq<usize>>,
    w: Seq<int>,
    fin: Seq<bool>,
    k: nat,
) -> bool
    decreases k,
{
    all_finished(fin) || (k > 0 && exists|t: int|
        0 <= t < fin.len() && !fin[t] && row_le(#[trigger] need[t], w) && can_finish_in(
            need,
            alloc,
            row_add(w, alloc[t]),
            fin.update(t, true),
            (k - 1) as nat,
        ))
}

/// Safety of a ledger snapshot for one resource class: some ordering of the
/// tasks lets all of them complete without ever exceeding `avail` plus what
/// finished tasks have returned. One task finishes per step, so `need.len()`
/// steps always suffice.
pub open spec fn is_safe(need: Seq<Seq<usize>>, alloc: Seq<Seq<usize>>, avail: Seq<usize>) -> bool {
    can_finish_in(need, alloc, ints_of(avail), Seq::new(need.len(), |t: int| false), need.len())
}

/// The matrices are `n` rows of `m` columns each and `avail` has `m` entries.
pub open spec fn dims_ok(
    need: Seq<Seq<usize>>,
    alloc: Seq<Seq<usize>>,
    avail: Seq<usize>,
    n: int,
    m: int,
) -> bool {
    need.len() == n && alloc.len() == n && avail.len() == m && (forall|t: int|
        0 <= t < n ==> (#[trigger] need[t]).len() == m) && (forall|t: int|
        0 <= t < n ==> (#[trigger] alloc[t]).len() == m)
}

/// Column `j` of the allocations of the first `upto` tasks marked in `fin`.
pub open spec fn work_col(fin: Seq<bool>, alloc: Seq<Seq<usize>>, j: int, upto: int) -> int
    decreases upto,
{
    if upto <= 0 {
        0
    } else {
        work_col(fin, alloc, j, upto - 1) + if fin[upto - 1] {
            alloc[upto - 1][j] as int
        } else {
            0
        }
    }
}

/// How many of the first `upto` tasks are marked finished.
pub open spec fn count_true(fin: Seq<bool>, upto: int) -> int
    decreases upto,
{
    if upto <= 0 {
        0
    } else {
        count_true(fin, upto - 1) + if fin[upto - 1] {
            1int
        } else {
            0int
        }
    }
}

proof fn lemma_count_true_bounds(fin: Seq<bool>, upto: int)
    requires
        0 <= upto <= fin.len(),
    ensures
        0 <= count_true(fin, upto) <= upto,
    decreases upto,
{
    if upto > 0 {
        lemma_count_true_bounds(fin, upto - 1);
    }
}

proof fn lemma_count_true_missing(fin: Seq<bool>, upto: int, t: int)
    requires
        0 <= t < upto <= fin.len(),
        !fin[t],
    ensures
        count_true(fin, upto) <= upto - 1,
    decreases upto,
{
    if t < upto - 1 {
        lemma_count_true_missing(fin, upto - 1, t);
    } else {
        lemma_count_true_bounds(fin, upto - 1);
    }
}

proof fn lemma_count_true_update(fin: Seq<bool>, t: int, upto: int)
    requires
        0 <= t < fin.len(),
        !fin[t],
        0 <= upto <= fin.len(),
    ensures
        count_true(fin.update(t, true), upto) == count_true(fin, upto) + if t < upto {
            1int
        } else {
            0int
        },
    decreases upto,
{
    if upto > 0 {
        lemma_count_true_update(fin, t, upto - 1);
    }
}

proof fn lemma_work_col_update(fin: Seq<bool>, alloc: Seq<Seq<usize>>, j: int, t: int, upto: int)
    requires
        0 <= t < fin.len(),
        !fin[t],
        0 <= upto <= fin.len(),
    ensures
        work_col(fin.update(t, true), alloc, j, upto) == work_col(fin, alloc, j, upto)
            + if t < upto {
            alloc[t][j] as int
        } else {
            0
        },
    decreases upto,
{
    if upto > 0 {
        lemma_work_col_update(fin, alloc, j, t, upto - 1);
    }
}

proof fn lemma_work_col_mono(fin1: Seq<bool>, fin2: Seq<bool>, alloc: Seq<Seq<usize>>, j: int, upto: int)
    requires
        fin1.len() == fin2.len(),
        forall|t: int| 0 <= t < fin1.len() && #[trigger] fin1[t] ==> fin2[t],
        0 <= upto <= fin1.len(),
    ensures
        work_col(fin1, alloc, j, upto) <= work_col(fin2, alloc, j, upto),
    decreases upto,
{
    if upto > 0 {
        lemma_work_col_mono(fin1, fin2, alloc, j, upto - 1);
    }
}

proof fn lemma_work_col_all_false(fin: Seq<bool>, alloc: Seq<Seq<usize>>, j: int, upto: int)
    requires
        forall|t: int| 0 <= t < fin.len() ==> !(#[trigger] fin[t]),
        0 <= upto <= fin.len(),
    ensures
        work_col(fin, alloc, j, upto) == 0,
    decreases upto,
{
    if upto > 0 {
        lemma_work_col_all_false(fin, alloc, j, upto - 1);
    }
}

proof fn lemma_count_true_all_false(fin: Seq<bool>, upto: int)
    requires
        forall|t: int| 0 <= t < fin.len() ==> !(#[trigger] fin[t]),
        0 <= upto <= fin.len(),
    ensures
        count_true(fin, upto) == 0,
    decreases upto,
{
    if upto > 0 {
        lemma_count_true_all_false(fin, upto - 1);
    }
}

/// A nested vector's deep view indexes like its plain views.
proof fn lemma_mat_view(v: &Vec<Vec<usize>>)
    ensures
        v.deep_view().len() == v@.len(),
        forall|t: int| 0 <= t < v@.len() ==> #[trigger] v.deep_view()[t] == v@[t]@,
{
    assert forall|t: int| 0 <= t < v@.len() implies #[trigger] v.deep_view()[t] == v@[t]@ by {
        assert(v.deep_view()[t] =~= v@[t]@);
    }
}

/// The mathematical work vector for finish set `fin`: what is available plus
/// everything the finished tasks would have returned.
pub open spec fn work_of(fin: Seq<bool>, alloc: Seq<Seq<usize>>, avail: Seq<usize>) -> Seq<int> {
    Seq::new(avail.len(), |j: int| avail[j] + work_col(fin, alloc, j, fin.len() as int))
}

/// Any completion chain stays inside a fixpoint of the greedy scan: if from
/// finish set `cfin` (with true work vector `w`) all tasks can finish, and
/// `ffin` is a superset of `cfin` at which no further task's need fits under
/// `ffin`'s work, then `ffin` already contains every task.
proof fn lemma_chain_in_fixpoint(
    need: Seq<Seq<usize>>,
    alloc: Seq<Seq<usize>>,
    avail: Seq<usize>,
    w: Seq<int>,
    cfin: Seq<bool>,
    k: nat,
    ffin: Seq<bool>,
    n: int,
    m: int,
)
    requires
        dims_ok(need, alloc, avail, n, m),
        cfin.len() == n,
        ffin.len() == n,
        can_finish_in(need, alloc, w, cfin, k),
        w == work_of(cfin, alloc, avail),
        forall|t: int| 0 <= t < n && #[trigger] cfin[t] ==> ffin[t],
        forall|t: int|
            0 <= t < n && !(#[trigger] ffin[t]) ==> !row_le(need[t], work_of(ffin, alloc, avail)),
    ensures
        all_finished(ffin),
    decreases k,
{
    if all_finished(cfin) {
        assert forall|t: int| 0 <= t < n implies #[trigger] ffin[t] by {
            assert(cfin[t]);
        }
    } else {
        let t = choose|t: int|
            0 <= t < cfin.len() && !cfin[t] && row_le(#[trigger] need[t], w) && can_finish_in(
                need,
                alloc,
                row_add(w, alloc[t]),
                cfin.update(t, true),
                (k - 1) as nat,
            );
        let fwork = work_of(ffin, alloc, avail);
        assert forall|j: int| 0 <= j < m implies w[j] <= #[trigger] fwork[j] by {
            lemma_work_col_mono(cfin, ffin, alloc, j, n);
        }
        assert(row_le(need[t], fwork));
        assert(ffin[t]);
        let cfin2 = cfin.update(t, true);
        let w2 = row_add(w, alloc[t]);
        assert forall|j: int| 0 <= j < m implies w2[j] == #[trigger] work_of(cfin2, alloc, avail)[j] by {
            lemma_work_col_update(cfin, alloc, j, t, n);
        }
        assert(w2 =~= work_of(cfin2, alloc, avail));
        lemma_chain_in_fixpoint(need, alloc, avail, w2, cfin2, (k - 1) as nat, ffin, n, m);
    }
}

/// Decide whether the snapshot is safe, by the greedy scan: repeatedly
/// finish any task whose whole need row fits under the accumulated work.
/// Greed loses nothing — work only ever grows — and the result is exactly
/// [`is_safe`]: `true` if and only if some ordering of all tasks can
/// complete.
///
/// Work accumulation saturates at `usize::MAX`; since every need entry is
/// itself a `usize`, the saturated comparisons agree with the unbounded
/// ones.
pub fn safety_check(need: &Vec<Vec<usize>>, alloc: &Vec<Vec<usize>>, avail: &Vec<usize>) -> (r: bool)
    requires
        dims_ok(need.deep_view(), alloc.deep_view(), avail@, need@.len() as int, avail@.len() as int),
    ensures
        r == is_safe(need.deep_view(), alloc.deep_view(), avail@),
{
    let n = need.len();
    let m = avail.len();
    let ghost gneed = need.deep_view();
    let ghost galloc = alloc.deep_view();
    let ghost gavail = avail@;

    let mut work: Vec<usize> = Vec::new();
    let mut j0: usize = 0;
    while j0 < m
        invariant
            0 <= j0 <= m,
            gavail == avail@,
            gavail.len() == m,
            work@.len() == j0,
            forall|j: int| 0 <= j < j0 ==> work@[j] == gavail[j],
        decreases m - j0,
    {
        work.push(avail[j0]);
        j0 = j0 + 1;
    }

    let mut finish: Vec<bool> = Vec::new();
    let mut t0: usize = 0;
    while t0 < n
        invariant
            0 <= t0 <= n,
            finish@.len() == t0,
            forall|t: int| 0 <= t < t0 ==> !(#[trigger] finish@[t]),
        decreases n - t0,
    {
        finish.push(false);
        t0 = t0 + 1;
    }

    proof {
        assert(finish@ =~= Seq::new(n as nat, |t: int| false));
        assert forall|j: int| 0 <= j < m implies work@[j] == #[trigger] work_of(
            finish@,
            galloc,
            gavail,
        )[j] by {
            lemma_work_col_all_false(finish@, galloc, j, n as int);
        }
        lemma_count_true_bounds(finish@, n as int);
        lemma_count_true_all_false(finish@, n as int);
        lemma_mat_view(need);
        lemma_mat_view(alloc);
        assert(work_of(finish@, galloc, gavail) =~= ints_of(gavail));
        assert(finish@ == Seq::new(gneed.len(), |t: int| false));
    }

    let mut flag = true;
    while flag
        invariant
            dims_ok(gneed, galloc, gavail, n as int, m as int),
            gneed == need.deep_view(),
            galloc == alloc.deep_view(),
            gavail == avail@,
            need@.len() == n,
            alloc@.len() == n,
            forall|t: int| 0 <= t < n ==> #[trigger] gneed[t] == need@[t]@,
            forall|t: int| 0 <= t < n ==> #[trigger] galloc[t] == alloc@[t]@,
            finish@.len() == n,
            work@.len() == m,
            // the exec work vector is the saturated image of the true work
            forall|j: int|
                0 <= j < m ==> #[trigger] work@[j] as int == sat(work_of(finish@, galloc, gavail)[j]),
            // whatever can finish from here was already possible at the start
            can_finish_in(
                gneed,
                galloc,
                work_of(finish@, galloc, gavail),
                finish@,
                (n - count_true(finish@, n as int)) as nat,
            ) ==> is_safe(gneed, galloc, gavail),
            0 <= count_true(finish@, n as int) <= n,
            // once a full pass finishes nothing, every unfinished task is stuck
            !flag ==> forall|t: int|
                0 <= t < n && !(#[trigger] finish@[t]) ==> !row_le(
                    gneed[t],
                    work_of(finish@, galloc, gavail),
                ),
        decreases 2 * n + 2 - 2 * count_true(finish@, n as int) - (if flag {
            0int
        } else {
            1int
        }),
    {
        proof {
            lemma_count_true_bounds(finish@, n as int);
        }
        flag = false;
        let ghost pass_fin = finish@;
        let mut tid: usize = 0;
        while tid < n
            invariant
                dims_ok(gneed, galloc, gavail, n as int, m as int),
                gneed == need.deep_view(),
                galloc == alloc.deep_view(),
                gavail == avail@,
                need@.len() == n,
                alloc@.len() == n,
                forall|t: int| 0 <= t < n ==> #[trigger] gneed[t] == need@[t]@,
                forall|t: int| 0 <= t < n ==> #[trigger] galloc[t] == alloc@[t]@,
                0 <= tid <= n,
                finish@.len() == n,
                work@.len() == m,
                forall|j: int|
                    0 <= j < m ==> #[trigger] work@[j] as int == sat(
                        work_of(finish@, galloc, gavail)[j],
                    ),
                can_finish_in(
                    gneed,
                    galloc,
                    work_of(finish@, galloc, gavail),
                    finish@,
                    (n - count_true(finish@, n as int)) as nat,
                ) ==> is_safe(gneed, galloc, gavail),
                // when nothing was finished yet in this pass the state is unchanged
                // and every task scanned so far is stuck
                !flag ==> finish@ == pass_fin,
                !flag ==> forall|t: int|
                    0 <= t < tid && !(#[trigger] finish@[t]) ==> !row_le(
                        gneed[t],
                        work_of(finish@, galloc, gavail),
                    ),
                flag ==> count_true(finish@, n as int) > count_true(pass_fin, n as int),
                count_true(finish@, n as int) >= count_true(pass_fin, n as int),
                0 <= count_true(finish@, n as int) <= n,
            decreases n - tid,
        {
            if !finish[tid] {
                // check whether the whole need row fits under the work vector
                let mut fits = true;
                let mut j: usize = 0;
                while j < m
                    invariant
                        0 <= j <= m,
                        gneed == need.deep_view(),
                        need@.len() == n,
                        forall|t: int| 0 <= t < n ==> #[trigger] gneed[t] == need@[t]@,
                        tid < n,
                        dims_ok(gneed, galloc, gavail, n as int, m as int),
                        work@.len() == m,
                        forall|jj: int|
                            0 <= jj < m ==> #[trigger] work@[jj] as int == sat(
                                work_of(finish@, galloc, gavail)[jj],
                            ),
                        fits <==> (forall|jj: int|
                            0 <= jj < j ==> #[trigger] gneed[tid as int][jj]
                                <= work_of(finish@, galloc, gavail)[jj]),
                    decreases m - j,
                {
                    proof {
                        assert(gneed[tid as int] == need@[tid as int]@);
                    }
                    let nv = need[tid][j];
                    if nv > work[j] {
                        proof {
                            assert(gneed[tid as int][j as int] > work_of(finish@, galloc, gavail)[j as int]);
                        }
                        fits = false;
                        j = m;
                    } else {
                        proof {
                            assert(gneed[tid as int][j as int] <= work_of(finish@, galloc, gavail)[j as int]);
                        }
                        j = j + 1;
                    }
                }
                if fits {
                    proof {
                        assert(row_le(gneed[tid as int], work_of(finish@, galloc, gavail)));
                    }
                    let ghost old_fin = finish@;
                    let ghost old_work = work_of(finish@, galloc, gavail);
                    // add the finished row's allocation back to the work vector
                    let mut j2: usize = 0;
                    while j2 < m
                        invariant
                            0 <= j2 <= m,
                            galloc == alloc.deep_view(),
                            alloc@.len() == n,
                            forall|t: int| 0 <= t < n ==> #[trigger] galloc[t] == alloc@[t]@,
                            tid < n,
                            dims_ok(gneed, galloc, gavail, n as int, m as int),
                            work@.len() == m,
                            forall|jj: int|
                                j2 <= jj < m ==> #[trigger] work@[jj] as int == sat(old_work[jj]),
                            forall|jj: int|
                                0 <= jj < j2 ==> #[trigger] work@[jj] as int == sat(
                                    old_work[jj] + galloc[tid as int][jj],
                                ),
                        decreases m - j2,
                    {
                        proof {
                            assert(galloc[tid as int] == alloc@[tid as int]@);
                        }
                        let a = alloc[tid][j2];
                        let wv = work[j2];
                        if wv > usize::MAX - a {
                            work[j2] = usize::MAX;
                        } else {
                            work[j2] = wv + a;
                        }
                        j2 = j2 + 1;
                    }
                    finish[tid] = true;
                    flag = true;
                    proof {
                        let new_fin = old_fin.update(tid as int, true);
                        assert(finish@ == new_fin);
                        lemma_count_true_update(old_fin, tid as int, n as int);
                        lemma_count_true_missing(old_fin, n as int, tid as int);
                        lemma_count_true_bounds(new_fin, n as int);
                        assert forall|jj: int| 0 <= jj < m implies #[trigger] work_of(
                            new_fin,
                            galloc,
                            gavail,
                        )[jj] == old_work[jj] + galloc[tid as int][jj] by {
                            lemma_work_col_update(old_fin, galloc, jj, tid as int, n as int);
                        }
                        // the step from old_fin through tid witnesses can_finish_in
                        let knew = (n - count_true(new_fin, n as int)) as nat;
                        if can_finish_in(gneed, galloc, work_of(new_fin, galloc, gavail), new_fin, knew) {
                            assert(row_add(old_work, galloc[tid as int]) =~= work_of(
                                new_fin,
                                galloc,
                                gavail,
                            ));
                            assert(can_finish_in(
                                gneed,
                                galloc,
                                old_work,
                                old_fin,
                                (n - count_true(old_fin, n as int)) as nat,
                            ));
                        }
                    }
                }
            }
            tid = tid + 1;
        }
    }

    // fixpoint reached: check whether every task finished
    let mut all = true;
    let mut t2: usize = 0;
    while t2 < n
        invariant
            0 <= t2 <= n,
            finish@.len() == n,
            all <==> (forall|t: int| 0 <= t < t2 ==> #[trigger] finish@[t]),
        decreases n - t2,
    {
        if !finish[t2] {
            all = false;
            t2 = n;
        } else {
            t2 = t2 + 1;
        }
    }

    proof {
        if all {
            assert(all_finished(finish@));
            assert(can_finish_in(
                gneed,
                galloc,
                work_of(finish@, galloc, gavail),
                finish@,
                (n - count_true(finish@, n as int)) as nat,
            ));
        } else {
            let t = choose|t: int| 0 <= t < n && !(#[trigger] finish@[t]);
            if is_safe(gneed, galloc, gavail) {
                let zero_fin = Seq::new(n as nat, |t: int| false);
                assert forall|j: int| 0 <= j < m implies ints_of(gavail)[j] == #[trigger] work_of(
                    zero_fin,
                    galloc,
                    gavail,
                )[j] by {
                    lemma_work_col_all_false(zero_fin, galloc, j, n as int);
                }
                assert(ints_of(gavail) =~= work_of(zero_fin, galloc, gavail));
                lemma_chain_in_fixpoint(
                    gneed,
                    galloc,
                    gavail,
                    work_of(zero_fin, galloc, gavail),
                    zero_fin,
                    n as nat,
                    finish@,
                    n as int,
                    m as int,
                );
            }
        }
    }
    all
}

/// Clamp an unbounded integer to the `usize` range from above.
pub open spec fn sat(x: int) -> int {
    if x > usize::MAX {
        usize::MAX as int
    } else {
        x
    }
}

} // verus!
