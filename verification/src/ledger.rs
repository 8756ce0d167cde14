//! The resource ledger: per-task allocation and need matrices and the
//! per-class available vector, indexed `[task][class][id]` and `[class][id]`.
//!
//! There are exactly two resource classes: 0 for mutexes, 1 for semaphores
//! (condition variables are not ledger-tracked). Creating a resource id
//! extends every task's rows with a zero column, or resets a reused column;
//! creating a task adds a row of zero columns for every existing id.
use vstd::prelude::*;

verus! {

/// Ledger class of mutexes.
pub const MUTEX_CLASS: usize = 0;

/// Ledger class of semaphores.
pub const SEMAPHORE_CLASS: usize = 1;

/// The number of resource classes.
pub const CLASS_COUNT: usize = 2;

/// The allocation/need/available matrices.
pub struct Ledger {
    /// `allocation[t][c][id]`: units of resource `(c, id)` held by task `t`.
    pub allocation: Vec<Vec<Vec<usize>>>,
    /// `need[t][c][id]`: units of `(c, id)` task `t` has declared it still
    /// wants.
    pub need: Vec<Vec<Vec<usize>>>,
    /// `available[c][id]`: unallocated units of `(c, id)`.
    pub available: Vec<Vec<usize>>,
}

impl Ledger {
    /// Cell of the allocation matrix.
    pub open spec fn alloc_at(self, t: int, c: int, id: int) -> usize {
        self.allocation@[t]@[c]@[id]
    }

    /// Cell of the need matrix.
    pub open spec fn need_at(self, t: int, c: int, id: int) -> usize {
        self.need@[t]@[c]@[id]
    }

    /// Cell of the available vector.
    pub open spec fn avail_at(self, c: int, id: int) -> usize {
        self.available@[c]@[id]
    }

    /// Number of resource ids in class `c`.
    pub open spec fn width(self, c: int) -> int {
        self.available@[c]@.len() as int
    }

    /// Every task has a row per class, and each row in class `c` is as long
    /// as the class's available vector: one column per live resource id.
    pub open spec fn wf(self, ntasks: int, n_mutex: int, n_sem: int) -> bool {
        &&& self.allocation@.len() == ntasks
        &&& self.need@.len() == ntasks
        &&& self.available@.len() == CLASS_COUNT
        &&& self.available@[MUTEX_CLASS as int]@.len() == n_mutex
        &&& self.available@[SEMAPHORE_CLASS as int]@.len() == n_sem
        &&& forall|t: int| 0 <= t < ntasks ==> (#[trigger] self.allocation@[t])@.len()
            == CLASS_COUNT
        &&& forall|t: int| 0 <= t < ntasks ==> (#[trigger] self.need@[t])@.len() == CLASS_COUNT
        &&& forall|t: int, c: int|
            0 <= t < ntasks && 0 <= c < CLASS_COUNT ==> (#[trigger] self.allocation@[t]@[c])@.len()
                == self.available@[c]@.len()
        &&& forall|t: int, c: int|
            0 <= t < ntasks && 0 <= c < CLASS_COUNT ==> (#[trigger] self.need@[t]@[c])@.len()
                == self.available@[c]@.len()
    }

    /// One class of one matrix, as a task-indexed sequence of rows.
    pub open spec fn class_of(m: Seq<Vec<Vec<usize>>>, c: int) -> Seq<Seq<usize>> {
        Seq::new(m.len(), |t: int| m[t]@[c]@)
    }

    /// The `need` rows of class `c`.
    pub open spec fn need_class(self, c: int) -> Seq<Seq<usize>> {
        Self::class_of(self.need@, c)
    }

    /// The `allocation` rows of class `c`.
    pub open spec fn alloc_class(self, c: int) -> Seq<Seq<usize>> {
        Self::class_of(self.allocation@, c)
    }

    /// An empty ledger for zero tasks and zero resources.
    pub fn new() -> (l: Self)
        ensures
            l.wf(0, 0, 0),
    {
        let mut available: Vec<Vec<usize>> = Vec::new();
        available.push(Vec::new());
        available.push(Vec::new());
        Ledger { allocation: Vec::new(), need: Vec::new(), available }
    }
}

/// Write one cell of a `[task][class][id]` matrix, leaving every other cell
/// in place.
pub fn matrix_set(
    m: &mut Vec<Vec<Vec<usize>>>,
    t: usize,
    c: usize,
    id: usize,
    v: usize,
)
    requires
        t < old(m)@.len(),
        c < old(m)@[t as int]@.len(),
        id < old(m)@[t as int]@[c as int]@.len(),
    ensures
        final(m)@.len() == old(m)@.len(),
        forall|t2: int| 0 <= t2 < old(m)@.len() && t2 != t ==> final(m)@[t2] == old(m)@[t2],
        final(m)@[t as int]@.len() == old(m)@[t as int]@.len(),
        forall|c2: int|
            0 <= c2 < old(m)@[t as int]@.len() && c2 != c ==> final(m)@[t as int]@[c2]
                == old(m)@[t as int]@[c2],
        final(m)@[t as int]@[c as int]@ == old(m)@[t as int]@[c as int]@.update(id as int, v),
{
    m[t][c][id] = v;
}

/// Write one cell of a `[class][id]` vector, leaving every other cell in
/// place.
pub fn avail_set(a: &mut Vec<Vec<usize>>, c: usize, id: usize, v: usize)
    requires
        c < old(a)@.len(),
        id < old(a)@[c as int]@.len(),
    ensures
        final(a)@.len() == old(a)@.len(),
        forall|c2: int| 0 <= c2 < old(a)@.len() && c2 != c ==> final(a)@[c2] == old(a)@[c2],
        final(a)@[c as int]@ == old(a)@[c as int]@.update(id as int, v),
{
    a[c][id] = v;
}

/// Append one entry to row `(t, c)` of a `[task][class][id]` matrix,
/// leaving every other row in place.
pub fn matrix_push(m: &mut Vec<Vec<Vec<usize>>>, t: usize, c: usize, v: usize)
    requires
        t < old(m)@.len(),
        c < old(m)@[t as int]@.len(),
    ensures
        final(m)@.len() == old(m)@.len(),
        forall|t2: int| 0 <= t2 < old(m)@.len() && t2 != t ==> final(m)@[t2] == old(m)@[t2],
        final(m)@[t as int]@.len() == old(m)@[t as int]@.len(),
        forall|c2: int|
            0 <= c2 < old(m)@[t as int]@.len() && c2 != c ==> final(m)@[t as int]@[c2]
                == old(m)@[t as int]@[c2],
        final(m)@[t as int]@[c as int]@ == old(m)@[t as int]@[c as int]@.push(v),
{
    m[t][c].push(v);
}

/// Append one entry to class `c` of a `[class][id]` vector, leaving every
/// other class in place.
pub fn avail_push(a: &mut Vec<Vec<usize>>, c: usize, v: usize)
    requires
        c < old(a)@.len(),
    ensures
        final(a)@.len() == old(a)@.len(),
        forall|c2: int| 0 <= c2 < old(a)@.len() && c2 != c ==> final(a)@[c2] == old(a)@[c2],
        final(a)@[c as int]@ == old(a)@[c as int]@.push(v),
{
    a[c].push(v);
}

impl Ledger {
    /// Reset column `id` of class `c`: every task's allocation and need at
    /// that column become zero and the column's available count becomes
    /// `avail_v`. Used when a freed slot is reused for a new resource.
    pub fn reset_column(&mut self, c: usize, id: usize, avail_v: usize, ntasks: usize, n_mutex: usize, n_sem: usize)
        requires
            old(self).wf(ntasks as int, n_mutex as int, n_sem as int),
            c < CLASS_COUNT,
            id < old(self).width(c as int),
        ensures
            final(self).wf(ntasks as int, n_mutex as int, n_sem as int),
            forall|t: int, c2: int, id2: int|
                0 <= t < ntasks && 0 <= c2 < CLASS_COUNT && 0 <= id2 < old(self).width(c2)
                    && !(c2 == c && id2 == id) ==> #[trigger] final(self).alloc_at(t, c2, id2)
                    == old(self).alloc_at(t, c2, id2) && final(self).need_at(t, c2, id2)
                    == old(self).need_at(t, c2, id2),
            forall|t: int| 0 <= t < ntasks ==> #[trigger] final(self).alloc_at(t, c as int, id as int)
                == 0 && final(self).need_at(t, c as int, id as int) == 0,
            forall|c2: int, id2: int|
                0 <= c2 < CLASS_COUNT && 0 <= id2 < old(self).width(c2) && !(c2 == c && id2 == id)
                    ==> #[trigger] final(self).avail_at(c2, id2) == old(self).avail_at(c2, id2),
            final(self).avail_at(c as int, id as int) == avail_v,
    {
        let ghost init = *self;
        let mut t: usize = 0;
        while t < ntasks
            invariant
                init == *old(self),
                self.wf(ntasks as int, n_mutex as int, n_sem as int),
                c < CLASS_COUNT,
                id < self.width(c as int),
                0 <= t <= ntasks,
                self.available@ == init.available@,
                forall|c2: int| 0 <= c2 < CLASS_COUNT ==> init.width(c2) == self.width(c2),
                forall|t2: int, c2: int, id2: int|
                    0 <= t2 < ntasks && 0 <= c2 < CLASS_COUNT && 0 <= id2 < self.width(c2)
                        && !(c2 == c && id2 == id) ==> #[trigger] self.alloc_at(t2, c2, id2)
                        == init.alloc_at(t2, c2, id2) && self.need_at(t2, c2, id2)
                        == init.need_at(t2, c2, id2),
                forall|t2: int| 0 <= t2 < t ==> #[trigger] self.alloc_at(t2, c as int, id as int)
                    == 0 && self.need_at(t2, c as int, id as int) == 0,
                forall|t2: int| t <= t2 < ntasks ==> #[trigger] self.alloc_at(t2, c as int, id as int)
                    == init.alloc_at(t2, c as int, id as int) && self.need_at(
                    t2,
                    c as int,
                    id as int,
                ) == init.need_at(t2, c as int, id as int),
            decreases ntasks - t,
        {
            let ghost prev = *self;
            matrix_set(&mut self.allocation, t, c, id, 0);
            matrix_set(&mut self.need, t, c, id, 0);
            proof {
                assert forall|t2: int, c2: int, id2: int|
                    0 <= t2 < ntasks && 0 <= c2 < CLASS_COUNT && 0 <= id2 < prev.width(c2)
                        && !(t2 == t && c2 == c && id2 == id) implies #[trigger] self.alloc_at(
                    t2,
                    c2,
                    id2,
                ) == prev.alloc_at(t2, c2, id2) && self.need_at(t2, c2, id2) == prev.need_at(
                    t2,
                    c2,
                    id2,
                ) by {
                    if t2 != t {
                        assert(self.allocation@[t2] == prev.allocation@[t2]);
                        assert(self.need@[t2] == prev.need@[t2]);
                    } else if c2 != c {
                        assert(self.allocation@[t2]@[c2] == prev.allocation@[t2]@[c2]);
                        assert(self.need@[t2]@[c2] == prev.need@[t2]@[c2]);
                    } else {
                        assert(self.allocation@[t2]@[c2]@ == prev.allocation@[t2]@[c2]@.update(
                            id as int,
                            0usize,
                        ));
                        assert(self.need@[t2]@[c2]@ == prev.need@[t2]@[c2]@.update(id as int, 0usize));
                    }
                }
                assert(self.alloc_at(t as int, c as int, id as int) == 0);
                assert(self.need_at(t as int, c as int, id as int) == 0);
            }
            t = t + 1;
        }
        let ghost mid = *self;
        avail_set(&mut self.available, c, id, avail_v);
        proof {
            assert(self.allocation == mid.allocation);
            assert(self.need == mid.need);
            assert forall|t2: int, c2: int, id2: int|
                0 <= t2 < ntasks && 0 <= c2 < CLASS_COUNT && 0 <= id2 < init.width(c2)
                    && !(c2 == c && id2 == id) implies #[trigger] self.alloc_at(t2, c2, id2)
                == init.alloc_at(t2, c2, id2) && self.need_at(t2, c2, id2) == init.need_at(
                t2,
                c2,
                id2,
            ) by {
                assert(mid.alloc_at(t2, c2, id2) == init.alloc_at(t2, c2, id2));
                assert(mid.need_at(t2, c2, id2) == init.need_at(t2, c2, id2));
            }
            assert forall|t2: int| 0 <= t2 < ntasks implies #[trigger] self.alloc_at(
                t2,
                c as int,
                id as int,
            ) == 0 && self.need_at(t2, c as int, id as int) == 0 by {
                assert(mid.alloc_at(t2, c as int, id as int) == 0);
                assert(mid.need_at(t2, c as int, id as int) == 0);
            }
        }
    }

    /// Append a fresh column to class `c`: every task's allocation and need
    /// rows grow by a zero entry and the class's available vector grows by
    /// `avail_v`. Used when no freed slot exists for a new resource.
    pub fn push_column(&mut self, c: usize, avail_v: usize, ntasks: usize, n_mutex: usize, n_sem: usize)
        requires
            old(self).wf(ntasks as int, n_mutex as int, n_sem as int),
            c < CLASS_COUNT,
        ensures
            final(self).wf(
                ntasks as int,
                n_mutex as int + (if c == MUTEX_CLASS { 1int } else { 0int }),
                n_sem as int + (if c == SEMAPHORE_CLASS { 1int } else { 0int }),
            ),
            forall|t: int, c2: int, id2: int|
                0 <= t < ntasks && 0 <= c2 < CLASS_COUNT && 0 <= id2 < old(self).width(c2)
                    ==> #[trigger] final(self).alloc_at(t, c2, id2) == old(self).alloc_at(t, c2, id2)
                    && final(self).need_at(t, c2, id2) == old(self).need_at(t, c2, id2),
            forall|t: int| 0 <= t < ntasks ==> #[trigger] final(self).alloc_at(
                t,
                c as int,
                old(self).width(c as int),
            ) == 0 && final(self).need_at(t, c as int, old(self).width(c as int)) == 0,
            forall|c2: int, id2: int|
                0 <= c2 < CLASS_COUNT && 0 <= id2 < old(self).width(c2) ==> #[trigger] final(self).avail_at(c2, id2) == old(self).avail_at(c2, id2),
            final(self).avail_at(c as int, old(self).width(c as int)) == avail_v,
            final(self).width(c as int) == old(self).width(c as int) + 1,
            forall|c2: int|
                0 <= c2 < CLASS_COUNT && c2 != c ==> #[trigger] final(self).width(c2) == old(self).width(c2),
    {
        let ghost init = *self;
        let mut t: usize = 0;
        while t < ntasks
            invariant
                init == *old(self),
                init.wf(ntasks as int, n_mutex as int, n_sem as int),
                c < CLASS_COUNT,
                0 <= t <= ntasks,
                self.available@ == init.available@,
                self.allocation@.len() == ntasks,
                self.need@.len() == ntasks,
                forall|t2: int| 0 <= t2 < ntasks ==> (#[trigger] self.allocation@[t2])@.len()
                    == CLASS_COUNT,
                forall|t2: int| 0 <= t2 < ntasks ==> (#[trigger] self.need@[t2])@.len()
                    == CLASS_COUNT,
                forall|t2: int, c2: int|
                    0 <= t2 < ntasks && 0 <= c2 < CLASS_COUNT && !(t2 < t && c2 == c)
                        ==> #[trigger] self.allocation@[t2]@[c2] == init.allocation@[t2]@[c2],
                forall|t2: int, c2: int|
                    0 <= t2 < ntasks && 0 <= c2 < CLASS_COUNT && !(t2 < t && c2 == c)
                        ==> #[trigger] self.need@[t2]@[c2] == init.need@[t2]@[c2],
                forall|t2: int|
                    0 <= t2 < t ==> #[trigger] self.allocation@[t2]@[c as int]@
                        == init.allocation@[t2]@[c as int]@.push(0usize),
                forall|t2: int|
                    0 <= t2 < t ==> #[trigger] self.need@[t2]@[c as int]@
                        == init.need@[t2]@[c as int]@.push(0usize),
            decreases ntasks - t,
        {
            matrix_push(&mut self.allocation, t, c, 0);
            matrix_push(&mut self.need, t, c, 0);
            t = t + 1;
        }
        let ghost mid = *self;
        avail_push(&mut self.available, c, avail_v);
        proof {
            assert(self.allocation == mid.allocation);
            assert(self.need == mid.need);
            let nm2 = n_mutex as int + (if c == MUTEX_CLASS { 1int } else { 0int });
            let ns2 = n_sem as int + (if c == SEMAPHORE_CLASS { 1int } else { 0int });
            assert forall|t2: int, c2: int|
                0 <= t2 < ntasks && 0 <= c2 < CLASS_COUNT implies (
            #[trigger] self.allocation@[t2]@[c2])@.len() == self.available@[c2]@.len() by {
                if c2 == c {
                    assert(self.allocation@[t2]@[c2]@ == init.allocation@[t2]@[c2]@.push(0usize));
                    assert(self.available@[c2]@ == init.available@[c2]@.push(avail_v));
                } else {
                    assert(self.allocation@[t2]@[c2] == init.allocation@[t2]@[c2]);
                    assert(self.available@[c2] == init.available@[c2]);
                }
            }
            assert forall|t2: int, c2: int|
                0 <= t2 < ntasks && 0 <= c2 < CLASS_COUNT implies (
            #[trigger] self.need@[t2]@[c2])@.len() == self.available@[c2]@.len() by {
                if c2 == c {
                    assert(self.need@[t2]@[c2]@ == init.need@[t2]@[c2]@.push(0usize));
                    assert(self.available@[c2]@ == init.available@[c2]@.push(avail_v));
                } else {
                    assert(self.need@[t2]@[c2] == init.need@[t2]@[c2]);
                    assert(self.available@[c2] == init.available@[c2]);
                }
            }
            assert(self.wf(ntasks as int, nm2, ns2));
            assert forall|t2: int, c2: int, id2: int|
                0 <= t2 < ntasks && 0 <= c2 < CLASS_COUNT && 0 <= id2 < init.width(c2) implies
                #[trigger] self.alloc_at(t2, c2, id2) == init.alloc_at(t2, c2, id2)
                    && self.need_at(t2, c2, id2) == init.need_at(t2, c2, id2) by {
                if c2 == c {
                    assert(self.allocation@[t2]@[c2]@ == init.allocation@[t2]@[c2]@.push(0usize));
                    assert(self.need@[t2]@[c2]@ == init.need@[t2]@[c2]@.push(0usize));
                } else {
                    assert(self.allocation@[t2]@[c2] == init.allocation@[t2]@[c2]);
                    assert(self.need@[t2]@[c2] == init.need@[t2]@[c2]);
                }
            }
            assert forall|t2: int| 0 <= t2 < ntasks implies #[trigger] self.alloc_at(
                t2,
                c as int,
                init.width(c as int),
            ) == 0 && self.need_at(t2, c as int, init.width(c as int)) == 0 by {
                assert(self.allocation@[t2]@[c as int]@ == init.allocation@[t2]@[c as int]@.push(
                    0usize,
                ));
                assert(self.need@[t2]@[c as int]@ == init.need@[t2]@[c as int]@.push(0usize));
            }
        }
    }

    /// Append a zeroed row for a newly created task: one zero per existing
    /// resource id in each class.
    pub fn add_row(&mut self, ntasks: usize, n_mutex: usize, n_sem: usize)
        requires
            old(self).wf(ntasks as int, n_mutex as int, n_sem as int),
        ensures
            final(self).wf(ntasks as int + 1, n_mutex as int, n_sem as int),
            final(self).available@ == old(self).available@,
            forall|t: int| 0 <= t < ntasks ==> #[trigger] final(self).allocation@[t] == old(self).allocation@[t] && final(self).need@[t] == old(self).need@[t],
            forall|c2: int, id2: int|
                0 <= c2 < CLASS_COUNT && 0 <= id2 < old(self).width(c2) ==> #[trigger] final(self).alloc_at(ntasks as int, c2, id2) == 0 && final(self).need_at(ntasks as int, c2, id2)
                    == 0,
    {
        let ghost init = *self;
        let mut row_a: Vec<Vec<usize>> = Vec::new();
        let mut row_n: Vec<Vec<usize>> = Vec::new();
        let mut c: usize = 0;
        while c < CLASS_COUNT
            invariant
                init == *old(self),
                init.wf(ntasks as int, n_mutex as int, n_sem as int),
                *self == init,
                0 <= c <= CLASS_COUNT,
                row_a@.len() == c,
                row_n@.len() == c,
                forall|c2: int, id2: int|
                    0 <= c2 < c && 0 <= id2 < init.width(c2) ==> (#[trigger] row_a@[c2]@[id2])
                        == 0,
                forall|c2: int, id2: int|
                    0 <= c2 < c && 0 <= id2 < init.width(c2) ==> (#[trigger] row_n@[c2]@[id2])
                        == 0,
                forall|c2: int| 0 <= c2 < c ==> (#[trigger] row_a@[c2])@.len() == init.width(c2),
                forall|c2: int| 0 <= c2 < c ==> (#[trigger] row_n@[c2])@.len() == init.width(c2),
            decreases CLASS_COUNT - c,
        {
            let width = self.available[c].len();
            let mut col_a: Vec<usize> = Vec::new();
            let mut col_n: Vec<usize> = Vec::new();
            let mut i: usize = 0;
            while i < width
                invariant
                    0 <= i <= width,
                    col_a@.len() == i,
                    col_n@.len() == i,
                    forall|id2: int| 0 <= id2 < i ==> (#[trigger] col_a@[id2]) == 0,
                    forall|id2: int| 0 <= id2 < i ==> (#[trigger] col_n@[id2]) == 0,
                decreases width - i,
            {
                col_a.push(0);
                col_n.push(0);
                i = i + 1;
            }
            let ghost gca = col_a@;
            let ghost gcn = col_n@;
            row_a.push(col_a);
            row_n.push(col_n);
            proof {
                assert(row_a@[c as int]@ == gca);
                assert(row_n@[c as int]@ == gcn);
                assert(gca.len() == init.width(c as int));
                assert(gcn.len() == init.width(c as int));
            }
            c = c + 1;
        }
        self.allocation.push(row_a);
        self.need.push(row_n);
        proof {
            assert forall|t2: int, c2: int|
                0 <= t2 < ntasks + 1 && 0 <= c2 < CLASS_COUNT implies (
            #[trigger] self.allocation@[t2]@[c2])@.len() == self.available@[c2]@.len() by {
                if t2 < ntasks {
                    assert(self.allocation@[t2] == init.allocation@[t2]);
                } else {
                    assert(self.allocation@[t2] == row_a);
                    assert(row_a@[c2]@.len() == init.width(c2));
                }
            }
            assert forall|t2: int, c2: int|
                0 <= t2 < ntasks + 1 && 0 <= c2 < CLASS_COUNT implies (
            #[trigger] self.need@[t2]@[c2])@.len() == self.available@[c2]@.len() by {
                if t2 < ntasks {
                    assert(self.need@[t2] == init.need@[t2]);
                } else {
                    assert(self.need@[t2] == row_n);
                    assert(row_n@[c2]@.len() == init.width(c2));
                }
            }
            assert(self.wf(ntasks as int + 1, n_mutex as int, n_sem as int));
        }
    }

    /// Read one allocation cell.
    pub fn get_alloc(&self, t: usize, c: usize, id: usize) -> (r: usize)
        requires
            t < self.allocation@.len(),
            c < self.allocation@[t as int]@.len(),
            id < self.allocation@[t as int]@[c as int]@.len(),
        ensures
            r == self.alloc_at(t as int, c as int, id as int),
    {
        self.allocation[t][c][id]
    }

    /// Read one need cell.
    pub fn get_need(&self, t: usize, c: usize, id: usize) -> (r: usize)
        requires
            t < self.need@.len(),
            c < self.need@[t as int]@.len(),
            id < self.need@[t as int]@[c as int]@.len(),
        ensures
            r == self.need_at(t as int, c as int, id as int),
    {
        self.need[t][c][id]
    }

    /// Read one available cell.
    pub fn get_avail(&self, c: usize, id: usize) -> (r: usize)
        requires
            c < self.available@.len(),
            id < self.available@[c as int]@.len(),
        ensures
            r == self.avail_at(c as int, id as int),
    {
        self.available[c][id]
    }

    /// Write one allocation cell, preserving the ledger's shape and every
    /// other cell.
    pub fn set_alloc(&mut self, t: usize, c: usize, id: usize, v: usize, ntasks: usize, n_mutex: usize, n_sem: usize)
        requires
            old(self).wf(ntasks as int, n_mutex as int, n_sem as int),
            t < ntasks,
            c < CLASS_COUNT,
            id < old(self).width(c as int),
        ensures
            final(self).wf(ntasks as int, n_mutex as int, n_sem as int),
            final(self).alloc_at(t as int, c as int, id as int) == v,
            forall|t2: int, c2: int, id2: int|
                0 <= t2 < ntasks && 0 <= c2 < CLASS_COUNT && 0 <= id2 < old(self).width(c2)
                    && !(t2 == t && c2 == c && id2 == id) ==> #[trigger] final(self).alloc_at(
                    t2,
                    c2,
                    id2,
                ) == old(self).alloc_at(t2, c2, id2),
            final(self).need == old(self).need,
            final(self).available == old(self).available,
    {
        let ghost init = *self;
        matrix_set(&mut self.allocation, t, c, id, v);
        proof {
            lemma_cell_set_frame(init.allocation@, self.allocation@, t as int, c as int, id as int, v, ntasks as int);
            assert(self.wf(ntasks as int, n_mutex as int, n_sem as int));
        }
    }

    /// Write one need cell, preserving the ledger's shape and every other
    /// cell.
    pub fn set_need(&mut self, t: usize, c: usize, id: usize, v: usize, ntasks: usize, n_mutex: usize, n_sem: usize)
        requires
            old(self).wf(ntasks as int, n_mutex as int, n_sem as int),
            t < ntasks,
            c < CLASS_COUNT,
            id < old(self).width(c as int),
        ensures
            final(self).wf(ntasks as int, n_mutex as int, n_sem as int),
            final(self).need_at(t as int, c as int, id as int) == v,
            forall|t2: int, c2: int, id2: int|
                0 <= t2 < ntasks && 0 <= c2 < CLASS_COUNT && 0 <= id2 < old(self).width(c2)
                    && !(t2 == t && c2 == c && id2 == id) ==> #[trigger] final(self).need_at(
                    t2,
                    c2,
                    id2,
                ) == old(self).need_at(t2, c2, id2),
            final(self).allocation == old(self).allocation,
            final(self).available == old(self).available,
    {
        let ghost init = *self;
        matrix_set(&mut self.need, t, c, id, v);
        proof {
            lemma_cell_set_frame(init.need@, self.need@, t as int, c as int, id as int, v, ntasks as int);
            assert(self.wf(ntasks as int, n_mutex as int, n_sem as int));
        }
    }

    /// Write one available cell, preserving the ledger's shape and every
    /// other cell.
    pub fn set_avail(&mut self, c: usize, id: usize, v: usize, ntasks: usize, n_mutex: usize, n_sem: usize)
        requires
            old(self).wf(ntasks as int, n_mutex as int, n_sem as int),
            c < CLASS_COUNT,
            id < old(self).width(c as int),
        ensures
            final(self).wf(ntasks as int, n_mutex as int, n_sem as int),
            final(self).avail_at(c as int, id as int) == v,
            forall|c2: int, id2: int|
                0 <= c2 < CLASS_COUNT && 0 <= id2 < old(self).width(c2) && !(c2 == c && id2 == id)
                    ==> #[trigger] final(self).avail_at(c2, id2) == old(self).avail_at(c2, id2),
            forall|c2: int| 0 <= c2 < CLASS_COUNT ==> #[trigger] final(self).width(c2) == old(
                self,
            ).width(c2),
            final(self).allocation == old(self).allocation,
            final(self).need == old(self).need,
    {
        let ghost init = *self;
        avail_set(&mut self.available, c, id, v);
        proof {
            assert forall|c2: int| 0 <= c2 < CLASS_COUNT implies #[trigger] self.width(c2)
                == init.width(c2) by {
                if c2 != c {
                    assert(self.available@[c2] == init.available@[c2]);
                }
            }
            assert forall|c2: int, id2: int|
                0 <= c2 < CLASS_COUNT && 0 <= id2 < init.width(c2) && !(c2 == c && id2 == id)
                    implies #[trigger] self.avail_at(c2, id2) == init.avail_at(c2, id2) by {
                if c2 != c {
                    assert(self.available@[c2] == init.available@[c2]);
                } else {
                    assert(self.available@[c2]@ == init.available@[c2]@.update(id as int, v));
                }
            }
            assert(self.wf(ntasks as int, n_mutex as int, n_sem as int));
        }
    }

    /// Copy the need rows of class `c`, as a plain matrix for the detector.
    pub fn need_matrix(&self, c: usize, ntasks: usize) -> (r: Vec<Vec<usize>>)
        requires
            c < CLASS_COUNT,
            self.need@.len() == ntasks,
            forall|t: int| 0 <= t < ntasks ==> (#[trigger] self.need@[t])@.len() == CLASS_COUNT,
        ensures
            r.deep_view() == self.need_class(c as int),
            r@.len() == ntasks,
            forall|t: int| 0 <= t < ntasks ==> (#[trigger] r@[t])@ == self.need@[t]@[c as int]@,
    {
        let r = copy_class(&self.need, c, ntasks);
        proof {
            assert forall|t: int| 0 <= t < ntasks implies #[trigger] r.deep_view()[t]
                == self.need_class(c as int)[t] by {
                assert(r@[t].deep_view() =~= r@[t]@);
            }
            assert(r.deep_view() =~= self.need_class(c as int));
        }
        r
    }

    /// Copy the allocation rows of class `c`, as a plain matrix for the
    /// detector.
    pub fn alloc_matrix(&self, c: usize, ntasks: usize) -> (r: Vec<Vec<usize>>)
        requires
            c < CLASS_COUNT,
            self.allocation@.len() == ntasks,
            forall|t: int| 0 <= t < ntasks ==> (#[trigger] self.allocation@[t])@.len()
                == CLASS_COUNT,
        ensures
            r.deep_view() == self.alloc_class(c as int),
            r@.len() == ntasks,
            forall|t: int| 0 <= t < ntasks ==> (#[trigger] r@[t])@ == self.allocation@[t]@[c as int]@,
    {
        let r = copy_class(&self.allocation, c, ntasks);
        proof {
            assert forall|t: int| 0 <= t < ntasks implies #[trigger] r.deep_view()[t]
                == self.alloc_class(c as int)[t] by {
                assert(r@[t].deep_view() =~= r@[t]@);
            }
            assert(r.deep_view() =~= self.alloc_class(c as int));
        }
        r
    }

    /// Copy the available vector of class `c`.
    pub fn avail_vector(&self, c: usize) -> (r: Vec<usize>)
        requires
            c < CLASS_COUNT,
            self.available@.len() == CLASS_COUNT,
        ensures
            r@ == self.available@[c as int]@,
    {
        let src = &self.available[c];
        let mut r: Vec<usize> = Vec::new();
        let mut i: usize = 0;
        let len = src.len();
        while i < len
            invariant
                0 <= i <= len,
                len == src@.len(),
                r@ == src@.subrange(0, i as int),
            decreases len - i,
        {
            r.push(src[i]);
            proof {
                assert(r@ =~= src@.subrange(0, i + 1));
            }
            i = i + 1;
        }
        proof {
            assert(src@.subrange(0, len as int) =~= src@);
        }
        r
    }
}

/// After one cell write, every other cell and every row length is intact.
proof fn lemma_cell_set_frame(
    m1: Seq<Vec<Vec<usize>>>,
    m2: Seq<Vec<Vec<usize>>>,
    t: int,
    c: int,
    id: int,
    v: usize,
    ntasks: int,
)
    requires
        m1.len() == ntasks,
        m2.len() == ntasks,
        0 <= t < ntasks,
        forall|t2: int| 0 <= t2 < ntasks && t2 != t ==> m2[t2] == m1[t2],
        m2[t]@.len() == m1[t]@.len(),
        0 <= c < m1[t]@.len(),
        0 <= id < m1[t]@[c]@.len(),
        forall|c2: int| 0 <= c2 < m1[t]@.len() && c2 != c ==> m2[t]@[c2] == m1[t]@[c2],
        m2[t]@[c]@ == m1[t]@[c]@.update(id, v),
    ensures
        forall|t2: int| 0 <= t2 < ntasks ==> (#[trigger] m2[t2])@.len() == m1[t2]@.len(),
        forall|t2: int, c2: int|
            0 <= t2 < ntasks && 0 <= c2 < m1[t2]@.len() ==> (#[trigger] m2[t2]@[c2])@.len()
                == m1[t2]@[c2]@.len(),
        forall|t2: int, c2: int, id2: int|
            0 <= t2 < ntasks && 0 <= c2 < m1[t2]@.len() && 0 <= id2 < m1[t2]@[c2]@.len() && !(t2
                == t && c2 == c && id2 == id) ==> #[trigger] m2[t2]@[c2]@[id2] == m1[t2]@[c2]@[id2],
{
    assert forall|t2: int, c2: int|
        0 <= t2 < ntasks && 0 <= c2 < m1[t2]@.len() implies (#[trigger] m2[t2]@[c2])@.len()
        == m1[t2]@[c2]@.len() by {
        if t2 != t {
            assert(m2[t2] == m1[t2]);
        } else if c2 != c {
            assert(m2[t2]@[c2] == m1[t2]@[c2]);
        } else {
            assert(m2[t2]@[c2]@ == m1[t]@[c]@.update(id, v));
        }
    }
    assert forall|t2: int, c2: int, id2: int|
        0 <= t2 < ntasks && 0 <= c2 < m1[t2]@.len() && 0 <= id2 < m1[t2]@[c2]@.len() && !(t2 == t
            && c2 == c && id2 == id) implies #[trigger] m2[t2]@[c2]@[id2] == m1[t2]@[c2]@[id2] by {
        if t2 != t {
            assert(m2[t2] == m1[t2]);
        } else if c2 != c {
            assert(m2[t2]@[c2] == m1[t2]@[c2]);
        } else {
            assert(m2[t2]@[c2]@ == m1[t]@[c]@.update(id, v));
            assert(m1[t]@[c]@.update(id, v)[id2] == m1[t]@[c]@[id2]);
        }
    }
}

/// Copy class `c` of a `[task][class][id]` matrix row by row.
fn copy_class(m: &Vec<Vec<Vec<usize>>>, c: usize, ntasks: usize) -> (r: Vec<Vec<usize>>)
    requires
        m@.len() == ntasks,
        forall|t: int| 0 <= t < ntasks ==> c < (#[trigger] m@[t])@.len(),
    ensures
        r@.len() == ntasks,
        forall|t: int| 0 <= t < ntasks ==> (#[trigger] r@[t])@ == m@[t]@[c as int]@,
{
    let mut r: Vec<Vec<usize>> = Vec::new();
    let mut t: usize = 0;
    while t < ntasks
        invariant
            0 <= t <= ntasks,
            m@.len() == ntasks,
            forall|t2: int| 0 <= t2 < ntasks ==> c < (#[trigger] m@[t2])@.len(),
            r@.len() == t,
            forall|t2: int| 0 <= t2 < t ==> (#[trigger] r@[t2])@ == m@[t2]@[c as int]@,
        decreases ntasks - t,
    {
        let src = &m[t][c];
        let mut row: Vec<usize> = Vec::new();
        let mut i: usize = 0;
        let len = src.len();
        while i < len
            invariant
                0 <= i <= len,
                len == src@.len(),
                row@ == src@.subrange(0, i as int),
            decreases len - i,
        {
            row.push(src[i]);
            proof {
                assert(row@ =~= src@.subrange(0, i + 1));
            }
            i = i + 1;
        }
        proof {
            assert(src@.subrange(0, len as int) =~= src@);
        }
        r.push(row);
        t = t + 1;
    }
    r
}

} // verus!
