//! Deadlock avoidance with the banker's algorithm.
//!
//! A tracker records, for each thread `t` and resource `r`, how many units of
//! `r` the thread holds (`allocation[t][r]`) and how many more it still asks
//! for (`need[t][r]`), together with the units of each resource that are free
//! (`available[r]`).

use vstd::prelude::*;
use crate::sync::safety::{
    all_threads, distinct_below, fits, held, lemma_distinct_below_len, lemma_held_push,
    lemma_held_within_total, lemma_stuck_not_safe,
};

verus! {

/// The abstract state of a [`ResourceTracker`].
pub struct TrackerView {
    pub enabled: bool,
    pub available: Seq<usize>,
    pub allocation: Seq<Seq<usize>>,
    pub need: Seq<Seq<usize>>,
}

impl TrackerView {
    /// Number of threads the tracker knows of.
    pub open spec fn threads(self) -> nat {
        self.allocation.len()
    }

    /// Number of resources the tracker knows of.
    pub open spec fn resources(self) -> nat {
        self.available.len()
    }

    /// Every thread has one allocation row and one need row, each with one
    /// entry per resource.
    pub open spec fn wf(self) -> bool {
        &&& self.need.len() == self.allocation.len()
        &&& forall|t: int|
            0 <= t < self.allocation.len() ==> (#[trigger] self.allocation[t]).len()
                == self.available.len()
        &&& forall|t: int| 0 <= t < self.need.len() ==> (#[trigger] self.need[t]).len() == self.available.len()
    }

    /// The state after thread `t` is (re)registered: the tables grow to hold
    /// it, and its rows, like those of any thread added on the way, are all
    /// zero.
    pub open spec fn with_thread(self, t: int) -> TrackerView {
        let n = if t < self.threads() { self.threads() as int } else { t + 1 };
        let fresh = |u: int| u == t || u >= self.threads();
        TrackerView {
            allocation: Seq::new(n as nat, |u: int| if fresh(u) { zero_row(self.resources()) } else { self.allocation[u] }),
            need: Seq::new(n as nat, |u: int| if fresh(u) { zero_row(self.resources()) } else { self.need[u] }),
            ..self
        }
    }

    /// The state after resource `r` is (re)registered with `val` free units:
    /// the tables grow to hold it, the new columns are zero, and no thread
    /// holds or needs any of `r`.
    pub open spec fn with_resource(self, r: int, val: usize) -> TrackerView {
        let m = if r < self.resources() { self.resources() as int } else { r + 1 };
        TrackerView {
            available: Seq::new(m as nat, |j: int| if j == r { val } else if j < self.resources() { self.available[j] } else { 0usize }),
            allocation: Seq::new(self.threads(), |u: int| clear_column(self.allocation[u], r, m as nat)),
            need: Seq::new(self.need.len(), |u: int| clear_column(self.need[u], r, m as nat)),
            ..self
        }
    }

    /// The state after thread `t` is granted `req` units of resource `r`.
    pub open spec fn grant(self, t: int, r: int, req: int) -> TrackerView {
        TrackerView {
            available: self.available.update(r, (self.available[r] - req) as usize),
            allocation: self.allocation.update(t, self.allocation[t].update(r, (self.allocation[t][r] + req) as usize)),
            need: self.need.update(t, self.need[t].update(r, (self.need[t][r] - req) as usize)),
            ..self
        }
    }

    /// The state after thread `t` hands back `req` units of resource `r`.
    pub open spec fn give_back(self, t: int, r: int, req: int) -> TrackerView {
        TrackerView {
            available: self.available.update(r, (self.available[r] + req) as usize),
            allocation: self.allocation.update(t, self.allocation[t].update(r, (self.allocation[t][r] - req) as usize)),
            ..self
        }
    }

    /// The state after thread `t` declares `req` more units of resource `r`
    /// as needed.
    pub open spec fn add_need(self, t: int, r: int, req: int) -> TrackerView {
        TrackerView {
            need: self.need.update(t, self.need[t].update(r, (self.need[t][r] + req) as usize)),
            ..self
        }
    }
}

/// A row of `n` zeros.
pub open spec fn zero_row(n: nat) -> Seq<usize> {
    Seq::new(n, |j: int| 0usize)
}

/// `row` padded with zeros to length `m` (when shorter), with entry `r` set
/// to zero.
pub open spec fn clear_column(row: Seq<usize>, r: int, m: nat) -> Seq<usize> {
    Seq::new(m, |j: int| if j == r || j >= row.len() { 0usize } else { row[j] })
}

/// Banker's algorithm state.
pub struct ResourceTracker {
    enable: bool,
    available: Vec<usize>,
    allocation: Vec<Vec<usize>>,
    need: Vec<Vec<usize>>,
}

impl View for ResourceTracker {
    type V = TrackerView;

    closed spec fn view(&self) -> TrackerView {
        TrackerView {
            enabled: self.enable,
            available: self.available@,
            allocation: self.allocation@.map_values(|row: Vec<usize>| row@),
            need: self.need@.map_values(|row: Vec<usize>| row@),
        }
    }
}

impl ResourceTracker {
    /// Well-formedness: the shape invariant of the view.
    pub open spec fn wf(&self) -> bool {
        self@.wf()
    }

    /// A disabled tracker that knows of no resource and of one thread (the
    /// process's main thread, thread 0).
    pub fn new() -> (res: Self)
        ensures
            res.wf(),
            !res@.enabled,
            res@.available == Seq::<usize>::empty(),
            res@.allocation == seq![Seq::<usize>::empty()],
            res@.need == seq![Seq::<usize>::empty()],
    {
        let mut allocation: Vec<Vec<usize>> = Vec::new();
        allocation.push(Vec::new());
        let mut need: Vec<Vec<usize>> = Vec::new();
        need.push(Vec::new());
        let res = Self { enable: false, available: Vec::new(), allocation, need };
        assert(res@.allocation =~= seq![Seq::<usize>::empty()]);
        assert(res@.need =~= seq![Seq::<usize>::empty()]);
        res
    }

    /// Turns the tracking on or off; nothing else changes.
    pub fn set_enable(&mut self, enable: bool)
        ensures
            final(self)@ == (TrackerView { enabled: enable, ..old(self)@ }),
    {
        self.enable = enable;
    }

    /// A vector of `n` zeros.
    fn zeros(n: usize) -> (res: Vec<usize>)
        ensures
            res@ == zero_row(n as nat),
    {
        let mut res: Vec<usize> = Vec::new();
        for i in 0..n
            invariant
                res@ =~= zero_row(i as nat),
        {
            res.push(0);
        }
        res
    }

    /// Grows `row` with zeros until it has an entry `r`, then sets that
    /// entry to zero.
    fn clear_entry(row: &mut Vec<usize>, r: usize)
        requires
            r < usize::MAX,
        ensures
            final(row)@ == clear_column(old(row)@, r as int, if r < old(row)@.len() { old(row)@.len() } else { (r + 1) as nat }),
    {
        let ghost old_row = row@;
        while row.len() <= r
            invariant
                r < usize::MAX,
                old_row.len() <= row.len() <= if r < old_row.len() { old_row.len() } else { (r + 1) as nat },
                forall|j: int| 0 <= j < old_row.len() ==> #[trigger] row@[j] == old_row[j],
                forall|j: int| old_row.len() <= j < row.len() ==> #[trigger] row@[j] == 0,
            decreases r + 1 - row.len(),
        {
            row.push(0);
        }
        row[r] = 0;
        assert(row@ =~= clear_column(old_row, r as int, if r < old_row.len() { old_row.len() } else { (r + 1) as nat }));
    }

    /// Registers thread `tid` with zero allocation and zero need, growing the
    /// tables with zero rows up to it. A disabled tracker changes nothing.
    pub fn resize(&mut self, tid: usize)
        requires
            old(self).wf(),
            old(self)@.enabled ==> tid < usize::MAX,
        ensures
            final(self).wf(),
            !old(self)@.enabled ==> final(self)@ == old(self)@,
            old(self)@.enabled ==> final(self)@ == old(self)@.with_thread(tid as int),
    {
        if !self.enable {
            return;
        }
        let ghost pre = self@;
        let res_len = self.available.len();
        while self.allocation.len() <= tid
            invariant
                tid < usize::MAX,
                res_len == pre.resources(),
                self.available@ == pre.available,
                self.need@.map_values(|row: Vec<usize>| row@) == pre.need,
                self.enable == pre.enabled,
                pre.threads() <= self.allocation.len() <= if tid < pre.threads() { pre.threads() as int } else { tid + 1 },
                forall|u: int| 0 <= u < pre.threads() ==> #[trigger] self.allocation@[u]@ == pre.allocation[u],
                forall|u: int| pre.threads() <= u < self.allocation.len() ==> #[trigger] self.allocation@[u]@ == zero_row(res_len as nat),
            decreases tid + 1 - self.allocation.len(),
        {
            let z = Self::zeros(res_len);
            self.allocation.push(z);
        }
        let z = Self::zeros(res_len);
        self.allocation[tid] = z;
        let ghost alloc1 = self.allocation@;
        while self.need.len() <= tid
            invariant
                tid < usize::MAX,
                self.allocation@ == alloc1,
                self.available@ == pre.available,
                self.enable == pre.enabled,
                res_len == pre.resources(),
                pre.need.len() == pre.threads(),
                pre.threads() <= self.need.len() <= if tid < pre.threads() { pre.threads() as int } else { tid + 1 },
                forall|u: int| 0 <= u < pre.threads() ==> #[trigger] self.need@[u]@ == pre.need[u],
                forall|u: int| pre.threads() <= u < self.need.len() ==> #[trigger] self.need@[u]@ == zero_row(res_len as nat),
            decreases tid + 1 - self.need.len(),
        {
            let z = Self::zeros(res_len);
            self.need.push(z);
        }
        let z = Self::zeros(res_len);
        self.need[tid] = z;
        assert(self@.allocation =~= pre.with_thread(tid as int).allocation);
        assert(self@.need =~= pre.with_thread(tid as int).need);
    }

    /// Registers resource `res_id` with `res_val` free units: the tables
    /// grow with zero columns up to it, and every thread's allocation and
    /// need of it are reset to zero. A disabled tracker changes nothing.
    pub fn add_resource(&mut self, res_id: usize, res_val: usize)
        requires
            old(self).wf(),
            old(self)@.enabled ==> res_id < usize::MAX,
        ensures
            final(self).wf(),
            !old(self)@.enabled ==> final(self)@ == old(self)@,
            old(self)@.enabled ==> final(self)@ == old(self)@.with_resource(res_id as int, res_val),
    {
        if !self.enable {
            return;
        }
        let ghost pre = self@;
        let ghost alloc0 = self.allocation@;
        let ghost need0 = self.need@;
        let ghost m: nat = if (res_id as int) < pre.resources() { pre.resources() } else { (res_id + 1) as nat };
        while self.available.len() <= res_id
            invariant
                res_id < usize::MAX,
                self.allocation@ == alloc0,
                self.need@ == need0,
                pre == (TrackerView { enabled: self.enable, available: pre.available, allocation: alloc0.map_values(|row: Vec<usize>| row@), need: need0.map_values(|row: Vec<usize>| row@) }),
                pre.resources() <= self.available.len() <= m,
                m == if (res_id as int) < pre.resources() { pre.resources() } else { (res_id + 1) as nat },
                forall|j: int| 0 <= j < pre.resources() ==> #[trigger] self.available@[j] == pre.available[j],
                forall|j: int| pre.resources() <= j < self.available.len() ==> #[trigger] self.available@[j] == 0,
            decreases res_id + 1 - self.available.len(),
        {
            self.available.push(0);
        }
        self.available[res_id] = res_val;
        assert(self.available@ =~= pre.with_resource(res_id as int, res_val).available);
        let ghost avail1 = self.available@;
        assert forall|u: int| 0 <= u < alloc0.len() implies #[trigger] self.allocation@[u]@ == pre.allocation[u] by {}

        let n = self.allocation.len();
        for i in 0..n
            invariant
                res_id < usize::MAX,
                n == pre.threads(),
                self.allocation.len() == n,
                m == if (res_id as int) < pre.resources() { pre.resources() } else { (res_id + 1) as nat },
                pre.wf(),
                self.need@ == need0,
                self.available@ == avail1,
                self.enable == pre.enabled,
                forall|u: int| 0 <= u < i ==> #[trigger] self.allocation@[u]@ == clear_column(pre.allocation[u], res_id as int, m),
                forall|u: int| i <= u < n ==> #[trigger] self.allocation@[u]@ == pre.allocation[u],
        {
            Self::clear_entry(&mut self.allocation[i], res_id);
        }
        let ghost alloc2 = self.allocation@;
        assert forall|u: int| 0 <= u < need0.len() implies #[trigger] self.need@[u]@ == pre.need[u] by {}
        let n = self.need.len();
        for i in 0..n
            invariant
                res_id < usize::MAX,
                n == pre.need.len(),
                self.need.len() == n,
                m == if (res_id as int) < pre.resources() { pre.resources() } else { (res_id + 1) as nat },
                pre.wf(),
                self.allocation@ == alloc2,
                self.available@ == avail1,
                self.enable == pre.enabled,
                forall|u: int| 0 <= u < i ==> #[trigger] self.need@[u]@ == clear_column(pre.need[u], res_id as int, m),
                forall|u: int| i <= u < n ==> #[trigger] self.need@[u]@ == pre.need[u],
        {
            Self::clear_entry(&mut self.need[i], res_id);
        }
        assert(self@.allocation =~= pre.with_resource(res_id as int, res_val).allocation);
        assert(self@.need =~= pre.with_resource(res_id as int, res_val).need);
    }

    /// Whether the work vector covers all that `row` still needs.
    fn row_fits(row: &Vec<usize>, work: &Vec<usize>) -> (res: bool)
        requires
            row.len() == work.len(),
        ensures
            res == fits(row@, work@),
    {
        let n = work.len();
        for j in 0..n
            invariant
                n == work.len(),
                row.len() == work.len(),
                forall|k: int| 0 <= k < j ==> #[trigger] row@[k] <= work@[k],
        {
            if row[j] > work[j] {
                return false;
            }
        }
        true
    }

    /// Whether every entry of `flags` is set.
    fn all_set(flags: &Vec<bool>) -> (res: bool)
        ensures
            res == forall|i: int| 0 <= i < flags.len() ==> #[trigger] flags@[i],
    {
        let n = flags.len();
        for i in 0..n
            invariant
                n == flags.len(),
                forall|k: int| 0 <= k < i ==> #[trigger] flags@[k],
        {
            if !flags[i] {
                return false;
            }
        }
        true
    }

    /// The first thread that has not finished and whose need the work
    /// vector covers.
    fn find_runnable(&self, work: &Vec<usize>, finish: &Vec<bool>) -> (res: Option<usize>)
        requires
            self.wf(),
            work.len() == self@.resources(),
            finish.len() == self@.threads(),
        ensures
            match res {
                Some(t) => {
                    &&& t < self@.threads()
                    &&& !finish@[t as int]
                    &&& fits(self@.need[t as int], work@)
                    &&& forall|u: int| 0 <= u < t ==> #[trigger] finish@[u] || !fits(self@.need[u], work@)
                },
                None => forall|u: int| 0 <= u < self@.threads() ==> #[trigger] finish@[u] || !fits(self@.need[u], work@),
            },
    {
        let n = self.allocation.len();
        for t in 0..n
            invariant
                n == self@.threads(),
                self.wf(),
                work.len() == self@.resources(),
                finish.len() == self@.threads(),
                forall|u: int| 0 <= u < t ==> #[trigger] finish@[u] || !fits(self@.need[u], work@),
        {
            if !finish[t] {
                assert(self.need@[t as int]@ == self@.need[t as int]);
                if Self::row_fits(&self.need[t], work) {
                    return Some(t);
                }
            }
        }
        None
    }

    /// Records that thread `tid` needs `req` more units of resource `res_id`
    /// and runs the banker's safety check: the result tells whether some
    /// order lets every thread obtain what it needs and finish. The added
    /// need stays recorded whatever the result. A disabled tracker answers
    /// `true` and changes nothing.
    pub fn check_safe_state(&mut self, tid: usize, res_id: usize, req: usize) -> (res: bool)
        requires
            old(self).wf(),
            old(self)@.enabled ==> {
                &&& tid < old(self)@.threads()
                &&& res_id < old(self)@.resources()
                &&& old(self)@.need[tid as int][res_id as int] + req <= usize::MAX
                &&& old(self)@.totals_fit()
            },
        ensures
            final(self).wf(),
            !old(self)@.enabled ==> final(self)@ == old(self)@ && res,
            old(self)@.enabled ==> final(self)@ == old(self)@.add_need(tid as int, res_id as int, req as int),
            old(self)@.enabled ==> res == final(self)@.is_safe(),
    {
        if !self.enable {
            return true;
        }
        let ghost pre = self@;
        let cur = self.need[tid][res_id];
        self.need[tid][res_id] = cur + req;
        assert(self@.need =~= pre.add_need(tid as int, res_id as int, req as int).need);
        let ghost v = self@;
        assert(v == pre.add_need(tid as int, res_id as int, req as int));
        assert(v.wf());
        assert(v.totals_fit()) by {
            assert forall|j: int| 0 <= j < v.resources() implies #[trigger] v.work(all_threads(v.threads()), j) <= usize::MAX by {
                assert(v.work(all_threads(v.threads()), j) == pre.work(all_threads(pre.threads()), j));
            }
        }

        let res_len = self.available.len();
        let thr_len = self.allocation.len();
        let mut work = self.available.clone();
        assert(work@ =~= v.available);
        let mut finish: Vec<bool> = Vec::new();
        for i in 0..thr_len
            invariant
                finish.len() == i,
                forall|k: int| 0 <= k < i ==> !#[trigger] finish@[k],
        {
            finish.push(false);
        }
        let ghost mut order: Seq<int> = Seq::empty();
        loop
            invariant
                self@ == v,
                v.wf(),
                v.totals_fit(),
                res_len == v.resources(),
                thr_len == v.threads(),
                work.len() == res_len,
                finish.len() == thr_len,
                distinct_below(order, v.threads()),
                forall|t: int| 0 <= t < thr_len ==> (#[trigger] finish@[t] <==> order.contains(t)),
                forall|j: int| 0 <= j < res_len ==> #[trigger] work@[j] == v.work(order, j),
                forall|k: int| 0 <= k < order.len() ==> #[trigger] v.can_finish(order[k], order.take(k)),
            ensures
                forall|u: int| 0 <= u < thr_len ==> #[trigger] finish@[u] || !fits(v.need[u], work@),
            decreases thr_len - order.len(),
        {
            proof {
                lemma_distinct_below_len(order, v.threads());
            }
            match self.find_runnable(&work, &finish) {
                Some(t) => {
                    proof {
                        assert(!order.contains(t as int));
                        assert(v.can_finish(t as int, order)) by {
                            assert forall|j: int| 0 <= j < v.resources() implies #[trigger] v.need[t as int][j] <= v.work(order, j) by {
                                assert(work@[j] == v.work(order, j));
                            }
                        }
                    }
                    let ghost next = order.push(t as int);
                    proof {
                        assert(distinct_below(next, v.threads())) by {
                            assert forall|i: int, k: int|
                                0 <= i < next.len() && 0 <= k < next.len() && i != k implies next[i] != next[k] by {
                                if i == order.len() as int {
                                    assert(next[i] == t as int);
                                    assert(next[k] == order[k]);
                                } else if k == order.len() as int {
                                    assert(next[k] == t as int);
                                    assert(next[i] == order[i]);
                                }
                            }
                        }
                    }
                    assert(self.allocation@[t as int]@ == v.allocation[t as int]);
                    for j in 0..res_len
                        invariant
                            self@ == v,
                            v.wf(),
                            v.totals_fit(),
                            res_len == v.resources(),
                            thr_len == v.threads(),
                            t < thr_len,
                            work.len() == res_len,
                            distinct_below(next, v.threads()),
                            next == order.push(t as int),
                            forall|k: int| 0 <= k < j ==> #[trigger] work@[k] == v.work(next, k),
                            forall|k: int| j <= k < res_len ==> #[trigger] work@[k] == v.work(order, k),
                    {
                        proof {
                            lemma_held_push(v.allocation, order, t as int, j as int);
                            lemma_held_within_total(v, next, j as int);
                            assert(self.allocation@[t as int]@ == v.allocation[t as int]);
                        }
                        let w = work[j] + self.allocation[t][j];
                        work[j] = w;
                    }
                    finish[t] = true;
                    proof {
                        assert forall|u: int| 0 <= u < thr_len implies (#[trigger] finish@[u] <==> next.contains(u)) by {
                            if u == t as int {
                                assert(next[order.len() as int] == u);
                            } else {
                                if order.contains(u) {
                                    let k = choose|k: int| 0 <= k < order.len() && order[k] == u;
                                    assert(next[k] == u);
                                }
                                if next.contains(u) {
                                    let k = choose|k: int| 0 <= k < next.len() && next[k] == u;
                                    assert(order[k] == u);
                                }
                            }
                        }
                        assert forall|k: int| 0 <= k < next.len() implies #[trigger] v.can_finish(next[k], next.take(k)) by {
                            if k == order.len() as int {
                                assert(next.take(k) =~= order);
                            } else {
                                assert(next.take(k) =~= order.take(k));
                                assert(next[k] == order[k]);
                            }
                        }
                        order = next;
                        lemma_distinct_below_len(order, v.threads());
                    }
                }
                None => {
                    break;
                }
            }
        }
        let res = Self::all_set(&finish);
        proof {
            if res {
                assert forall|i: int| 0 <= i < v.threads() implies order.contains(i) by {
                    assert(finish@[i]);
                }
                lemma_distinct_below_len(order, v.threads());
                assert(v.is_safe_sequence(order));
            } else {
                let i = choose|i: int| 0 <= i < finish.len() && !finish@[i];
                assert(!order.contains(i));
                lemma_distinct_below_len(order, v.threads());
                assert forall|u: int| 0 <= u < v.threads() && !order.contains(u) implies !v.can_finish(u, order) by {
                    assert(!finish@[u]);
                    assert(!fits(v.need[u], work@));
                    let j = choose|j: int| 0 <= j < work@.len() && !(#[trigger] v.need[u][j] <= work@[j]);
                    assert(work@[j] == v.work(order, j));
                }
                lemma_stuck_not_safe(v, order);
            }
        }
        res
    }

    /// Grants thread `tid` the `req` units of resource `res_id` it asked
    /// for: they leave the free pool, join its allocation and leave its
    /// need. A disabled tracker changes nothing.
    pub fn request_resource(&mut self, tid: usize, res_id: usize, req: usize)
        requires
            old(self).wf(),
            old(self)@.enabled ==> {
                &&& tid < old(self)@.threads()
                &&& res_id < old(self)@.resources()
                &&& req <= old(self)@.available[res_id as int]
                &&& old(self)@.allocation[tid as int][res_id as int] + req <= usize::MAX
                &&& req <= old(self)@.need[tid as int][res_id as int]
            },
        ensures
            final(self).wf(),
            !old(self)@.enabled ==> final(self)@ == old(self)@,
            old(self)@.enabled ==> final(self)@ == old(self)@.grant(tid as int, res_id as int, req as int),
    {
        if !self.enable {
            return;
        }
        let ghost pre = self@;
        assert(self.allocation@[tid as int]@ == pre.allocation[tid as int]);
        assert(self.need@[tid as int]@ == pre.need[tid as int]);
        let a = self.available[res_id];
        self.available[res_id] = a - req;
        let h = self.allocation[tid][res_id];
        self.allocation[tid][res_id] = h + req;
        let w = self.need[tid][res_id];
        self.need[tid][res_id] = w - req;
        assert(self@.available =~= pre.grant(tid as int, res_id as int, req as int).available);
        assert(self@.allocation =~= pre.grant(tid as int, res_id as int, req as int).allocation);
        assert(self@.need =~= pre.grant(tid as int, res_id as int, req as int).need);
    }

    /// Takes back `req` units of resource `res_id` from thread `tid` into
    /// the free pool. A disabled tracker changes nothing.
    pub fn release_resource(&mut self, tid: usize, res_id: usize, req: usize)
        requires
            old(self).wf(),
            old(self)@.enabled ==> {
                &&& tid < old(self)@.threads()
                &&& res_id < old(self)@.resources()
                &&& old(self)@.available[res_id as int] + req <= usize::MAX
                &&& req <= old(self)@.allocation[tid as int][res_id as int]
            },
        ensures
            final(self).wf(),
            !old(self)@.enabled ==> final(self)@ == old(self)@,
            old(self)@.enabled ==> final(self)@ == old(self)@.give_back(tid as int, res_id as int, req as int),
    {
        if !self.enable {
            return;
        }
        let ghost pre = self@;
        assert(self.allocation@[tid as int]@ == pre.allocation[tid as int]);
        let a = self.available[res_id];
        self.available[res_id] = a + req;
        let h = self.allocation[tid][res_id];
        self.allocation[tid][res_id] = h - req;
        assert(self@.available =~= pre.give_back(tid as int, res_id as int, req as int).available);
        assert(self@.allocation =~= pre.give_back(tid as int, res_id as int, req as int).allocation);
        assert(self@.need =~= pre.give_back(tid as int, res_id as int, req as int).need);
    }
}

} // verus!
