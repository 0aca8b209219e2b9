//! The safety condition of the banker's algorithm, stated over the abstract
//! state of a tracker, and the facts about it that the algorithm relies on.

use vstd::prelude::*;
use crate::sync::resource_tracker::TrackerView;

verus! {

/// Units of resource `j` held, in total, by the threads listed in `order`.
pub open spec fn held(allocation: Seq<Seq<usize>>, order: Seq<int>, j: int) -> int
    decreases order.len(),
{
    if order.len() == 0 {
        0
    } else {
        held(allocation, order.drop_last(), j) + allocation[order.last()][j]
    }
}

/// The thread indices `0, 1, ..., n - 1`, in order.
pub open spec fn all_threads(n: nat) -> Seq<int> {
    Seq::new(n, |i: int| i)
}

/// `order` lists distinct threads, each below `n`.
pub open spec fn distinct_below(order: Seq<int>, n: nat) -> bool {
    &&& order.no_duplicates()
    &&& forall|k: int| 0 <= k < order.len() ==> 0 <= #[trigger] order[k] < n
}

/// Each entry of `row` is at most the matching entry of `work`.
pub open spec fn fits(row: Seq<usize>, work: Seq<usize>) -> bool {
    forall|j: int| 0 <= j < work.len() ==> #[trigger] row[j] <= work[j]
}

impl TrackerView {
    /// Units of resource `j` that are free once the threads of `order` have
    /// run to completion and handed back what they hold.
    pub open spec fn work(self, order: Seq<int>, j: int) -> int {
        self.available[j] + held(self.allocation, order, j)
    }

    /// Thread `t` can get all it still needs once the threads of `order`
    /// have finished.
    pub open spec fn can_finish(self, t: int, order: Seq<int>) -> bool {
        forall|j: int| 0 <= j < self.resources() ==> #[trigger] self.need[t][j] <= self.work(order, j)
    }

    /// `order` is a safe sequence: it names every thread once, and each
    /// thread can finish with what is free plus what the threads before it
    /// hand back.
    pub open spec fn is_safe_sequence(self, order: Seq<int>) -> bool {
        &&& order.len() == self.threads()
        &&& distinct_below(order, self.threads())
        &&& forall|k: int| 0 <= k < order.len() ==> #[trigger] self.can_finish(order[k], order.take(k))
    }

    /// The state is safe: some order lets every thread run to completion.
    pub open spec fn is_safe(self) -> bool {
        exists|order: Seq<int>| self.is_safe_sequence(order)
    }

    /// The free units of each resource plus all units held stay within
    /// `usize`, so the algorithm's running totals cannot overflow.
    pub open spec fn totals_fit(self) -> bool {
        forall|j: int| 0 <= j < self.resources() ==> #[trigger] self.work(all_threads(self.threads()), j) <= usize::MAX
    }
}

pub proof fn lemma_held_nonneg(allocation: Seq<Seq<usize>>, order: Seq<int>, j: int)
    ensures
        held(allocation, order, j) >= 0,
    decreases order.len(),
{
    if order.len() > 0 {
        lemma_held_nonneg(allocation, order.drop_last(), j);
    }
}

pub proof fn lemma_held_push(allocation: Seq<Seq<usize>>, order: Seq<int>, t: int, j: int)
    ensures
        held(allocation, order.push(t), j) == held(allocation, order, j) + allocation[t][j],
{
    assert(order.push(t).drop_last() =~= order);
}

/// Taking one thread out of `order` takes its units out of the total.
pub proof fn lemma_held_remove(allocation: Seq<Seq<usize>>, order: Seq<int>, p: int, j: int)
    requires
        0 <= p < order.len(),
    ensures
        held(allocation, order, j) == held(allocation, order.remove(p), j) + allocation[order[p]][j],
    decreases order.len(),
{
    if p == order.len() - 1 {
        assert(order.remove(p) =~= order.drop_last());
    } else {
        let shorter = order.drop_last();
        lemma_held_remove(allocation, shorter, p, j);
        assert(order.remove(p).drop_last() =~= shorter.remove(p));
        assert(order.remove(p).last() == order.last());
    }
}

/// Fewer distinct threads hold no more units.
pub proof fn lemma_held_subset(allocation: Seq<Seq<usize>>, a: Seq<int>, b: Seq<int>, j: int)
    requires
        a.no_duplicates(),
        b.no_duplicates(),
        forall|x: int| a.contains(x) ==> b.contains(x),
    ensures
        held(allocation, a, j) <= held(allocation, b, j),
    decreases a.len(),
{
    if a.len() == 0 {
        lemma_held_nonneg(allocation, b, j);
    } else {
        let x = a.last();
        let rest = a.drop_last();
        assert(a.contains(x)) by {
            assert(a[a.len() - 1] == x);
        }
        let p = choose|p: int| 0 <= p < b.len() && b[p] == x;
        let others = b.remove(p);
        b.remove_ensures(p);
        lemma_held_remove(allocation, b, p, j);
        assert forall|y: int| rest.contains(y) implies others.contains(y) by {
            let k = choose|k: int| 0 <= k < rest.len() && rest[k] == y;
            assert(a[k] == y);
            assert(a[a.len() - 1] == x);
            assert(y != x);
            assert(a.contains(y));
            let q = choose|q: int| 0 <= q < b.len() && b[q] == y;
            if q < p {
                assert(others[q] == y);
            } else {
                assert(others[q - 1] == y);
            }
        }
        assert forall|i: int, k: int|
            0 <= i < others.len() && 0 <= k < others.len() && i != k implies others[i] != others[k] by {
            let bi = if i < p { i } else { i + 1 };
            let bk = if k < p { k } else { k + 1 };
            assert(others[i] == b[bi]);
            assert(others[k] == b[bk]);
        }
        assert forall|i: int, k: int|
            0 <= i < rest.len() && 0 <= k < rest.len() && i != k implies rest[i] != rest[k] by {
            assert(rest[i] == a[i]);
            assert(rest[k] == a[k]);
        }
        lemma_held_subset(allocation, rest, others, j);
    }
}

/// A list of distinct threads below `n` is no longer than `n`, and exactly
/// as long when it names every one of them.
pub proof fn lemma_distinct_below_len(order: Seq<int>, n: nat)
    requires
        distinct_below(order, n),
    ensures
        order.len() <= n,
        (forall|i: int| 0 <= i < n ==> order.contains(i)) ==> order.len() == n,
        forall|i: int| 0 <= i < n && !order.contains(i) ==> order.len() < n,
{
    vstd::set_lib::lemma_int_range(0, n as int);
    order.unique_seq_to_set();
    let range = vstd::set_lib::set_int_range(0, n as int);
    assert(order.to_set().subset_of(range)) by {
        assert forall|x: int| order.to_set().contains(x) implies range.contains(x) by {
            let k = choose|k: int| 0 <= k < order.len() && order[k] == x;
            assert(0 <= order[k] < n);
        }
    }
    vstd::set_lib::lemma_len_subset(order.to_set(), range);
    if forall|i: int| 0 <= i < n ==> order.contains(i) {
        assert(range.subset_of(order.to_set()));
        vstd::seq_lib::seq_to_set_is_finite(order);
        vstd::set_lib::lemma_len_subset(range, order.to_set());
    }
    assert forall|i: int| 0 <= i < n && !order.contains(i) implies order.len() < n by {
        assert(order.to_set().subset_of(range.remove(i)));
        vstd::set_lib::lemma_len_subset(order.to_set(), range.remove(i));
    }
}

/// The whole thread list is distinct and names each thread below `n`.
pub proof fn lemma_all_threads(n: nat)
    ensures
        distinct_below(all_threads(n), n),
        forall|i: int| 0 <= i < n ==> #[trigger] all_threads(n).contains(i),
{
    assert forall|i: int| 0 <= i < n implies #[trigger] all_threads(n).contains(i) by {
        assert(all_threads(n)[i] == i);
    }
}

/// The units held by any distinct threads are within the totals.
pub proof fn lemma_held_within_total(v: TrackerView, order: Seq<int>, j: int)
    requires
        distinct_below(order, v.threads()),
    ensures
        v.work(order, j) <= v.work(all_threads(v.threads()), j),
{
    lemma_all_threads(v.threads());
    assert forall|x: int| order.contains(x) implies all_threads(v.threads()).contains(x) by {
        let k = choose|k: int| 0 <= k < order.len() && order[k] == x;
        assert(0 <= order[k] < v.threads());
    }
    lemma_held_subset(v.allocation, order, all_threads(v.threads()), j);
}

/// Returns the first index of `s` whose thread is not in `done`, given that
/// there is one at or after `from` and none before `from`.
proof fn first_missing(s: Seq<int>, done: Seq<int>, from: int) -> (k: int)
    requires
        0 <= from <= s.len(),
        forall|m: int| 0 <= m < from ==> done.contains(#[trigger] s[m]),
        exists|m: int| from <= m < s.len() && !done.contains(#[trigger] s[m]),
    ensures
        from <= k < s.len(),
        !done.contains(s[k]),
        forall|m: int| 0 <= m < k ==> done.contains(#[trigger] s[m]),
    decreases s.len() - from,
{
    if !done.contains(s[from]) {
        from
    } else {
        first_missing(s, done, from + 1)
    }
}

/// Completeness of the search: when the threads of `order` have finished,
/// some thread is left, and no thread left can finish, then no safe
/// sequence exists.
pub proof fn lemma_stuck_not_safe(v: TrackerView, order: Seq<int>)
    requires
        v.wf(),
        distinct_below(order, v.threads()),
        order.len() < v.threads(),
        forall|t: int| 0 <= t < v.threads() && !order.contains(t) ==> !v.can_finish(t, order),
    ensures
        !v.is_safe(),
{
    if v.is_safe() {
        let s = choose|s: Seq<int>| v.is_safe_sequence(s);
        // Some thread of `s` has not finished.
        if forall|m: int| 0 <= m < s.len() ==> order.contains(#[trigger] s[m]) {
            s.unique_seq_to_set();
            order.unique_seq_to_set();
            vstd::seq_lib::seq_to_set_is_finite(order);
            assert(s.to_set().subset_of(order.to_set())) by {
                assert forall|x: int| s.to_set().contains(x) implies order.to_set().contains(x) by {
                    let m = choose|m: int| 0 <= m < s.len() && s[m] == x;
                    assert(order.contains(s[m]));
                }
            }
            vstd::set_lib::lemma_len_subset(s.to_set(), order.to_set());
            assert(false);
        }
        let k = first_missing(s, order, 0);
        let prefix = s.take(k);
        assert forall|x: int| prefix.contains(x) implies order.contains(x) by {
            let m = choose|m: int| 0 <= m < prefix.len() && prefix[m] == x;
            assert(s[m] == x);
        }
        assert forall|i: int, m: int|
            0 <= i < prefix.len() && 0 <= m < prefix.len() && i != m implies prefix[i] != prefix[m] by {
            assert(prefix[i] == s[i]);
            assert(prefix[m] == s[m]);
        }
        assert(v.can_finish(s[k], prefix));
        assert(0 <= s[k] < v.threads());
        assert(v.can_finish(s[k], order)) by {
            assert forall|j: int| 0 <= j < v.resources() implies #[trigger] v.need[s[k]][j] <= v.work(order, j) by {
                lemma_held_subset(v.allocation, prefix, order, j);
            }
        }
    }
}

/// Changing one entry of the allocation table changes the units held by a
/// distinct list of threads only when the list names that thread, and then
/// by the difference.
pub proof fn lemma_held_update(
    allocation: Seq<Seq<usize>>,
    order: Seq<int>,
    t: int,
    r: int,
    val: usize,
    j: int,
)
    requires
        distinct_below(order, allocation.len()),
        0 <= t < allocation.len(),
        0 <= r < allocation[t].len(),
        0 <= j < allocation[t].len(),
    ensures
        held(allocation.update(t, allocation[t].update(r, val)), order, j) == held(allocation, order, j)
            + if j == r && order.contains(t) { val - allocation[t][r] } else { 0 },
    decreases order.len(),
{
    let changed = allocation.update(t, allocation[t].update(r, val));
    if order.len() > 0 {
        let rest = order.drop_last();
        assert forall|i: int, k: int|
            0 <= i < rest.len() && 0 <= k < rest.len() && i != k implies rest[i] != rest[k] by {
            assert(rest[i] == order[i]);
            assert(rest[k] == order[k]);
        }
        lemma_held_update(allocation, rest, t, r, val, j);
        let x = order.last();
        assert(order[order.len() - 1] == x);
        assert(0 <= x < allocation.len());
        assert(held(changed, order, j) == held(changed, rest, j) + changed[x][j]);
        if x == t {
            assert(!rest.contains(t)) by {
                if rest.contains(t) {
                    let k = choose|k: int| 0 <= k < rest.len() && rest[k] == t;
                    assert(order[k] == t);
                }
            }
        } else {
            if order.contains(t) {
                let k = choose|k: int| 0 <= k < order.len() && order[k] == t;
                assert(rest[k] == t);
            }
            if rest.contains(t) {
                let k = choose|k: int| 0 <= k < rest.len() && rest[k] == t;
                assert(order[k] == t);
            }
        }
    }
}

/// Granting a request and then handing the same units back restores the
/// free pool and the allocation table; only the need keeps the decrease.
pub proof fn law_give_back_undoes_grant(v: TrackerView, t: int, r: int, req: int)
    requires
        v.wf(),
        0 <= t < v.threads(),
        0 <= r < v.resources(),
        0 <= req <= v.available[r],
        v.allocation[t][r] + req <= usize::MAX,
        req <= v.need[t][r],
    ensures
        v.grant(t, r, req).give_back(t, r, req).available == v.available,
        v.grant(t, r, req).give_back(t, r, req).allocation == v.allocation,
        v.grant(t, r, req).give_back(t, r, req).need == v.grant(t, r, req).need,
        v.grant(t, r, req).give_back(t, r, req).enabled == v.enabled,
{
    let after = v.grant(t, r, req).give_back(t, r, req);
    assert(after.available =~= v.available);
    assert(after.allocation[t] =~= v.allocation[t]);
    assert(after.allocation =~= v.allocation);
}

/// Granting a request keeps, for every resource, the sum of the free units
/// and the units held by all threads.
pub proof fn law_grant_conserves_units(v: TrackerView, t: int, r: int, req: int, j: int)
    requires
        v.wf(),
        0 <= t < v.threads(),
        0 <= r < v.resources(),
        0 <= req <= v.available[r],
        v.allocation[t][r] + req <= usize::MAX,
        req <= v.need[t][r],
        0 <= j < v.resources(),
    ensures
        v.grant(t, r, req).work(all_threads(v.threads()), j) == v.work(all_threads(v.threads()), j),
{
    let n = v.threads();
    lemma_all_threads(n);
    assert(all_threads(n).contains(t));
    lemma_held_update(v.allocation, all_threads(n), t, r, (v.allocation[t][r] + req) as usize, j);
}

/// Handing units back keeps, for every resource, the sum of the free units
/// and the units held by all threads.
pub proof fn law_give_back_conserves_units(v: TrackerView, t: int, r: int, req: int, j: int)
    requires
        v.wf(),
        0 <= t < v.threads(),
        0 <= r < v.resources(),
        0 <= req <= v.allocation[t][r],
        v.available[r] + req <= usize::MAX,
        0 <= j < v.resources(),
    ensures
        v.give_back(t, r, req).work(all_threads(v.threads()), j) == v.work(all_threads(v.threads()), j),
{
    let n = v.threads();
    lemma_all_threads(n);
    assert(all_threads(n).contains(t));
    lemma_held_update(v.allocation, all_threads(n), t, r, (v.allocation[t][r] - req) as usize, j);
}

/// Handing units back never turns a safe state into an unsafe one: any
/// safe sequence of the state before stays safe.
pub proof fn law_give_back_keeps_safety(v: TrackerView, t: int, r: int, req: int)
    requires
        v.wf(),
        v.is_safe(),
        0 <= t < v.threads(),
        0 <= r < v.resources(),
        0 <= req <= v.allocation[t][r],
        v.available[r] + req <= usize::MAX,
    ensures
        v.give_back(t, r, req).is_safe(),
{
    let w = v.give_back(t, r, req);
    let s = choose|s: Seq<int>| v.is_safe_sequence(s);
    assert forall|k: int| 0 <= k < s.len() implies #[trigger] w.can_finish(s[k], s.take(k)) by {
        assert(v.can_finish(s[k], s.take(k)));
        let prefix = s.take(k);
        assert forall|i: int, m: int|
            0 <= i < prefix.len() && 0 <= m < prefix.len() && i != m implies prefix[i] != prefix[m] by {
            assert(prefix[i] == s[i]);
            assert(prefix[m] == s[m]);
        }
        assert forall|j: int| 0 <= j < w.resources() implies #[trigger] w.need[s[k]][j] <= w.work(prefix, j) by {
            lemma_held_update(v.allocation, prefix, t, r, (v.allocation[t][r] - req) as usize, j);
            assert(v.need[s[k]][j] <= v.work(prefix, j));
        }
    }
    assert(w.is_safe_sequence(s));
}

/// Declaring a zero request leaves the state as it was.
pub proof fn law_zero_need_changes_nothing(v: TrackerView, t: int, r: int)
    requires
        v.wf(),
        0 <= t < v.threads(),
        0 <= r < v.resources(),
    ensures
        v.add_need(t, r, 0) == v,
{
    assert(v.need[t].update(r, v.need[t][r]) =~= v.need[t]);
    assert(v.add_need(t, r, 0).need =~= v.need);
}

/// The units of resource `j` held by the threads of `order` depend only on
/// those threads' entries for `j`.
pub proof fn lemma_held_congruent(a: Seq<Seq<usize>>, b: Seq<Seq<usize>>, order: Seq<int>, j: int)
    requires
        forall|k: int| 0 <= k < order.len() ==> #[trigger] a[order[k]][j] == b[order[k]][j],
    ensures
        held(a, order, j) == held(b, order, j),
    decreases order.len(),
{
    if order.len() > 0 {
        let rest = order.drop_last();
        assert forall|k: int| 0 <= k < rest.len() implies #[trigger] a[rest[k]][j] == b[rest[k]][j] by {
            assert(rest[k] == order[k]);
        }
        lemma_held_congruent(a, b, rest, j);
        assert(a[order[order.len() - 1]][j] == b[order[order.len() - 1]][j]);
    }
}

/// Registering a thread that the tracker did not know yet never turns a
/// safe state into an unsafe one: the new threads need nothing and can
/// finish last.
pub proof fn law_new_thread_keeps_safety(v: TrackerView, t: int)
    requires
        v.wf(),
        v.is_safe(),
        t >= v.threads(),
    ensures
        v.with_thread(t).is_safe(),
{
    let w = v.with_thread(t);
    let n = v.threads() as int;
    let s = choose|s: Seq<int>| v.is_safe_sequence(s);
    let extra = Seq::new((t + 1 - n) as nat, |i: int| n + i);
    let s2 = s + extra;
    assert(w.threads() == t + 1);
    assert(distinct_below(s2, w.threads())) by {
        assert forall|i: int, k: int|
            0 <= i < s2.len() && 0 <= k < s2.len() && i != k implies s2[i] != s2[k] by {
            if i < n && k < n {
                assert(s2[i] == s[i] && s2[k] == s[k]);
            } else if i < n {
                assert(s2[i] == s[i] && s[i] < n);
            } else if k < n {
                assert(s2[k] == s[k] && s[k] < n);
            }
        }
        assert forall|k: int| 0 <= k < s2.len() implies 0 <= #[trigger] s2[k] < w.threads() by {
            if k < n {
                assert(s2[k] == s[k]);
            }
        }
    }
    assert forall|k: int| 0 <= k < s2.len() implies #[trigger] w.can_finish(s2[k], s2.take(k)) by {
        let prefix = s2.take(k);
        assert forall|j: int| 0 <= j < w.resources() implies #[trigger] w.need[s2[k]][j] <= w.work(prefix, j) by {
            lemma_held_nonneg(w.allocation, prefix, j);
            if k < n {
                assert(s2[k] == s[k]);
                assert(prefix =~= s.take(k));
                assert(v.can_finish(s[k], s.take(k)));
                assert forall|m: int| 0 <= m < prefix.len() implies #[trigger] w.allocation[prefix[m]][j] == v.allocation[prefix[m]][j] by {
                    assert(prefix[m] == s[m]);
                    assert(0 <= s[m] < n);
                }
                lemma_held_congruent(w.allocation, v.allocation, prefix, j);
                assert(v.need[s[k]][j] <= v.work(s.take(k), j));
            } else {
                assert(s2[k] == n + (k - n));
            }
        }
    }
    assert(w.is_safe_sequence(s2));
}

/// Registering a resource, new or known, never turns a safe state into an
/// unsafe one: no thread needs any of it afterwards, and the other columns
/// are unchanged.
pub proof fn law_new_resource_keeps_safety(v: TrackerView, r: int, val: usize)
    requires
        v.wf(),
        v.is_safe(),
        r >= 0,
    ensures
        v.with_resource(r, val).is_safe(),
{
    let w = v.with_resource(r, val);
    let s = choose|s: Seq<int>| v.is_safe_sequence(s);
    assert forall|k: int| 0 <= k < s.len() implies #[trigger] w.can_finish(s[k], s.take(k)) by {
        let prefix = s.take(k);
        assert(v.can_finish(s[k], prefix));
        assert forall|j: int| 0 <= j < w.resources() implies #[trigger] w.need[s[k]][j] <= w.work(prefix, j) by {
            lemma_held_nonneg(w.allocation, prefix, j);
            if j != r && j < v.resources() {
                assert forall|m: int| 0 <= m < prefix.len() implies #[trigger] w.allocation[prefix[m]][j] == v.allocation[prefix[m]][j] by {
                    assert(prefix[m] == s[m]);
                }
                lemma_held_congruent(w.allocation, v.allocation, prefix, j);
                assert(v.need[s[k]][j] <= v.work(prefix, j));
            }
        }
    }
    assert(w.is_safe_sequence(s));
}

/// Declaring a smaller need never turns a safe answer unsafe: a larger
/// request can only make the safety check's answer worse.
pub proof fn law_smaller_need_keeps_safety(v: TrackerView, t: int, r: int, less: int, more: int)
    requires
        v.wf(),
        0 <= t < v.threads(),
        0 <= r < v.resources(),
        0 <= less <= more,
        v.need[t][r] + more <= usize::MAX,
        v.add_need(t, r, more).is_safe(),
    ensures
        v.add_need(t, r, less).is_safe(),
{
    let big = v.add_need(t, r, more);
    let small = v.add_need(t, r, less);
    let s = choose|s: Seq<int>| big.is_safe_sequence(s);
    assert forall|k: int| 0 <= k < s.len() implies #[trigger] small.can_finish(s[k], s.take(k)) by {
        assert(big.can_finish(s[k], s.take(k)));
        assert forall|j: int| 0 <= j < small.resources() implies #[trigger] small.need[s[k]][j] <= small.work(s.take(k), j) by {
            assert(big.need[s[k]][j] <= big.work(s.take(k), j));
            assert(small.need[s[k]][j] <= big.need[s[k]][j]);
        }
    }
    assert(small.is_safe_sequence(s));
}

/// Granting moves units: `req` units of resource `r` leave the free pool,
/// join thread `t`'s allocation and come off its need; every other entry
/// of the tables stays as it was.
pub proof fn law_grant_moves_units(v: TrackerView, t: int, r: int, req: int)
    requires
        v.wf(),
        0 <= t < v.threads(),
        0 <= r < v.resources(),
        0 <= req <= v.available[r],
        v.allocation[t][r] + req <= usize::MAX,
        req <= v.need[t][r],
    ensures
        ({
            let w = v.grant(t, r, req);
            &&& w.wf()
            &&& w.enabled == v.enabled
            &&& w.threads() == v.threads()
            &&& w.resources() == v.resources()
            &&& w.available[r] + req == v.available[r]
            &&& w.allocation[t][r] == v.allocation[t][r] + req
            &&& w.need[t][r] + req == v.need[t][r]
            &&& forall|j: int| 0 <= j < v.resources() && j != r ==> #[trigger] w.available[j] == v.available[j]
            &&& forall|u: int, j: int|
                0 <= u < v.threads() && 0 <= j < v.resources() && (u != t || j != r) ==> {
                    &&& #[trigger] w.allocation[u][j] == v.allocation[u][j]
                    &&& w.need[u][j] == v.need[u][j]
                }
        }),
{
    let w = v.grant(t, r, req);
    assert forall|u: int| 0 <= u < w.allocation.len() implies (#[trigger] w.allocation[u]).len() == w.available.len() by {
        if u == t {
            assert(w.allocation[u].len() == v.allocation[t].len());
        }
    }
    assert forall|u: int| 0 <= u < w.need.len() implies (#[trigger] w.need[u]).len() == w.available.len() by {
        if u == t {
            assert(w.need[u].len() == v.need[t].len());
        }
    }
}

/// Handing back moves units: `req` units of resource `r` leave thread
/// `t`'s allocation and return to the free pool; every other entry of the
/// tables, and all needs, stay as they were.
pub proof fn law_give_back_moves_units(v: TrackerView, t: int, r: int, req: int)
    requires
        v.wf(),
        0 <= t < v.threads(),
        0 <= r < v.resources(),
        0 <= req <= v.allocation[t][r],
        v.available[r] + req <= usize::MAX,
    ensures
        ({
            let w = v.give_back(t, r, req);
            &&& w.wf()
            &&& w.enabled == v.enabled
            &&& w.threads() == v.threads()
            &&& w.resources() == v.resources()
            &&& w.available[r] == v.available[r] + req
            &&& w.allocation[t][r] + req == v.allocation[t][r]
            &&& w.need == v.need
            &&& forall|j: int| 0 <= j < v.resources() && j != r ==> #[trigger] w.available[j] == v.available[j]
            &&& forall|u: int, j: int|
                0 <= u < v.threads() && 0 <= j < v.resources() && (u != t || j != r) ==> #[trigger] w.allocation[u][j] == v.allocation[u][j]
        }),
{
    let w = v.give_back(t, r, req);
    assert forall|u: int| 0 <= u < w.allocation.len() implies (#[trigger] w.allocation[u]).len() == w.available.len() by {
        if u == t {
            assert(w.allocation[u].len() == v.allocation[t].len());
        }
    }
}

/// Registering thread `t` grows the tables to hold it and clears its rows
/// and those of the threads added on the way; every other thread's rows,
/// and the free pool, stay as they were.
pub proof fn law_register_thread_touches_only_its_rows(v: TrackerView, t: int)
    requires
        v.wf(),
        0 <= t,
    ensures
        ({
            let w = v.with_thread(t);
            &&& w.wf()
            &&& w.enabled == v.enabled
            &&& w.available == v.available
            &&& w.threads() == if t < v.threads() { v.threads() as int } else { t + 1 }
            &&& forall|u: int, j: int|
                0 <= u < w.threads() && 0 <= j < v.resources() ==> {
                    &&& #[trigger] w.need[u][j] == (if u == t || u >= v.threads() { 0 } else { v.need[u][j] })
                    &&& w.allocation[u][j] == (if u == t || u >= v.threads() { 0 } else { v.allocation[u][j] })
                }
        }),
{
}

/// Registering resource `r` with `val` free units grows the tables to
/// hold it, sets its free units to `val` and clears every thread's
/// allocation and need of it; every other entry stays as it was, and the
/// columns added on the way are zero.
pub proof fn law_register_resource_touches_only_its_column(v: TrackerView, r: int, val: usize)
    requires
        v.wf(),
        0 <= r,
    ensures
        ({
            let w = v.with_resource(r, val);
            &&& w.wf()
            &&& w.enabled == v.enabled
            &&& w.threads() == v.threads()
            &&& w.resources() == if r < v.resources() { v.resources() as int } else { r + 1 }
            &&& w.available[r] == val
            &&& forall|j: int| 0 <= j < w.resources() && j != r ==> #[trigger] w.available[j] == (if j < v.resources() { v.available[j] } else { 0 })
            &&& forall|u: int, j: int|
                0 <= u < v.threads() && 0 <= j < w.resources() ==> {
                    &&& #[trigger] w.need[u][j] == (if j == r || j >= v.resources() { 0 } else { v.need[u][j] })
                    &&& w.allocation[u][j] == (if j == r || j >= v.resources() { 0 } else { v.allocation[u][j] })
                }
        }),
{
}

/// Declaring a need adds exactly that many units to thread `t`'s need of
/// resource `r`; nothing else of the tables changes.
pub proof fn law_add_need_touches_one_entry(v: TrackerView, t: int, r: int, req: int)
    requires
        v.wf(),
        0 <= t < v.threads(),
        0 <= r < v.resources(),
        0 <= req,
        v.need[t][r] + req <= usize::MAX,
    ensures
        ({
            let w = v.add_need(t, r, req);
            &&& w.wf()
            &&& w.enabled == v.enabled
            &&& w.available == v.available
            &&& w.allocation == v.allocation
            &&& w.need.len() == v.need.len()
            &&& w.need[t][r] == v.need[t][r] + req
            &&& forall|u: int, j: int|
                0 <= u < v.threads() && 0 <= j < v.resources() && (u != t || j != r) ==> #[trigger] w.need[u][j] == v.need[u][j]
        }),
{
    let w = v.add_need(t, r, req);
    assert forall|u: int| 0 <= u < w.need.len() implies (#[trigger] w.need[u]).len() == w.available.len() by {
        if u == t {
            assert(w.need[u].len() == v.need[t].len());
        }
    }
}

} // verus!
