//! The mathematical model behind deadlock detection: a resource state in the
//! style of the banker's algorithm, and what it means for such a state to be
//! safe.
use vstd::prelude::*;
use vstd::set_lib::set_int_range;
use vstd::set_lib::lemma_int_range;
use vstd::set_lib::lemma_len_subset;

verus! {

/// The total of `alloc[t][j]` over the threads `t < upto` that belong to `members`:
/// what the threads in `members` hand back of resource `j` once they finish.
pub open spec fn released(alloc: Seq<Seq<int>>, members: Set<int>, j: int, upto: int) -> int
    decreases upto,
{
    if upto <= 0 {
        0
    } else {
        released(alloc, members, j, upto - 1) + if members.contains(upto - 1) {
            alloc[upto - 1][j]
        } else {
            0
        }
    }
}

/// A snapshot of the resources of one process: `available[j]` units of resource `j`
/// are free, thread `t` holds `allocation[t][j]` of them and still needs `need[t][j]`.
pub struct ResourceState {
    pub available: Seq<int>,
    pub allocation: Seq<Seq<int>>,
    pub need: Seq<Seq<int>>,
}

impl ResourceState {
    pub open spec fn threads(self) -> int {
        self.need.len() as int
    }

    pub open spec fn resources(self) -> int {
        self.available.len() as int
    }

    /// `allocation` and `need` are both `threads() x resources()` matrices.
    pub open spec fn well_shaped(self) -> bool {
        &&& self.allocation.len() == self.need.len()
        &&& forall|t: int| 0 <= t < self.threads() ==> (#[trigger] self.need[t]).len() == self.resources()
        &&& forall|t: int|
            0 <= t < self.threads() ==> (#[trigger] self.allocation[t]).len() == self.resources()
    }

    /// Every allocation is a count, so at least zero.
    pub open spec fn counts_nonnegative(self) -> bool {
        forall|t: int, j: int|
            0 <= t < self.threads() && 0 <= j < self.resources() ==> #[trigger] self.allocation[t][j]
                >= 0
    }

    /// Units of resource `j` at hand once every thread in `done` has finished.
    pub open spec fn work_after(self, done: Set<int>, j: int) -> int {
        self.available[j] + released(self.allocation, done, j, self.threads())
    }

    /// Thread `t` can run to its end once the threads in `done` have finished.
    pub open spec fn can_finish(self, t: int, done: Set<int>) -> bool {
        forall|j: int| 0 <= j < self.resources() ==> self.need[t][j] <= #[trigger] self.work_after(done, j)
    }

    /// `order` lists every thread exactly once, and each thread can finish
    /// with what the threads before it hand back.
    pub open spec fn completes_in_order(self, order: Seq<int>) -> bool {
        &&& order.no_duplicates()
        &&& forall|k: int| 0 <= k < order.len() ==> 0 <= #[trigger] order[k] < self.threads()
        &&& forall|t: int| 0 <= t < self.threads() ==> #[trigger] order.contains(t)
        &&& forall|k: int|
            #![trigger order[k]]
            0 <= k < order.len() ==> self.can_finish(order[k], order.take(k).to_set())
    }

    /// The state is safe (free of deadlock) when all threads can finish in some order.
    pub open spec fn is_safe(self) -> bool {
        exists|order: Seq<int>| self.completes_in_order(order)
    }
}

/// Two member sets that agree below `upto` release the same amount.
pub proof fn lemma_released_agree(alloc: Seq<Seq<int>>, a: Set<int>, b: Set<int>, j: int, upto: int)
    requires
        forall|x: int| 0 <= x < upto ==> (a.contains(x) <==> b.contains(x)),
    ensures
        released(alloc, a, j, upto) == released(alloc, b, j, upto),
    decreases upto,
{
    if upto > 0 {
        lemma_released_agree(alloc, a, b, j, upto - 1);
    }
}

/// Adding a thread to the members adds exactly its allocation.
pub proof fn lemma_released_insert(alloc: Seq<Seq<int>>, members: Set<int>, t: int, j: int, upto: int)
    requires
        0 <= t < upto,
        !members.contains(t),
    ensures
        released(alloc, members.insert(t), j, upto) == released(alloc, members, j, upto)
            + alloc[t][j],
    decreases upto,
{
    if t == upto - 1 {
        lemma_released_agree(alloc, members.insert(t), members, j, upto - 1);
    } else {
        lemma_released_insert(alloc, members, t, j, upto - 1);
    }
}

/// With nonnegative allocations, more members release at least as much.
pub proof fn lemma_released_monotone(
    alloc: Seq<Seq<int>>,
    small: Set<int>,
    big: Set<int>,
    j: int,
    upto: int,
)
    requires
        forall|x: int| 0 <= x < upto && #[trigger] small.contains(x) ==> big.contains(x),
        forall|x: int| 0 <= x < upto ==> #[trigger] alloc[x][j] >= 0,
    ensures
        released(alloc, small, j, upto) <= released(alloc, big, j, upto),
    decreases upto,
{
    if upto > 0 {
        lemma_released_monotone(alloc, small, big, j, upto - 1);
        assert(alloc[upto - 1][j] >= 0);
    }
}

/// What `upto` threads with allocations of `i32` size release fits in
/// `upto * 2^31` either way.
pub proof fn lemma_released_bounds(alloc: Seq<Seq<int>>, members: Set<int>, j: int, upto: int)
    requires
        0 <= upto,
        forall|x: int| 0 <= x < upto ==> -0x8000_0000 <= #[trigger] alloc[x][j] < 0x8000_0000,
    ensures
        -upto * 0x8000_0000 <= released(alloc, members, j, upto) <= upto * 0x8000_0000,
    decreases upto,
{
    if upto > 0 {
        lemma_released_bounds(alloc, members, j, upto - 1);
        assert(-0x8000_0000 <= alloc[upto - 1][j] < 0x8000_0000);
    }
}

/// A duplicate-free list of threads below `n` that misses one of them is shorter than `n`.
pub proof fn lemma_order_shorter(order: Seq<int>, n: int, u: int)
    requires
        order.no_duplicates(),
        forall|k: int| 0 <= k < order.len() ==> 0 <= #[trigger] order[k] < n,
        0 <= u < n,
        !order.contains(u),
    ensures
        order.len() < n,
{
    order.unique_seq_to_set();
    lemma_int_range(0, n);
    let rest = set_int_range(0, n).remove(u);
    assert forall|x: int| order.to_set().contains(x) implies rest.contains(x) by {
        let k = choose|k: int| 0 <= k < order.len() && order[k] == x;
        assert(0 <= order[k] < n);
    }
    assert(order.to_set().subset_of(rest));
    lemma_len_subset(order.to_set(), rest);
}

/// The first position in `s`, at or before `i`, whose entry is not in `f`.
pub proof fn lemma_first_outside(s: Seq<int>, f: Set<int>, i: int) -> (k: int)
    requires
        0 <= i < s.len(),
        !f.contains(s[i]),
    ensures
        0 <= k <= i,
        !f.contains(s[k]),
        forall|l: int| 0 <= l < k ==> f.contains(#[trigger] s[l]),
    decreases i,
{
    if exists|l: int| 0 <= l < i && !f.contains(#[trigger] s[l]) {
        let l = choose|l: int| 0 <= l < i && !f.contains(#[trigger] s[l]);
        lemma_first_outside(s, f, l)
    } else {
        i
    }
}

/// When some thread is unfinished and no unfinished thread can finish with
/// what the finished ones released, no order completes all threads.
pub proof fn lemma_stuck_is_unsafe(s: ResourceState, done: Set<int>, u: int)
    requires
        s.well_shaped(),
        s.counts_nonnegative(),
        0 <= u < s.threads(),
        !done.contains(u),
        forall|t: int| 0 <= t < s.threads() && !done.contains(t) ==> !s.can_finish(t, done),
    ensures
        !s.is_safe(),
{
    if s.is_safe() {
        let order = choose|o: Seq<int>| s.completes_in_order(o);
        assert(order.contains(u));
        let i = choose|i: int| 0 <= i < order.len() && order[i] == u;
        let k = lemma_first_outside(order, done, i);
        let before = order.take(k).to_set();
        assert forall|j: int| 0 <= j < s.resources() implies s.need[order[k]][j] <= #[trigger] s.work_after(
            done,
            j,
        ) by {
            assert forall|x: int| 0 <= x < s.threads() && #[trigger] before.contains(x) implies done.contains(
                x,
            ) by {
                let l = choose|l: int| 0 <= l < order.take(k).len() && order.take(k)[l] == x;
                assert(order[l] == x);
            }
            assert forall|x: int| 0 <= x < s.threads() implies #[trigger] s.allocation[x][j] >= 0 by {}
            lemma_released_monotone(s.allocation, before, done, j, s.threads());
            assert(s.can_finish(order[k], before));
            assert(s.work_after(before, j) <= s.work_after(done, j));
        }
        assert(s.can_finish(order[k], done));
    }
}

/// Allocations that are larger entry by entry release at least as much.
pub proof fn lemma_released_pointwise(
    small: Seq<Seq<int>>,
    big: Seq<Seq<int>>,
    members: Set<int>,
    j: int,
    upto: int,
)
    requires
        forall|x: int| 0 <= x < upto ==> #[trigger] small[x][j] <= big[x][j],
    ensures
        released(small, members, j, upto) <= released(big, members, j, upto),
    decreases upto,
{
    if upto > 0 {
        lemma_released_pointwise(small, big, members, j, upto - 1);
        assert(small[upto - 1][j] <= big[upto - 1][j]);
    }
}

/// More free units, larger allocations to hand back, or smaller needs never
/// make a safe state unsafe: every order that completes `s1` completes `s2`.
pub proof fn law_safety_monotone(s1: ResourceState, s2: ResourceState)
    requires
        s2.threads() == s1.threads(),
        s2.resources() == s1.resources(),
        forall|j: int| 0 <= j < s1.resources() ==> #[trigger] s2.available[j] >= s1.available[j],
        forall|t: int, j: int|
            0 <= t < s1.threads() && 0 <= j < s1.resources() ==> #[trigger] s2.allocation[t][j]
                >= s1.allocation[t][j],
        forall|t: int, j: int|
            0 <= t < s1.threads() && 0 <= j < s1.resources() ==> #[trigger] s2.need[t][j]
                <= s1.need[t][j],
        s1.is_safe(),
    ensures
        s2.is_safe(),
{
    let order = choose|o: Seq<int>| s1.completes_in_order(o);
    assert forall|k: int|
        #![trigger order[k]]
        0 <= k < order.len() implies s2.can_finish(order[k], order.take(k).to_set()) by {
        assert forall|j: int| 0 <= j < s2.resources() implies s2.need[order[k]][j] <= #[trigger] s2.work_after(
            order.take(k).to_set(),
            j,
        ) by {
            assert forall|x: int| 0 <= x < s1.threads() implies #[trigger] s1.allocation[x][j] <= s2.allocation[x][j] by {
                assert(s2.allocation[x][j] >= s1.allocation[x][j]);
            }
            lemma_released_pointwise(s1.allocation, s2.allocation, order.take(k).to_set(), j, s1.threads());
            assert(s1.can_finish(order[k], order.take(k).to_set()));
            assert(s1.need[order[k]][j] <= s1.work_after(order.take(k).to_set(), j));
            assert(0 <= order[k] < s1.threads());
            assert(s2.need[order[k]][j] <= s1.need[order[k]][j]);
        }
    }
    assert(s2.completes_in_order(order));
}

/// `f(0) + ... + f(n - 1)`.
pub open spec fn sum_below(f: spec_fn(int) -> int, n: int) -> int
    decreases n,
{
    if n <= 0 {
        0
    } else {
        sum_below(f, n - 1) + f(n - 1)
    }
}

/// `pi` lists each of `0 .. n` exactly once.
pub open spec fn is_permutation(pi: Seq<int>, n: int) -> bool {
    &&& pi.len() == n
    &&& pi.no_duplicates()
    &&& forall|i: int| 0 <= i < n ==> 0 <= #[trigger] pi[i] < n
}

/// `s2` is `s1` with its threads renumbered: thread `i` of `s2` is thread
/// `pi[i]` of `s1`, with its need and allocation.
pub open spec fn renumbered(s1: ResourceState, s2: ResourceState, pi: Seq<int>) -> bool {
    &&& s2.available == s1.available
    &&& s2.threads() == s1.threads()
    &&& forall|i: int| 0 <= i < s1.threads() ==> #[trigger] s2.need[i] == s1.need[pi[i]]
    &&& forall|i: int| 0 <= i < s1.threads() ==> #[trigger] s2.allocation[i] == s1.allocation[pi[i]]
}

proof fn lemma_sum_ext(f: spec_fn(int) -> int, g: spec_fn(int) -> int, n: int)
    requires
        forall|x: int| 0 <= x < n ==> #[trigger] f(x) == g(x),
    ensures
        sum_below(f, n) == sum_below(g, n),
    decreases n,
{
    if n > 0 {
        lemma_sum_ext(f, g, n - 1);
    }
}

proof fn lemma_sum_update(f: spec_fn(int) -> int, g: spec_fn(int) -> int, k: int, n: int)
    requires
        0 <= k < n,
        forall|x: int| 0 <= x < n && x != k ==> #[trigger] f(x) == g(x),
    ensures
        sum_below(g, n) == sum_below(f, n) - f(k) + g(k),
    decreases n,
{
    if k == n - 1 {
        lemma_sum_ext(f, g, n - 1);
    } else {
        lemma_sum_update(f, g, k, n - 1);
    }
}

proof fn lemma_released_as_sum(alloc: Seq<Seq<int>>, members: Set<int>, j: int, n: int)
    ensures
        released(alloc, members, j, n) == sum_below(
            |x: int|
                if members.contains(x) {
                    alloc[x][j]
                } else {
                    0
                },
            n,
        ),
    decreases n,
{
    if n > 0 {
        lemma_released_as_sum(alloc, members, j, n - 1);
    }
}

/// A permutation of `0 .. n` takes every value.
proof fn lemma_permutation_onto(pi: Seq<int>, n: int, t: int)
    requires
        is_permutation(pi, n),
        0 <= t < n,
    ensures
        pi.contains(t),
{
    if !pi.contains(t) {
        lemma_order_shorter(pi, n, t);
    }
}

/// Summing over a permutation of `0 .. n` gives the same total.
proof fn lemma_sum_permuted(f: spec_fn(int) -> int, pi: Seq<int>, n: int)
    requires
        is_permutation(pi, n),
    ensures
        sum_below(|i: int| f(pi[i]), n) == sum_below(f, n),
    decreases n,
{
    if n > 0 {
        lemma_permutation_onto(pi, n, n - 1);
        let k = choose|k: int| 0 <= k < pi.len() && pi[k] == n - 1;
        let rest = Seq::new((n - 1) as nat, |i: int| if i == k { pi[n - 1] } else { pi[i] });
        assert forall|i: int| 0 <= i < n - 1 implies 0 <= #[trigger] rest[i] < n - 1 by {
            if i == k {
                assert(pi[n - 1] != pi[k]);
                assert(0 <= pi[n - 1] < n);
            } else {
                assert(pi[i] != pi[k]);
                assert(0 <= pi[i] < n);
            }
        }
        assert forall|a: int, b: int| 0 <= a < rest.len() && 0 <= b < rest.len() && a != b implies rest[a]
            != rest[b] by {
            if a == k {
                assert(pi[n - 1] != pi[b]);
            } else if b == k {
                assert(pi[a] != pi[n - 1]);
            } else {
                assert(pi[a] != pi[b]);
            }
        }
        assert(is_permutation(rest, n - 1));
        lemma_sum_permuted(f, rest, n - 1);
        let g = |i: int| f(pi[i]);
        let h = |i: int| f(rest[i]);
        if k == n - 1 {
            lemma_sum_ext(g, h, n - 1);
        } else {
            lemma_sum_update(g, h, k, n - 1);
        }
        assert(sum_below(g, n) == sum_below(g, n - 1) + g(n - 1));
    }
}

/// If the renumbered state `s2` is safe, so is `s1`: its order, renumbered back, completes `s1`.
proof fn lemma_renumbered_safe(s1: ResourceState, s2: ResourceState, pi: Seq<int>)
    requires
        is_permutation(pi, s1.threads()),
        renumbered(s1, s2, pi),
        s2.is_safe(),
    ensures
        s1.is_safe(),
{
    let n = s1.threads();
    let o2 = choose|o: Seq<int>| s2.completes_in_order(o);
    let o1 = Seq::new(o2.len(), |k: int| pi[o2[k]]);
    assert forall|k: int| 0 <= k < o1.len() implies 0 <= #[trigger] o1[k] < n by {
        assert(0 <= o2[k] < n);
    }
    assert forall|a: int, b: int| 0 <= a < o1.len() && 0 <= b < o1.len() && a != b implies o1[a] != o1[b] by {
        assert(o2[a] != o2[b]);
        assert(0 <= o2[a] < n && 0 <= o2[b] < n);
    }
    assert forall|t: int| 0 <= t < n implies #[trigger] o1.contains(t) by {
        lemma_permutation_onto(pi, n, t);
        let i = choose|i: int| 0 <= i < pi.len() && pi[i] == t;
        assert(o2.contains(i));
        let k = choose|k: int| 0 <= k < o2.len() && o2[k] == i;
        assert(o1[k] == t);
    }
    assert forall|k: int| #![trigger o1[k]] 0 <= k < o1.len() implies s1.can_finish(o1[k], o1.take(k).to_set()) by {
        let before1 = o1.take(k).to_set();
        let before2 = o2.take(k).to_set();
        assert(s2.can_finish(o2[k], before2));
        assert(0 <= o2[k] < n);
        assert(s2.need[o2[k]] == s1.need[o1[k]]);
        assert forall|j: int| 0 <= j < s1.resources() implies s1.need[o1[k]][j] <= #[trigger] s1.work_after(
            before1,
            j,
        ) by {
            let hx = |x: int| if before1.contains(x) { s1.allocation[x][j] } else { 0 };
            let h2 = |i: int| if before2.contains(i) { s2.allocation[i][j] } else { 0 };
            assert forall|i: int| 0 <= i < n implies #[trigger] h2(i) == hx(pi[i]) by {
                assert(s2.allocation[i] == s1.allocation[pi[i]]);
                if before2.contains(i) {
                    let l = choose|l: int| 0 <= l < o2.take(k).len() && o2.take(k)[l] == i;
                    assert(o1.take(k)[l] == pi[i]);
                }
                if before1.contains(pi[i]) {
                    let l = choose|l: int| 0 <= l < o1.take(k).len() && o1.take(k)[l] == pi[i];
                    assert(0 <= o2[l] < n);
                    assert(pi[o2[l]] == pi[i]);
                    assert(o2[l] == i);
                    assert(o2.take(k)[l] == i);
                }
            }
            lemma_released_as_sum(s2.allocation, before2, j, n);
            lemma_released_as_sum(s1.allocation, before1, j, n);
            lemma_sum_ext(h2, |i: int| hx(pi[i]), n);
            lemma_sum_permuted(hx, pi, n);
            assert(s2.work_after(before2, j) == s1.work_after(before1, j));
        }
    }
    assert(s1.completes_in_order(o1));
}

/// Renumbering the threads (their needs and allocations together) does not
/// change whether a state is safe.
pub proof fn law_renumbering_keeps_safety(s1: ResourceState, s2: ResourceState, pi: Seq<int>)
    requires
        is_permutation(pi, s1.threads()),
        renumbered(s1, s2, pi),
    ensures
        s1.is_safe() == s2.is_safe(),
{
    let n = s1.threads();
    if s2.is_safe() {
        lemma_renumbered_safe(s1, s2, pi);
    }
    if s1.is_safe() {
        let inv = Seq::new(n as nat, |x: int| choose|i: int| 0 <= i < n && pi[i] == x);
        assert forall|x: int| 0 <= x < n implies 0 <= #[trigger] inv[x] < n && pi[inv[x]] == x by {
            lemma_permutation_onto(pi, n, x);
        }
        assert forall|a: int, b: int| 0 <= a < inv.len() && 0 <= b < inv.len() && a != b implies inv[a] != inv[b] by {
            assert(pi[inv[a]] == a && pi[inv[b]] == b);
        }
        assert(is_permutation(inv, n));
        assert forall|x: int| 0 <= x < n implies #[trigger] s1.need[x] == s2.need[inv[x]] && s1.allocation[x]
            == s2.allocation[inv[x]] by {
            assert(pi[inv[x]] == x);
            assert(0 <= inv[x] < n);
        }
        assert(renumbered(s2, s1, inv));
        lemma_renumbered_safe(s2, s1, inv);
    }
}

} // verus!
