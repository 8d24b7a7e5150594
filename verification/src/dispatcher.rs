//! Dispatch policy: which executor receives a submission. Random picks
//! uniformly; LoadAware picks the first least-loaded executor by the
//! producer-visible load estimates.

use vstd::prelude::*;

use crate::executor::Executor;
use crate::task::Iterable;

verus! {

#[derive(Clone, Copy, PartialEq, Eq, Structural, Debug)]
pub enum DispatchPolicy {
    Random,
    LoadAware,
}

/// Relies on `rand::random`: a uniformly random value, of which nothing can
/// be promised.
#[verifier::external_body]
fn random_u64() -> (r: u64) {
    rand::random::<u64>()
}

/// The first index holding the minimum of `values`; `None` exactly on an
/// empty vector.
pub fn pick_load_aware(values: &Vec<usize>) -> (r: Option<usize>)
    ensures
        r is Some <==> values@.len() > 0,
        r matches Some(c) ==> 0 <= c < values@.len() && (forall|j: int|
            0 <= j < values@.len() ==> values@[c as int] <= #[trigger] values@[j]) && (forall|
            j: int,
        |
            0 <= j < c ==> values@[c as int] < #[trigger] values@[j]),
{
    if values.len() == 0 {
        return None;
    }
    let mut best: usize = 0;
    let mut best_value: usize = values[0];
    let mut i: usize = 1;
    while i < values.len()
        invariant
            1 <= i <= values@.len(),
            0 <= best < i,
            best_value == values@[best as int],
            forall|j: int| 0 <= j < i ==> best_value <= #[trigger] values@[j],
            forall|j: int| 0 <= j < best ==> best_value < #[trigger] values@[j],
        decreases values@.len() - i,
    {
        if values[i] < best_value {
            best = i;
            best_value = values[i];
        }
        i = i + 1;
    }
    Some(best)
}

/// The last index holding the maximum of `values`, provided that maximum is
/// positive: a victim with an empty deque is not worth a steal attempt.
pub fn pick_steal_victim(values: &Vec<usize>) -> (r: Option<usize>)
    ensures
        r is None <==> (forall|j: int| 0 <= j < values@.len() ==> #[trigger] values@[j] == 0),
        r matches Some(c) ==> 0 <= c < values@.len() && values@[c as int] > 0 && (forall|j: int|
            0 <= j < values@.len() ==> #[trigger] values@[j] <= values@[c as int]) && (forall|
            j: int,
        |
            c < j < values@.len() ==> #[trigger] values@[j] < values@[c as int]),
{
    let mut best: usize = 0;
    let mut best_value: usize = 0;
    let mut found: bool = false;
    let mut i: usize = 0;
    while i < values.len()
        invariant
            0 <= i <= values@.len(),
            found ==> 0 <= best < i && best_value == values@[best as int] && best_value > 0,
            !found ==> best_value == 0,
            forall|j: int| 0 <= j < i ==> #[trigger] values@[j] <= best_value,
            found ==> forall|j: int| best < j < i ==> #[trigger] values@[j] < best_value,
            !found ==> forall|j: int| 0 <= j < i ==> #[trigger] values@[j] == 0,
        decreases values@.len() - i,
    {
        if values[i] >= best_value && values[i] > 0 {
            best = i;
            best_value = values[i];
            found = true;
        }
        i = i + 1;
    }
    if found {
        Some(best)
    } else {
        None
    }
}

/// Every load lies at `m` or `m + 1`: the shape a fleet keeps when identical
/// tasks are always dispatched to a least-loaded executor.
pub open spec fn all_in_two(loads: Seq<int>, m: int) -> bool {
    forall|i: int| 0 <= i < loads.len() ==> (#[trigger] loads[i]) == m || loads[i] == m + 1
}

/// The fleet's loads are near-uniform: all within one of each other.
pub open spec fn near_uniform(loads: Seq<int>) -> bool {
    exists|m: int| #[trigger] all_in_two(loads, m)
}

/// Law (balanced dispatch, inductive step): submitting one task to a
/// least-loaded executor of a near-uniform fleet leaves the fleet
/// near-uniform. Starting from the uniform empty fleet, dispatching N
/// identical tasks under the LoadAware policy therefore keeps the max–min
/// load gap at most one at every dispatch.
pub proof fn lemma_load_aware_keeps_balance(loads: Seq<int>, c: int)
    requires
        near_uniform(loads),
        0 <= c < loads.len(),
        forall|j: int| 0 <= j < loads.len() ==> loads[c] <= #[trigger] loads[j],
    ensures
        near_uniform(loads.update(c, loads[c] + 1)),
{
    let m = choose|m: int| #[trigger] all_in_two(loads, m);
    let bumped = loads.update(c, loads[c] + 1);
    if loads[c] == m {
        assert(all_in_two(bumped, m));
    } else {
        assert(loads[c] == m + 1);
        assert forall|i: int| 0 <= i < bumped.len() implies (#[trigger] bumped[i]) == m + 1
            || bumped[i] == m + 2 by {
            assert(loads[c] <= loads[i]);
        }
        assert(all_in_two(bumped, m + 1));
    }
}

/// Law (balanced dispatch, gap bound): in a near-uniform fleet no two loads
/// differ by more than one.
pub proof fn lemma_near_uniform_gap(loads: Seq<int>, i: int, j: int)
    requires
        near_uniform(loads),
        0 <= i < loads.len(),
        0 <= j < loads.len(),
    ensures
        loads[i] - loads[j] <= 1,
{
    let m = choose|m: int| #[trigger] all_in_two(loads, m);
    assert(loads[i] == m || loads[i] == m + 1);
    assert(loads[j] == m || loads[j] == m + 1);
}

/// What a load reading leaves untouched on an executor: everything except
/// the acknowledgement bookkeeping, which only shrinks.
pub open spec fn same_shape<T: Iterable>(a: Executor<T>, b: Executor<T>) -> bool {
    &&& b.mailbox == a.mailbox
    &&& b.deque == a.deque
    &&& b.cpu == a.cpu
    &&& b.peers == a.peers
    &&& b.busy == a.busy
    &&& b.not_acked_tasks <= a.not_acked_tasks
}

/// Choose the executor a submission goes to. Both policies leave every
/// executor's queues untouched; LoadAware drains acknowledgements on each,
/// as any load reading does.
pub fn select_executor<T: Iterable>(policy: DispatchPolicy, execs: &mut Vec<Executor<T>>) -> (r:
    Option<usize>)
    requires
        forall|i: int| 0 <= i < old(execs)@.len() ==> (#[trigger] old(execs)@[i]).wf(),
    ensures
        forall|i: int| 0 <= i < final(execs)@.len() ==> (#[trigger] final(execs)@[i]).wf(),
        final(execs)@.len() == old(execs)@.len(),
        r is Some <==> old(execs)@.len() > 0,
        r matches Some(c) ==> 0 <= c < old(execs)@.len(),
        forall|i: int|
            0 <= i < final(execs)@.len() ==> #[trigger] same_shape(
                old(execs)@[i],
                final(execs)@[i],
            ),
        policy is Random ==> final(execs)@ == old(execs)@,
        policy is LoadAware ==> (r matches Some(c) ==> (forall|j: int|
            0 <= j < old(execs)@.len() ==> crate::executor::count_of(old(execs)@[c as int])
                <= crate::executor::count_of(#[trigger] old(execs)@[j])) && (forall|j: int|
            0 <= j < c ==> crate::executor::count_of(old(execs)@[c as int])
                < crate::executor::count_of(#[trigger] old(execs)@[j]))),
{
    let n = execs.len();
    if n == 0 {
        return None;
    }
    match policy {
        DispatchPolicy::Random => {
            let x = random_u64();
            let c = (x % (n as u64)) as usize;
            Some(c)
        },
        DispatchPolicy::LoadAware => {
            let ghost e0 = execs@;
            let mut counts: Vec<usize> = Vec::new();
            let mut i: usize = 0;
            while i < n
                invariant
                    0 <= i <= n,
                    n == execs@.len() == e0.len(),
                    counts@.len() == i,
                    forall|j: int| 0 <= j < e0.len() ==> (#[trigger] execs@[j]).wf(),
                    forall|j: int|
                        0 <= j < e0.len() ==> #[trigger] same_shape(e0[j], execs@[j]),
                    forall|j: int|
                        0 <= j < i ==> #[trigger] counts@[j] == crate::executor::count_of(e0[j]),
                decreases n - i,
            {
                let ghost pre = execs@;
                proof {
                    assert(same_shape(e0[i as int], pre[i as int]));
                    assert(pre[i as int].wf());
                }
                let c = execs[i].count_tasks();
                proof {
                    assert(execs@ == pre.update(i as int, execs@[i as int]));
                    assert(same_shape(e0[i as int], execs@[i as int]));
                    assert(c as int == crate::executor::count_of(e0[i as int]));
                }
                counts.push(c);
                i = i + 1;
            }
            let picked = pick_load_aware(&counts);
            proof {
                assert(e0 == old(execs)@);
                assert(counts@.len() == e0.len());
                match picked {
                    Some(c) => {
                        assert forall|j: int| 0 <= j < e0.len() implies crate::executor::count_of(
                            e0[c as int],
                        ) <= crate::executor::count_of(#[trigger] e0[j]) by {
                            assert(counts@[j] == crate::executor::count_of(e0[j]));
                            assert(counts@[c as int] <= counts@[j]);
                        }
                        assert forall|j: int| 0 <= j < c implies crate::executor::count_of(
                            e0[c as int],
                        ) < crate::executor::count_of(#[trigger] e0[j]) by {
                            assert(counts@[j] == crate::executor::count_of(e0[j]));
                            assert(counts@[c as int] < counts@[j]);
                        }
                    },
                    None => {},
                }
            }
            picked
        },
    }
}

} // verus!
