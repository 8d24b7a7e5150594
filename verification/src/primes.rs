//! Prime-number workload: a cooperative step machine that advances toward the
//! n-th prime a bounded number of primes per tick.

use vstd::prelude::*;

use crate::task::TaskState;

verus! {

/// `n` is prime: at least 2, and no divisor strictly between 1 and `n`.
pub open spec fn is_prime_spec(n: int) -> bool {
    n >= 2 && forall|d: int| 2 <= d < n ==> #[trigger] (n % d) != 0
}

/// `q` is the least prime strictly greater than `p`.
pub open spec fn is_next_prime(p: int, q: int) -> bool {
    &&& p < q
    &&& is_prime_spec(q)
    &&& forall|r: int| p < r < q ==> !is_prime_spec(r)
}

/// `p` is the `k`-th prime, counting from `is_kth_prime(1, 2)`.
pub open spec fn is_kth_prime(k: int, p: int) -> bool
    decreases k,
{
    if k <= 0 {
        false
    } else if k == 1 {
        p == 2
    } else {
        exists|q: int| is_kth_prime(k - 1, q) && #[trigger] is_next_prime(q, p)
    }
}

/// `d <= n / d` is the executable guise of `d * d <= n`; such a `d` is a
/// proper trial divisor, strictly below `n`.
proof fn lemma_trial_in_range(n: int, d: int)
    requires
        n >= 2,
        d >= 2,
        d <= n / d,
    ensures
        d * d <= n,
        d < n,
{
    vstd::arithmetic::div_mod::lemma_fundamental_div_mod(n, d);
    let q = n / d;
    assert(0 <= n % d < d);
    assert(d * d <= d * q) by (nonlinear_arith)
        requires d >= 0, d <= q,
    ;
    assert(d < d * d) by (nonlinear_arith)
        requires d >= 2,
    ;
}

/// Conversely, once `d > n / d` the trial range is exhausted: `d * d > n`.
proof fn lemma_trial_exhausted(n: int, d: int)
    requires
        n >= 1,
        d >= 2,
        d > n / d,
    ensures
        d * d > n,
{
    vstd::arithmetic::div_mod::lemma_fundamental_div_mod(n, d);
    let q = n / d;
    assert(0 <= n % d < d);
    assert(d * q <= d * d - d) by (nonlinear_arith)
        requires d >= 0, q <= d - 1,
    ;
}

/// A composite has a divisor no larger than its square root: a divisor found
/// anywhere yields one in the range the trial loop scans.
proof fn lemma_divisor_below_sqrt(n: int, d: int)
    requires
        n >= 2,
        2 <= d < n,
        n % d == 0,
    ensures
        exists|e: int| 2 <= e && e * e <= n && #[trigger] (n % e) == 0,
{
    vstd::arithmetic::div_mod::lemma_fundamental_div_mod(n, d);
    let q = n / d;
    assert(n == d * q);
    vstd::arithmetic::div_mod::lemma_div_pos_is_pos(n, d);
    assert(q >= 1) by (nonlinear_arith)
        requires n == d * q, n >= 2, d >= 2, q >= 0,
    ;
    if d * d <= n {
        assert(2 <= d && d * d <= n && n % d == 0);
    } else {
        assert(q < d && q * q <= n) by (nonlinear_arith)
            requires n == d * q, q >= 1, d >= 2, d * d > n,
        ;
        assert(q >= 2) by (nonlinear_arith)
            requires n == d * q, d < n, q >= 1,
        ;
        vstd::arithmetic::div_mod::lemma_mod_multiples_basic(d, q);
        assert(2 <= q && q * q <= n && n % q == 0);
    }
}

/// If trial division found no divisor below the square root, there is none
/// at all, so the number is prime.
proof fn lemma_no_small_divisor_implies_prime(n: int, d: int)
    requires
        n >= 2,
        d >= 2,
        d > n / d,
        forall|e: int| 2 <= e < d ==> #[trigger] (n % e) != 0,
    ensures
        is_prime_spec(n),
{
    lemma_trial_exhausted(n, d);
    if !is_prime_spec(n) {
        let bad = choose|b: int| 2 <= b < n && #[trigger] (n % b) == 0;
        lemma_divisor_below_sqrt(n, bad);
        let e = choose|e: int| 2 <= e && e * e <= n && #[trigger] (n % e) == 0;
        assert(e < d) by (nonlinear_arith)
            requires e >= 2, d >= 2, e * e <= n, d * d > n,
        ;
        assert(n % e != 0);
    }
}

/// Extending the walk by the next prime moves it from the `(k-1)`-th to the
/// `k`-th prime.
proof fn lemma_kth_prime_step(k: int, p: int, q: int)
    requires
        k >= 2,
        is_kth_prime(k - 1, p),
        is_next_prime(p, q),
    ensures
        is_kth_prime(k, q),
{
    assert(is_kth_prime(k, q)) by {
        assert(is_kth_prime(k - 1, p) && is_next_prime(p, q));
    }
}

/// Trial division up to the square root.
pub fn is_prime(n: usize) -> (r: bool)
    ensures
        r == is_prime_spec(n as int),
{
    if n < 2 {
        return false;
    }
    let mut d: usize = 2;
    while d <= n / d
        invariant
            2 <= d,
            n >= 2,
            forall|e: int| 2 <= e < d ==> #[trigger] ((n as int) % e) != 0,
        decreases n - d,
    {
        proof {
            lemma_trial_in_range(n as int, d as int);
        }
        if n % d == 0 {
            assert(!is_prime_spec(n as int));
            return false;
        }
        d = d + 1;
    }
    proof {
        lemma_no_small_divisor_implies_prime(n as int, d as int);
    }
    true
}

/// The least prime strictly greater than `start_from`. The search is total:
/// if the machine word were exhausted without finding a prime, the saturated
/// word itself comes back, which the contract reports as such.
pub fn next_prime(start_from: usize) -> (p: usize)
    requires
        start_from < usize::MAX,
    ensures
        start_from < p,
        forall|r: int| start_from < r < p ==> !is_prime_spec(r),
        is_prime_spec(p as int) || p == usize::MAX,
{
    let mut curr: usize = start_from + 1;
    let mut found: bool = is_prime(curr);
    while !found && curr < usize::MAX
        invariant
            start_from < curr <= usize::MAX,
            found == is_prime_spec(curr as int),
            forall|r: int| start_from < r < curr ==> !is_prime_spec(r),
        decreases usize::MAX - curr,
    {
        curr = curr + 1;
        found = is_prime(curr);
    }
    curr
}

/// Computes the `nth_prime`-th prime cooperatively: each call to `step`
/// advances the walk by at most `n_steps` primes and reports whether the
/// target was reached.
pub struct Primatizer {
    pub nth_prime: usize,
    pub counter: usize,
    pub last_prime: usize,
}

impl Primatizer {
    /// `last_prime` is always the `counter`-th prime; the saturated-word
    /// disjunct covers the unreachable exhaustion of the machine word
    /// admitted by `next_prime`.
    pub open spec fn wf(&self) -> bool {
        &&& 1 <= self.counter
        &&& if self.nth_prime >= 1 {
            self.counter <= self.nth_prime
        } else {
            self.counter == 1
        }
        &&& (is_kth_prime(self.counter as int, self.last_prime as int)
            || self.last_prime == usize::MAX)
    }

    pub fn new(n: usize) -> (p: Primatizer)
        ensures
            p.wf(),
            p.nth_prime == n,
            p.counter == 1,
            p.last_prime == 2,
    {
        Primatizer { nth_prime: n, counter: 1, last_prime: 2 }
    }

    /// Advance by at most `n_steps` primes; Complete exactly when the walk
    /// stands at the `nth_prime`-th prime afterwards.
    pub fn step(&mut self, n_steps: usize) -> (s: TaskState)
        ensures
            old(self).wf() ==> final(self).wf(),
            final(self).nth_prime == old(self).nth_prime,
            final(self).counter == vstd::math::max(
                old(self).counter as int,
                vstd::math::min(old(self).nth_prime as int, old(self).counter + n_steps),
            ),
            (s is Complete <==> final(self).counter == final(self).nth_prime),
            s is Complete || s is Incomplete,
    {
        let until: usize = if self.nth_prime <= self.counter {
            self.nth_prime
        } else if n_steps >= self.nth_prime - self.counter {
            self.nth_prime
        } else {
            self.counter + n_steps
        };
        let ghost old_wf = self.wf();
        let ghost old_counter = self.counter;
        let ghost old_nth = self.nth_prime;
        while self.counter < until
            invariant
                until == vstd::math::min(self.nth_prime as int, old_counter + n_steps),
                self.nth_prime == old_nth,
                if old_counter < until {
                    old_counter <= self.counter <= until
                } else {
                    self.counter == old_counter
                },
                old_wf ==> 1 <= self.counter,
                old_wf ==> (is_kth_prime(self.counter as int, self.last_prime as int)
                    || self.last_prime == usize::MAX),
            decreases until - self.counter,
        {
            if self.last_prime < usize::MAX {
                let ghost prev = self.last_prime;
                let np = next_prime(self.last_prime);
                proof {
                    if old_wf && np < usize::MAX {
                        assert(is_next_prime(prev as int, np as int));
                        lemma_kth_prime_step(self.counter + 1, prev as int, np as int);
                    }
                }
                self.last_prime = np;
            }
            self.counter = self.counter + 1;
        }
        if self.counter == self.nth_prime {
            TaskState::Complete
        } else {
            TaskState::Incomplete
        }
    }

    pub fn get_last_prime(&self) -> (p: usize)
        ensures
            p == self.last_prime,
    {
        self.last_prime
    }
}

/// A pool-ready unit of work: compute the `nth_prime`-th prime, advancing at
/// most `chunk` primes per tick.
pub struct PrimeJob {
    pub prim: Primatizer,
    pub chunk: usize,
}

impl PrimeJob {
    pub fn new(nth: usize, chunk: usize) -> (j: PrimeJob)
        ensures
            j.prim.wf(),
            j.prim.nth_prime == nth,
            j.prim.counter == 1,
            j.prim.last_prime == 2,
            j.chunk == chunk,
    {
        PrimeJob { prim: Primatizer::new(nth), chunk }
    }
}

impl crate::task::Step<usize> for PrimeJob {
    /// One step advances the walk by at most `chunk` primes — the counter
    /// moves to `min(nth_prime, counter + chunk)` and never backwards — and
    /// reports Complete exactly when the walk stands at the target, carrying
    /// the prime reached.
    open spec fn step_post(pre: PrimeJob, post: PrimeJob, r: (TaskState, Option<usize>)) -> bool {
        &&& post.chunk == pre.chunk
        &&& post.prim.nth_prime == pre.prim.nth_prime
        &&& post.prim.counter == vstd::math::max(
            pre.prim.counter as int,
            vstd::math::min(pre.prim.nth_prime as int, pre.prim.counter + pre.chunk),
        )
        &&& (pre.prim.wf() ==> post.prim.wf())
        &&& (r.0 is Complete || r.0 is Incomplete)
        &&& (r.0 is Complete <==> post.prim.counter == post.prim.nth_prime)
        &&& (r.0 is Complete ==> r.1 == Some(post.prim.last_prime))
    }

    fn step(&mut self) -> (r: (TaskState, Option<usize>)) {
        let st = self.prim.step(self.chunk);
        match st {
            TaskState::Complete => {
                let p = self.prim.get_last_prime();
                (TaskState::Complete, Some(p))
            },
            _ => (st, None),
        }
    }
}

} // verus!
