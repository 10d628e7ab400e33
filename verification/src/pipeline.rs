//! Primality testing for the number pipeline.

use vstd::prelude::*;

verus! {

/// `d` divides `n` exactly.
pub open spec fn divides(d: int, n: int) -> bool {
    d != 0 && n % d == 0
}

/// `n` is a prime number: at least 2, and no integer in `2..n` divides it.
pub open spec fn is_prime_spec(n: int) -> bool {
    &&& n >= 2
    &&& forall|d: int| 2 <= d < n ==> !#[trigger] divides(d, n)
}

/// The inputs on which the trial loop of `is_prime` would square a candidate
/// past `u64::MAX`: the loop passes its last candidate whose square fits,
/// 4294967291, only for a prime at least that square.
pub open spec fn trial_overflows(n: int) -> bool {
    n >= 4294967291 * 4294967291 && is_prime_spec(n)
}

proof fn lemma_divisor_of_divisor(k: int, d: int, n: int)
    requires
        k > 0,
        d > 0,
        n >= 0,
        d % k == 0,
        n % d == 0,
    ensures
        n % k == 0,
{
    let a = d / k;
    let b = n / d;
    assert(d == k * a) by (nonlinear_arith)
        requires k > 0, d % k == 0, a == d / k;
    assert(n == d * b) by (nonlinear_arith)
        requires d > 0, n % d == 0, b == n / d;
    assert(n == k * (a * b)) by (nonlinear_arith)
        requires d == k * a, n == d * b;
    assert(n % k == 0) by (nonlinear_arith)
        requires n == k * (a * b), k > 0;
}

/// A composite number has a divisor whose square does not exceed it.
proof fn lemma_small_divisor(n: int, d: int) -> (e: int)
    requires
        2 <= d < n,
        n % d == 0,
    ensures
        2 <= e,
        e * e <= n,
        n % e == 0,
{
    let q = n / d;
    assert(n == d * q) by (nonlinear_arith)
        requires d > 0, n % d == 0, q == n / d;
    assert(q >= 2) by (nonlinear_arith)
        requires n == d * q, d < n, d >= 2;
    assert(n % q == 0) by (nonlinear_arith)
        requires n == d * q, q >= 2;
    if d <= q {
        assert(d * d <= n) by (nonlinear_arith)
            requires n == d * q, d <= q, d >= 0;
        d
    } else {
        assert(q * q <= n) by (nonlinear_arith)
            requires n == d * q, q < d, q >= 0;
        q
    }
}

/// Trial division by 2, 3 and the numbers `6k ± 1`.
pub fn is_prime(n: u64) -> (r: bool)
    requires
        !trial_overflows(n as int),
    ensures
        r == is_prime_spec(n as int),
{
    match try_is_prime(n) {
        Some(b) => b,
        None => false,
    }
}

/// Trial division as `is_prime` does it, answering `None` exactly where
/// the trial loop would square a candidate past `u64::MAX`.
pub fn try_is_prime(n: u64) -> (r: Option<bool>)
    ensures
        r == if trial_overflows(n as int) {
            None
        } else {
            Some(is_prime_spec(n as int))
        },
{
    if n < 2 {
        return Some(false);
    }
    if n == 2 || n == 3 {
        assert forall|d: int| 2 <= d < n implies !#[trigger] divides(d, n as int) by {
            if n == 3 && d == 2 {
                assert(3int % 2 == 1);
            }
        }
        return Some(true);
    }
    if n % 2 == 0 || n % 3 == 0 {
        if n % 2 == 0 {
            assert(divides(2, n as int));
        } else {
            assert(divides(3, n as int));
        }
        return Some(false);
    }
    assert forall|d: int| 2 <= d < 5 implies !#[trigger] divides(d, n as int) by {
        if d == 4 && divides(d, n as int) {
            lemma_divisor_of_divisor(2, 4, n as int);
        }
    }
    let mut i: u64 = 5;
    while i * i <= n
        invariant
            5 <= i,
            i % 6 == 5,
            n >= 5,
            n % 2 != 0,
            n % 3 != 0,
            i <= 4294967291,
            i * i <= 18446744039349813681,
            forall|d: int| 2 <= d < i ==> !#[trigger] divides(d, n as int),
        decreases n - i,
    {
        assert(i < n) by (nonlinear_arith)
            requires i * i <= n, i >= 5;
        if n % i == 0 {
            assert(divides(i as int, n as int));
            return Some(false);
        }
        assert(i + 2 < n) by (nonlinear_arith)
            requires i * i <= n, i >= 5;
        if n % (i + 2) == 0 {
            assert(divides((i + 2) as int, n as int));
            return Some(false);
        }
        assert forall|d: int| 2 <= d < i + 6 implies !#[trigger] divides(d, n as int) by {
            if d >= i && d != i && d != i + 2 {
                if d == i + 1 || d == i + 3 || d == i + 5 {
                    assert(d % 2 == 0);
                    if divides(d, n as int) {
                        lemma_divisor_of_divisor(2, d, n as int);
                    }
                } else {
                    assert(d == i + 4);
                    assert(d % 3 == 0);
                    if divides(d, n as int) {
                        lemma_divisor_of_divisor(3, d, n as int);
                    }
                }
            }
        }
        if i >= 4294967291 {
            // every candidate below `i + 6` fails to divide `n`, and
            // `(i + 6)^2` exceeds `n`, so `n` is prime and above the limit
            proof {
                assert forall|d: int| 2 <= d < n implies !#[trigger] divides(d, n as int) by {
                    if divides(d, n as int) {
                        let e = lemma_small_divisor(n as int, d);
                        if e >= i + 6 {
                            assert(e * e >= (i + 6) * (i + 6)) by (nonlinear_arith)
                                requires e >= i + 6, i >= 0;
                            assert((i + 6) * (i + 6) > 18446744073709551615int) by (nonlinear_arith)
                                requires i >= 4294967291int;
                        }
                        assert(divides(e, n as int));
                    }
                }
                assert(n as int >= 4294967291 * 4294967291) by (nonlinear_arith)
                    requires i * i <= n, i >= 4294967291;
            }
            return None;
        }
        assert((i + 6) * (i + 6) <= 18446744039349813681) by (nonlinear_arith)
            requires i + 6 <= 4294967291, i >= 0;
        i = i + 6;
    }
    assert forall|d: int| 2 <= d < n implies !#[trigger] divides(d, n as int) by {
        if divides(d, n as int) {
            let e = lemma_small_divisor(n as int, d);
            if e >= i {
                assert(e * e >= i * i) by (nonlinear_arith)
                    requires e >= i, i >= 0;
            }
            assert(divides(e, n as int));
        }
    }
    assert(n < 4294967291 * 4294967291) by (nonlinear_arith)
        requires n < i * i, i <= 4294967291;
    Some(true)
}

/// The primes in `start..end`, in increasing order.
pub fn primes_in_range(start: u64, end: u64) -> (r: Vec<u64>)
    requires
        forall|m: int| start <= m < end ==> !#[trigger] trial_overflows(m),
    ensures
        forall|k: int| 0 <= k < r.len() ==> start <= #[trigger] r@[k] < end && is_prime_spec(r@[k] as int),
        forall|k: int, l: int| 0 <= k < l < r.len() ==> r@[k] < r@[l],
        forall|m: int| start <= m < end && is_prime_spec(m) ==> r@.contains(m as u64),
{
    let mut r: Vec<u64> = Vec::new();
    let mut n = start;
    while n < end
        invariant
            start < end ==> start <= n <= end,
            start >= end ==> n == start && r.len() == 0,
            forall|m: int| start <= m < end ==> !#[trigger] trial_overflows(m),
            forall|k: int| 0 <= k < r.len() ==> start <= #[trigger] r@[k] < n && is_prime_spec(r@[k] as int),
            forall|k: int, l: int| 0 <= k < l < r.len() ==> r@[k] < r@[l],
            forall|m: int| start <= m < n && is_prime_spec(m) ==> r@.contains(m as u64),
        decreases end - n,
    {
        let ghost prev = r@;
        if is_prime(n) {
            r.push(n);
            assert(r@ == prev.push(n));
        }
        assert forall|m: int| start <= m < n + 1 && is_prime_spec(m) implies r@.contains(m as u64) by {
            if m == n {
                assert(r@[r@.len() - 1] == n);
            } else {
                assert(prev.contains(m as u64));
                let k = choose|k: int| 0 <= k < prev.len() && prev[k] == m as u64;
                assert(r@[k] == m as u64);
            }
        }
        n = n + 1;
    }
    r
}

/// The collector stage: the primes as they arrived, in increasing order
/// (each as often as it arrived).
pub fn collect_sorted(received: Vec<u64>) -> (r: Vec<u64>)
    ensures
        r@.to_multiset() == received@.to_multiset(),
        forall|k: int, l: int| 0 <= k <= l < r.len() ==> r@[k] <= r@[l],
{
    let mut r: Vec<u64> = Vec::new();
    let mut i: usize = 0;
    assert(received@.take(0) =~= Seq::<u64>::empty());
    while i < received.len()
        invariant
            i <= received.len(),
            r@.to_multiset() == received@.take(i as int).to_multiset(),
            forall|k: int, l: int| 0 <= k <= l < r.len() ==> r@[k] <= r@[l],
        decreases received.len() - i,
    {
        let x = received[i];
        let mut p: usize = 0;
        while p < r.len() && r[p] <= x
            invariant
                p <= r.len(),
                forall|k: int| 0 <= k < p ==> r@[k] <= x,
            decreases r.len() - p,
        {
            p = p + 1;
        }
        let ghost before = r@;
        r.insert(p, x);
        proof {
            assert(r@ == before.insert(p as int, x));
            assert(received@.take(i + 1) =~= received@.take(i as int).push(x));
            vstd::seq_lib::to_multiset_insert(before, p as int, x);
            vstd::seq_lib::to_multiset_build(received@.take(i as int), x);
            assert forall|k: int, l: int| 0 <= k <= l < r.len() implies r@[k] <= r@[l] by {
                if k < p as int && l > p as int {
                    assert(r@[k] == before[k] && r@[l] == before[l - 1]);
                } else if l < p as int {
                    assert(r@[k] == before[k] && r@[l] == before[l]);
                } else if k > p as int {
                    assert(r@[k] == before[k - 1] && r@[l] == before[l - 1]);
                } else if k == p as int && l > p as int {
                    assert(r@[l] == before[l - 1]);
                    assert(before[p as int] > x);
                } else if l == p as int && k < p as int {
                    assert(r@[k] == before[k]);
                }
            }
        }
        i = i + 1;
    }
    assert(received@.take(received.len() as int) =~= received@);
    r
}

} // verus!
