//! Small functions evaluated on constants: squaring, clamping and the
//! factorial.

use vstd::prelude::*;

verus! {

/// The most connections a server accepts.
pub const MAX_CONNECTIONS: u32 = 100;

/// The request timeout, in seconds.
pub const TIMEOUT_SECONDS: u64 = 3600;

/// The request timeout, in milliseconds.
pub const TIMEOUT_MILLIS: u64 = 3600000;

/// `x * x`.
pub fn square(x: u32) -> (r: u32)
    requires
        x * x <= u32::MAX,
    ensures
        r == x * x,
{
    x * x
}

/// `value` moved into `min..=max`: `min` below it, `max` above it.
pub fn clamp(value: i32, min: i32, max: i32) -> (r: i32)
    ensures
        r == if value < min {
            min
        } else if value > max {
            max
        } else {
            value
        },
{
    if value < min {
        min
    } else if value > max {
        max
    } else {
        value
    }
}

/// `n!`, with `0! == 1`.
pub open spec fn factorial_spec(n: nat) -> nat
    decreases n,
{
    if n == 0 {
        1
    } else {
        n * factorial_spec((n - 1) as nat)
    }
}

proof fn lemma_factorial_mono(a: nat, b: nat)
    requires
        a <= b,
    ensures
        factorial_spec(a) <= factorial_spec(b),
        factorial_spec(a) >= 1,
    decreases b,
{
    if b > 0 && a < b {
        lemma_factorial_mono(a, (b - 1) as nat);
        assert(factorial_spec((b - 1) as nat) <= b * factorial_spec((b - 1) as nat)) by (nonlinear_arith)
            requires b >= 1, factorial_spec((b - 1) as nat) >= 1;
    } else if b > 0 {
        lemma_factorial_mono((b - 1) as nat, (b - 1) as nat);
        assert(b * factorial_spec((b - 1) as nat) >= 1) by (nonlinear_arith)
            requires b >= 1, factorial_spec((b - 1) as nat) >= 1;
    }
}

proof fn lemma_factorial_grows(i: nat)
    requires
        i >= 3,
    ensures
        factorial_spec(i) >= 2 * i,
{
    lemma_factorial_mono(2, (i - 1) as nat);
    assert(factorial_spec(2) == 2) by {
        assert(factorial_spec(1) == 1 * factorial_spec(0));
    }
    assert(i * factorial_spec((i - 1) as nat) >= 2 * i) by (nonlinear_arith)
        requires factorial_spec((i - 1) as nat) >= 2, i >= 3;
}

/// `n!`, multiplying up from 2.
pub fn factorial(n: u64) -> (r: u64)
    requires
        factorial_spec(n as nat) <= u64::MAX,
    ensures
        r == factorial_spec(n as nat),
{
    let mut result: u64 = 1;
    let mut i: u64 = 2;
    assert(factorial_spec(1) == 1) by {
        assert(factorial_spec(0) == 1);
    }
    if n < 2 {
        return result;
    }
    while i <= n
        invariant
            2 <= i,
            i <= n + 1,
            factorial_spec(n as nat) <= u64::MAX,
            result == factorial_spec((i - 1) as nat),
        decreases n + 1 - i,
    {
        proof {
            lemma_factorial_mono(i as nat, n as nat);
            if i >= 3 {
                lemma_factorial_grows(i as nat);
            }
        }
        assert(factorial_spec(i as nat) == i * factorial_spec((i - 1) as nat));
        assert(result * i == factorial_spec(i as nat)) by (nonlinear_arith)
            requires
                result == factorial_spec((i - 1) as nat),
                factorial_spec(i as nat) == i * factorial_spec((i - 1) as nat);
        result = result * i;
        i = i + 1;
    }
    result
}

} // verus!
