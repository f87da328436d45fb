//! Fibonacci numbers, computed both by naive double recursion (a deliberate
//! worst-case CPU benchmark) and by a linear-time iteration.
//!
//! Both entry points return exactly `fib(n)` as long as it fits in 64 bits —
//! that is, for every `n` up to 93 — and wrap modulo 2^64 beyond that
//! instead of signalling.

use vstd::prelude::*;
use vstd::arithmetic::div_mod::lemma_add_mod_noop;
use vstd::arithmetic::div_mod::lemma_mod_multiples_vanish;
use vstd::arithmetic::div_mod::lemma_small_mod;

verus! {

/// Mathematical Fibonacci sequence: `fib(0) == 0`, `fib(1) == 1`.
pub open spec fn fib(n: nat) -> nat
    decreases n,
{
    if n == 0 {
        0
    } else if n == 1 {
        1
    } else {
        fib((n - 1) as nat) + fib((n - 2) as nat)
    }
}

/// The Fibonacci sequence never decreases.
pub proof fn lemma_fib_monotonic(i: nat, j: nat)
    requires
        i <= j,
    ensures
        fib(i) <= fib(j),
    decreases j - i,
{
    if i < j {
        if j < 2 {
            assert(fib(0) == 0);
            assert(fib(1) == 1);
        } else if i < 2 {
            lemma_fib_monotonic(2, j);
            assert(fib(2) == fib(1) + fib(0) == 1);
            assert(fib(i) <= 1);
        } else {
            lemma_fib_monotonic(i, (j - 1) as nat);
            assert(fib(j) == fib((j - 1) as nat) + fib((j - 2) as nat));
        }
    }
}

/// Adjacent Fibonacci pair `(fib(n), fib(n + 1))`, defined by a linear
/// recursion so that concrete values can be evaluated cheaply.
pub open spec fn fib_pair(n: nat) -> (nat, nat)
    decreases n,
{
    if n == 0 {
        (0, 1)
    } else {
        let p = fib_pair((n - 1) as nat);
        (p.1, p.0 + p.1)
    }
}

/// The linear pair recursion agrees with `fib`.
pub proof fn lemma_fib_pair(n: nat)
    ensures
        fib_pair(n).0 == fib(n),
        fib_pair(n).1 == fib(n + 1),
    decreases n,
{
    if n > 0 {
        lemma_fib_pair((n - 1) as nat);
        assert(fib(n + 1) == fib(n) + fib((n - 1) as nat));
    }
}

proof fn lemma_fib_pair_31()
    ensures
        fib_pair(31) == (1346269nat, 2178309nat),
{
    reveal_with_fuel(fib_pair, 32);
}

proof fn lemma_fib_pair_62()
    ensures
        fib_pair(62) == (4052739537881nat, 6557470319842nat),
{
    lemma_fib_pair_31();
    reveal_with_fuel(fib_pair, 32);
}

proof fn lemma_fib_pair_93()
    ensures
        fib_pair(93).0 == 12200160415121876738,
{
    lemma_fib_pair_62();
    reveal_with_fuel(fib_pair, 32);
}

/// `fib(93)` is the largest Fibonacci number representable in a `u64`.
pub proof fn lemma_fib_93_fits_u64()
    ensures
        fib(93) <= u64::MAX,
{
    lemma_fib_pair(93);
    lemma_fib_pair_93();
}

/// A 64-bit wrapping sum of `fib(n - 1)` and `fib(n - 2)`, each already
/// reduced, is `fib(n)` reduced.
proof fn lemma_fib_step_mod(n: nat, a: u64, b: u64)
    requires
        n >= 2,
        a == fib((n - 1) as nat) % 0x1_0000_0000_0000_0000,
        b == fib((n - 2) as nat) % 0x1_0000_0000_0000_0000,
    ensures
        a.wrapping_add(b) == fib(n) % 0x1_0000_0000_0000_0000,
{
    let m: int = 0x1_0000_0000_0000_0000;
    lemma_add_mod_noop(fib((n - 1) as nat) as int, fib((n - 2) as nat) as int, m);
    assert((a + b) % m == fib(n) as int % m);
    if a + b > u64::MAX {
        lemma_mod_multiples_vanish(1, a + b - m, m);
        lemma_small_mod((a + b - m) as nat, m as nat);
    } else {
        lemma_small_mod((a + b) as nat, m as nat);
    }
}

/// Naive doubly recursive Fibonacci; exponential time by design. The result
/// is exact whenever it fits in 64 bits and wraps modulo 2^64 otherwise.
pub fn fibonacci_recursive(n: u32) -> (r: u64)
    ensures
        r == fib(n as nat) % 0x1_0000_0000_0000_0000,
        fib(n as nat) <= u64::MAX ==> r == fib(n as nat),
    decreases n,
{
    proof {
        if fib(n as nat) <= u64::MAX {
            lemma_small_mod(fib(n as nat), 0x1_0000_0000_0000_0000);
        }
    }
    if n <= 1 {
        return n as u64;
    }
    let a = fibonacci_recursive(n - 1);
    let b = fibonacci_recursive(n - 2);
    proof {
        lemma_fib_step_mod(n as nat, a, b);
    }
    a.wrapping_add(b)
}

/// Linear-time Fibonacci with two running accumulators. The result is exact
/// whenever it fits in 64 bits and wraps modulo 2^64 otherwise.
pub fn fibonacci_iterative(n: u32) -> (r: u64)
    ensures
        r == fib(n as nat) % 0x1_0000_0000_0000_0000,
        fib(n as nat) <= u64::MAX ==> r == fib(n as nat),
{
    proof {
        if fib(n as nat) <= u64::MAX {
            lemma_small_mod(fib(n as nat), 0x1_0000_0000_0000_0000);
        }
    }
    if n <= 1 {
        return n as u64;
    }
    let mut a: u64 = 0;
    let mut b: u64 = 1;
    let mut i: u64 = 2;
    while i <= n as u64
        invariant
            2 <= i <= n + 1,
            a == fib((i - 2) as nat) % 0x1_0000_0000_0000_0000,
            b == fib((i - 1) as nat) % 0x1_0000_0000_0000_0000,
        decreases n + 1 - i,
    {
        proof {
            lemma_fib_step_mod(i as nat, b, a);
        }
        let temp = b.wrapping_add(a);
        a = b;
        b = temp;
        i += 1;
    }
    b
}

} // verus!
