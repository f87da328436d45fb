//! Primality by trial division, prime counting, and nth-prime lookup.

use vstd::prelude::*;
use vstd::arithmetic::div_mod::lemma_fundamental_div_mod;
use vstd::arithmetic::div_mod::lemma_mod_multiples_basic;

verus! {

/// `n` is prime: at least 2 and without a divisor strictly between 1 and `n`.
pub open spec fn is_prime_spec(n: int) -> bool {
    n >= 2 && forall|d: int| 2 <= d < n ==> #[trigger] (n % d) != 0
}

/// Number of primes in the half-open interval `[2, m)`.
pub open spec fn prime_count(m: int) -> nat
    decreases m,
{
    if m <= 2 {
        0
    } else {
        prime_count(m - 1) + if is_prime_spec(m - 1) {
            1nat
        } else {
            0nat
        }
    }
}

/// An odd number has no even divisor.
proof fn lemma_even_divisor(n: int, d: int)
    requires
        n >= 2,
        n % 2 != 0,
        2 <= d,
        d % 2 == 0,
    ensures
        n % d != 0,
{
    if n % d == 0 {
        lemma_fundamental_div_mod(n, d);
        lemma_fundamental_div_mod(d, 2);
        assert(n == d * (n / d));
        assert(d == 2 * (d / 2));
        assert(n == 2 * ((d / 2) * (n / d))) by (nonlinear_arith)
            requires
                n == d * (n / d) && d == 2 * (d / 2),
        ;
        lemma_mod_multiples_basic((d / 2) * (n / d), 2);
    }
}

/// Once every candidate divisor below `i` has been ruled out and `i * i`
/// exceeds `n`, no divisor at all remains: any factorisation `n == d * e`
/// with `d >= i` forces the cofactor `e` below `i`.
proof fn lemma_no_large_divisor(n: int, i: int)
    requires
        n >= 2,
        i >= 2,
        i * i > n,
        forall|d: int| 2 <= d < i ==> #[trigger] (n % d) != 0,
    ensures
        is_prime_spec(n),
{
    assert forall|d: int| 2 <= d < n implies #[trigger] (n % d) != 0 by {
        if d >= i && n % d == 0 {
            lemma_fundamental_div_mod(n, d);
            let e = n / d;
            assert(n == d * e);
            assert(e >= 2) by (nonlinear_arith)
                requires
                    n == d * e && 2 <= d < n,
            ;
            assert(e < i) by (nonlinear_arith)
                requires
                    n == d * e && d >= i && i * i > n && e >= 2 && i >= 2,
            ;
            lemma_mod_multiples_basic(d, e);
            assert((d * e) % e == 0);
            assert(n % e != 0);
        }
    }
}

/// Counting primes over a wider interval never yields fewer.
pub proof fn lemma_prime_count_monotonic(a: int, b: int)
    requires
        a <= b,
    ensures
        prime_count(a) <= prime_count(b),
    decreases b - a,
{
    if a < b {
        lemma_prime_count_monotonic(a, b - 1);
    }
}

/// At most one prime has a given number of primes below it, so the
/// nth-prime contract determines its result completely.
pub proof fn lemma_nth_prime_unique(p: int, q: int)
    requires
        is_prime_spec(p),
        is_prime_spec(q),
        prime_count(p) == prime_count(q),
    ensures
        p == q,
{
    if p < q {
        assert(prime_count(p + 1) == prime_count(p) + 1);
        lemma_prime_count_monotonic(p + 1, q);
    }
    if q < p {
        assert(prime_count(q + 1) == prime_count(q) + 1);
        lemma_prime_count_monotonic(q + 1, p);
    }
}

/// Trial division by odd candidates up to the square root.
fn is_prime(n: u32) -> (r: bool)
    ensures
        r == is_prime_spec(n as int),
{
    if n < 2 {
        return false;
    }
    if n == 2 {
        return true;
    }
    if n % 2 == 0 {
        assert(!is_prime_spec(n as int));
        return false;
    }
    let mut i: u32 = 3;
    while i <= n / i
        invariant
            3 <= i,
            i % 2 == 1,
            n >= 3,
            n % 2 != 0,
            forall|d: int| 2 <= d < i ==> #[trigger] (n as int % d) != 0,
        decreases n as int + 2 - i as int,
    {
        proof {
            lemma_fundamental_div_mod(n as int, i as int);
            assert(i as int * i as int <= n as int) by (nonlinear_arith)
                requires
                    i as int <= n as int / i as int,
                    n as int == (i as int) * (n as int / i as int) + n as int % i as int,
                    n as int % i as int >= 0,
                    i >= 3,
            ;
            assert(i < n) by (nonlinear_arith)
                requires
                    i >= 3 && n >= 3 && i as int * i as int <= n as int,
            ;
        }
        if n % i == 0 {
            assert(!is_prime_spec(n as int));
            return false;
        }
        proof {
            lemma_even_divisor(n as int, i as int + 1);
        }
        i += 2;
    }
    proof {
        lemma_fundamental_div_mod(n as int, i as int);
        assert(i as int * i as int > n as int) by (nonlinear_arith)
            requires
                i as int > n as int / i as int,
                n as int == (i as int) * (n as int / i as int) + n as int % i as int,
                n as int % i as int >= 0,
                (n as int % i as int) < (i as int),
                i >= 3,
                n >= 3,
        ;
        lemma_no_large_divisor(n as int, i as int);
    }
    true
}

/// Counts the primes in the inclusive range `[2, max]`.
pub fn count_primes(max: u32) -> (r: u32)
    ensures
        r == prime_count(max as int + 1),
{
    if max < 2 {
        return 0;
    }
    let mut count: u32 = 0;
    let mut i: u64 = 2;
    while i <= max as u64
        invariant
            max >= 2,
            2 <= i <= max as u64 + 1,
            count == prime_count(i as int),
            count as int <= i - 2,
        decreases max as int + 1 - i as int,
    {
        if is_prime(i as u32) {
            count += 1;
        }
        i += 1;
    }
    count
}

/// Returns the nth prime, 1-indexed, so `get_nth_prime(1) == 2`; returns 0
/// when `n == 0`, and also when fewer than `n` primes fit in 32 bits.
pub fn get_nth_prime(n: u32) -> (r: u32)
    ensures
        n == 0 ==> r == 0,
        n > 0 && r > 0 ==> is_prime_spec(r as int) && prime_count(r as int) == n - 1,
        n > 0 && r == 0 ==> prime_count(0x1_0000_0000) < n,
{
    if n == 0 {
        return 0;
    }
    let mut count: u32 = 0;
    let mut num: u32 = 2;
    loop
        invariant
            n >= 1,
            2 <= num,
            count == prime_count(num as int),
            count < n,
        decreases u32::MAX - num,
    {
        let p = is_prime(num);
        proof {
            assert(prime_count(num as int + 1) == prime_count(num as int) + if is_prime_spec(
                num as int,
            ) {
                1nat
            } else {
                0nat
            });
        }
        if p && count + 1 == n {
            return num;
        }
        if p {
            count += 1;
        }
        if num == u32::MAX {
            return 0;
        }
        num += 1;
    }
}

} // verus!
