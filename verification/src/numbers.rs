//! Basic number theory: factorial and greatest common divisor.

use vstd::prelude::*;
use vstd::arithmetic::div_mod::lemma_fundamental_div_mod;
use vstd::arithmetic::div_mod::lemma_mul_mod_noop_left;
use vstd::arithmetic::div_mod::lemma_small_mod;

verus! {

/// Mathematical factorial.
pub open spec fn fact(n: nat) -> nat
    decreases n,
{
    if n == 0 {
        1
    } else {
        n * fact((n - 1) as nat)
    }
}

/// Euclid's greatest common divisor, with `gcd_spec(a, 0) == a`.
pub open spec fn gcd_spec(a: nat, b: nat) -> nat
    decreases b,
{
    if b == 0 {
        a
    } else {
        gcd_spec(b, a % b)
    }
}

/// Computes `n!` in a 64-bit accumulator; past the point where the product
/// no longer fits, the result silently wraps modulo 2^64.
pub fn factorial(n: u32) -> (r: u64)
    ensures
        r == fact(n as nat) % 0x1_0000_0000_0000_0000,
{
    proof {
        assert(fact(0) == 1);
        assert(fact(1) == 1);
    }
    if n <= 1 {
        return 1;
    }
    let mut acc: u64 = 1;
    let mut i: u64 = 2;
    while i <= n as u64
        invariant
            2 <= i <= n + 1,
            acc == fact((i - 1) as nat) % 0x1_0000_0000_0000_0000,
        decreases n + 1 - i,
    {
        let next: u64 = acc.wrapping_mul(i);
        proof {
            let m: int = 0x1_0000_0000_0000_0000;
            assert(next == (acc as nat * i as nat) % (m as nat));
            lemma_mul_mod_noop_left(fact((i - 1) as nat) as int, i as int, m);
            assert((acc as int * i as int) % m == (fact((i - 1) as nat) as int * i as int) % m);
            assert(fact(i as nat) == (i as nat) * fact((i - 1) as nat));
            assert(next == fact(i as nat) % (m as nat));
        }
        acc = next;
        i += 1;
    }
    acc
}

/// Euclidean algorithm for the greatest common divisor.
pub fn gcd(a: u64, b: u64) -> (r: u64)
    ensures
        r == gcd_spec(a as nat, b as nat),
{
    let mut x = a;
    let mut y = b;
    while y != 0
        invariant
            gcd_spec(x as nat, y as nat) == gcd_spec(a as nat, b as nat),
        decreases y,
    {
        let t = y;
        y = x % y;
        x = t;
    }
    x
}

/// Zero is a right identity: `gcd_spec(a, 0) == a`.
pub proof fn lemma_gcd_zero_right(a: nat)
    ensures
        gcd_spec(a, 0) == a,
{
}

/// Zero is a left identity: `gcd_spec(0, b) == b`.
pub proof fn lemma_gcd_zero_left(b: nat)
    ensures
        gcd_spec(0, b) == b,
{
    if b != 0 {
        assert(0nat % b == 0nat);
        assert(gcd_spec(b, 0) == b);
        assert(gcd_spec(0, b) == gcd_spec(b, 0));
    }
}

/// The order of the arguments does not matter.
pub proof fn lemma_gcd_commutative(a: nat, b: nat)
    ensures
        gcd_spec(a, b) == gcd_spec(b, a),
{
    if a == 0 {
        lemma_gcd_zero_left(b);
    } else if b == 0 {
        lemma_gcd_zero_left(a);
    } else if a < b {
        lemma_small_mod(a, b);
        assert(gcd_spec(a, b) == gcd_spec(b, a % b));
    } else if b < a {
        lemma_small_mod(b, a);
        assert(gcd_spec(b, a) == gcd_spec(a, b % a));
    }
}

/// `d` divides `n` exactly.
pub open spec fn divides(d: int, n: int) -> bool {
    exists|k: int| n == #[trigger] (k * d)
}

/// The greatest common divisor divides both of its arguments.
pub proof fn lemma_gcd_divides_both(a: nat, b: nat)
    ensures
        divides(gcd_spec(a, b) as int, a as int),
        divides(gcd_spec(a, b) as int, b as int),
    decreases b,
{
    let g = gcd_spec(a, b) as int;
    if b == 0 {
        assert(a as int == 1 * g);
        assert(b as int == 0 * g);
    } else {
        lemma_gcd_divides_both(b, a % b);
        let k1 = choose|k: int| b as int == #[trigger] (k * g);
        let k2 = choose|k: int| (a % b) as int == #[trigger] (k * g);
        lemma_fundamental_div_mod(a as int, b as int);
        assert(a as int == (b as int) * (a as int / b as int) + (a % b) as int);
        assert(a as int == (k1 * (a as int / b as int) + k2) * g) by (nonlinear_arith)
            requires
                a as int == (b as int) * (a as int / b as int) + (a % b) as int,
                b as int == k1 * g,
                (a % b) as int == k2 * g,
        ;
    }
}

} // verus!
