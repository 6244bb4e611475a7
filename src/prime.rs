//! Primality by trial division.

use vstd::prelude::*;

verus! {

/// `n` is prime: at least 2 and without a divisor strictly between 1 and `n`.
pub open spec fn is_prime_spec(n: int) -> bool {
    n >= 2 && forall|d: int| 2 <= d < n ==> #[trigger] (n % d) != 0
}

/// No `d` with `2 <= d` and `d * d <= n` divides `n`.
pub open spec fn no_divisor_up_to_root(n: int) -> bool {
    forall|d: int| 2 <= d && #[trigger] (d * d) <= n ==> n % d != 0
}

/// An odd number has no even divisor.
proof fn lemma_odd_has_no_even_divisor(n: int, d: int)
    requires
        n % 2 == 1,
        d > 0,
        d % 2 == 0,
    ensures
        n % d != 0,
{
    if n % d == 0 {
        vstd::arithmetic::div_mod::lemma_fundamental_div_mod(n, d);
        vstd::arithmetic::div_mod::lemma_fundamental_div_mod(d, 2);
        let q = n / d;
        let h = d / 2;
        assert(n == 2 * (h * q)) by (nonlinear_arith)
            requires
                n == d * q,
                d == 2 * h,
        ;
        vstd::arithmetic::div_mod::lemma_mod_multiples_basic(h * q, 2);
    }
}

/// A divisor `d` of `n` with `2 <= d < n` comes with a divisor `e`
/// of `n` with `2 <= e` and `e * e <= n`.
proof fn lemma_small_factor(n: int, d: int)
    requires
        2 <= d < n,
        n % d == 0,
    ensures
        exists|e: int| 2 <= e && #[trigger] (e * e) <= n && n % e == 0,
{
    vstd::arithmetic::div_mod::lemma_fundamental_div_mod(n, d);
    let q = n / d;
    assert(n == d * q);
    assert(q >= 2) by (nonlinear_arith)
        requires
            n == d * q,
            d < n,
            d >= 2,
    ;
    if d * d <= n {
        assert(2 <= d && d * d <= n && n % d == 0);
    } else {
        assert(q * q <= n) by (nonlinear_arith)
            requires
                n == d * q,
                d * d > n,
                q >= 2,
                d >= 2,
        ;
        assert(n == q * d) by (nonlinear_arith)
            requires
                n == d * q,
        ;
        vstd::arithmetic::div_mod::lemma_mod_multiples_basic(d, q);
        assert(2 <= q && q * q <= n && n % q == 0);
    }
}

/// For `n >= 2`, being prime is the same as having no divisor `d`
/// with `2 <= d` and `d * d <= n`: trial division up to the integer
/// square root, inclusive, decides primality.
pub proof fn lemma_prime_iff_no_divisor_up_to_root(n: int)
    requires
        n >= 2,
    ensures
        is_prime_spec(n) <==> no_divisor_up_to_root(n),
{
    if is_prime_spec(n) {
        assert forall|d: int| 2 <= d && #[trigger] (d * d) <= n implies n % d != 0 by {
            assert(d < n) by (nonlinear_arith)
                requires
                    2 <= d,
                    d * d <= n,
            ;
        }
    }
    if no_divisor_up_to_root(n) {
        assert forall|d: int| 2 <= d < n implies #[trigger] (n % d) != 0 by {
            if n % d == 0 {
                lemma_small_factor(n, d);
            }
        }
    }
}

/// Numbers below 2 are not prime, 2 and 3 are, and no even number
/// above 2 is.
pub proof fn lemma_prime_small_and_even(n: int)
    ensures
        n < 2 ==> !is_prime_spec(n),
        is_prime_spec(2),
        is_prime_spec(3),
        n > 2 && n % 2 == 0 ==> !is_prime_spec(n),
{
    assert forall|d: int| 2 <= d < 3 implies #[trigger] (3int % d) != 0 by {
        assert(d == 2);
    }
    if n > 2 && n % 2 == 0 {
        assert(n % 2 == 0);
    }
}

/// Decides whether `n` is prime: below 2 it is not, 2 and 3 are, an even
/// number is not, and otherwise every odd candidate from 3 up to and
/// including the integer square root of `n` is tried as a divisor.
pub fn is_prime(n: u32) -> (r: bool)
    ensures
        r == is_prime_spec(n as int),
{
    if n < 2 {
        return false;
    }
    if n == 2 || n == 3 {
        proof {
            lemma_prime_small_and_even(n as int);
        }
        return true;
    }
    if n % 2 == 0 {
        proof {
            lemma_prime_small_and_even(n as int);
        }
        return false;
    }
    let mut i: u32 = 3;
    loop
        invariant
            n >= 5,
            n % 2 == 1,
            3 <= i <= 65537,
            i % 2 == 1,
            forall|d: int| 2 <= d < i ==> #[trigger] ((n as int) % d) != 0,
        ensures
            (i as int) * (i as int) > n as int,
            3 <= i,
            forall|d: int| 2 <= d < i ==> #[trigger] ((n as int) % d) != 0,
        decreases 65537 - i,
    {
        let wide = i as u64;
        assert(wide * wide <= 65537 * 65537) by (nonlinear_arith)
            requires
                wide <= 65537,
        ;
        if wide * wide > n as u64 {
            break;
        }
        if n % i == 0 {
            assert(i < n) by (nonlinear_arith)
                requires
                    3 <= i,
                    (i as int) * (i as int) <= n as int,
            ;
            return false;
        }
        proof {
            lemma_odd_has_no_even_divisor(n as int, i + 1);
        }
        assert((i as int) < 65536) by (nonlinear_arith)
            requires
                (i as int) * (i as int) <= n as int,
                n <= u32::MAX,
                i >= 0,
        ;
        i = i + 2;
    }
    proof {
        assert forall|d: int| 2 <= d < n implies #[trigger] ((n as int) % d) != 0 by {
            if (n as int) % d == 0 {
                lemma_small_factor(n as int, d);
                let e = choose|e: int| 2 <= e && #[trigger] (e * e) <= n && (n as int) % e == 0;
                assert(e < i) by (nonlinear_arith)
                    requires
                        e * e <= n,
                        (i as int) * (i as int) > n as int,
                        i >= 3,
                        e >= 2,
                ;
            }
        }
    }
    true
}

} // verus!
