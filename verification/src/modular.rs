//! Arithmetic modulo a prime: congruences, inverses, and Fermat's little theorem.

use vstd::arithmetic::div_mod::{
    lemma_add_mod_noop, lemma_fundamental_div_mod, lemma_mod_bound, lemma_mod_multiples_vanish,
    lemma_mul_mod_noop_general, lemma_small_mod, lemma_sub_mod_noop,
};
use vstd::arithmetic::power::{lemma_pow0, pow};
use vstd::prelude::*;
use vstd::set_lib::{lemma_int_range, lemma_len_subset, set_int_range};

verus! {

/// `p` is a prime number.
pub open spec fn is_prime(p: int) -> bool {
    p >= 2 && forall|d: int| 2 <= d < p ==> #[trigger] (p % d) != 0
}

/// `n!`
pub open spec fn factorial(n: nat) -> int
    decreases n,
{
    if n == 0 {
        1
    } else {
        n * factorial((n - 1) as nat)
    }
}

/// The product of the items of a sequence.
pub open spec fn product(s: Seq<int>) -> int
    decreases s.len(),
{
    if s.len() == 0 {
        1
    } else {
        product(s.drop_last()) * s.last()
    }
}

/// The residues of `a, 2a, ..., n·a` modulo `p`.
pub open spec fn multiples(a: int, p: int, n: nat) -> Seq<int> {
    Seq::new(n, |i: int| (a * (i + 1)) % p)
}

/// An inverse of `a` modulo a prime `p`, for `0 < a < p`, found by descent: with
/// `p = q·a + r`, the inverse of `a` is `-q` times that of `r`.
pub open spec fn mod_inverse(a: int, p: int) -> int
    decreases a,
{
    if a <= 1 {
        1
    } else {
        (-(p / a) * mod_inverse(p % a, p)) % p
    }
}

/// Congruent factors give congruent products.
pub proof fn lemma_mul_congruent(a: int, b: int, c: int, d: int, p: int)
    requires
        p > 0,
        a % p == c % p,
        b % p == d % p,
    ensures
        (a * b) % p == (c * d) % p,
{
    lemma_mul_mod_noop_general(a, b, p);
    lemma_mul_mod_noop_general(c, d, p);
}

/// Congruent terms give congruent sums.
pub proof fn lemma_add_congruent(a: int, b: int, c: int, d: int, p: int)
    requires
        p > 0,
        a % p == c % p,
        b % p == d % p,
    ensures
        (a + b) % p == (c + d) % p,
{
    lemma_add_mod_noop(a, b, p);
    lemma_add_mod_noop(c, d, p);
}

/// Congruent terms give congruent differences.
pub proof fn lemma_sub_congruent(a: int, b: int, c: int, d: int, p: int)
    requires
        p > 0,
        a % p == c % p,
        b % p == d % p,
    ensures
        (a - b) % p == (c - d) % p,
{
    lemma_sub_mod_noop(a, b, p);
    lemma_sub_mod_noop(c, d, p);
}

/// Modulo a prime, every `a` with `0 < a < p` has `mod_inverse(a, p)` as an inverse.
pub proof fn lemma_mod_inverse(a: int, p: int)
    requires
        is_prime(p),
        0 < a < p,
    ensures
        (a * mod_inverse(a, p)) % p == 1,
    decreases a,
{
    if a == 1 {
        lemma_small_mod(1, p as nat);
    } else {
        let q = p / a;
        let r = p % a;
        let inv_r = mod_inverse(r, p);
        assert(r != 0);
        lemma_mod_bound(p, a);
        lemma_fundamental_div_mod(p, a);
        lemma_mod_inverse(r, p);
        lemma_mul_mod_noop_general(a, -q * inv_r, p);
        assert(a * (-q * inv_r) == p * (-inv_r) + r * inv_r) by (nonlinear_arith)
            requires
                p == a * q + r,
        ;
        lemma_mod_multiples_vanish(-inv_r, r * inv_r, p);
    }
}

/// Modulo a prime, a factor that is not a multiple of it can be cancelled.
pub proof fn lemma_mod_cancel(a: int, x: int, y: int, p: int)
    requires
        is_prime(p),
        a % p != 0,
        (a * x) % p == (a * y) % p,
    ensures
        x % p == y % p,
{
    let r = a % p;
    lemma_mod_bound(a, p);
    let b = mod_inverse(r, p);
    lemma_mod_inverse(r, p);
    lemma_small_mod(1, p as nat);
    lemma_small_mod(r as nat, p as nat);
    // b·a ≡ 1
    lemma_mul_congruent(b, a, b, r, p);
    assert(b * r == r * b) by (nonlinear_arith);
    // b·(a·x) ≡ b·(a·y)
    lemma_mul_congruent(b, a * x, b, a * y, p);
    // (b·a)·x ≡ 1·x and (b·a)·y ≡ 1·y
    lemma_mul_congruent(b * a, x, 1, x, p);
    lemma_mul_congruent(b * a, y, 1, y, p);
    assert(b * (a * x) == (b * a) * x) by (nonlinear_arith);
    assert(b * (a * y) == (b * a) * y) by (nonlinear_arith);
}

/// A prime that divides a product divides one of the factors.
pub proof fn lemma_prime_divides_product(a: int, b: int, p: int)
    requires
        is_prime(p),
        (a * b) % p == 0,
    ensures
        a % p == 0 || b % p == 0,
{
    if a % p != 0 {
        assert(a * 0 == 0);
        lemma_small_mod(0, p as nat);
        lemma_mod_cancel(a, b, 0, p);
    }
}

/// One item taken out of a sequence is a factor of its product.
proof fn lemma_product_remove(s: Seq<int>, i: int)
    requires
        0 <= i < s.len(),
    ensures
        product(s) == s[i] * product(s.remove(i)),
    decreases s.len(),
{
    let t = s.remove(i);
    if i == s.len() - 1 {
        assert(t =~= s.drop_last());
        assert(product(s.drop_last()) * s.last() == s.last() * product(s.drop_last()))
            by (nonlinear_arith);
    } else {
        assert(t.drop_last() =~= s.drop_last().remove(i));
        assert(t.last() == s.last());
        lemma_product_remove(s.drop_last(), i);
        let rest = product(t.drop_last());
        assert((s[i] * rest) * s.last() == s[i] * (rest * s.last())) by (nonlinear_arith);
    }
}

/// `m` distinct numbers among `1..=m` include `m`.
proof fn lemma_largest_occurs(s: Seq<int>, m: nat)
    requires
        m > 0,
        s.len() == m,
        forall|i: int| 0 <= i < m ==> 1 <= #[trigger] s[i] <= m,
        s.no_duplicates(),
    ensures
        exists|i: int| 0 <= i < m && #[trigger] s[i] == m,
{
    if forall|i: int| 0 <= i < m ==> #[trigger] s[i] != m {
        let below = set_int_range(1, m as int);
        assert forall|x: int| s.to_set().contains(x) implies below.contains(x) by {
            let i = choose|i: int| 0 <= i < s.len() && s[i] == x;
            assert(1 <= s[i] <= m && s[i] != m);
        }
        lemma_int_range(1, m as int);
        lemma_len_subset(s.to_set(), below);
        s.unique_seq_to_set();
        assert(false);
    }
}

/// `m` distinct numbers among `1..=m` multiply to `m!`.
proof fn lemma_product_of_permutation(s: Seq<int>, m: nat)
    requires
        s.len() == m,
        forall|i: int| 0 <= i < m ==> 1 <= #[trigger] s[i] <= m,
        s.no_duplicates(),
    ensures
        product(s) == factorial(m),
    decreases m,
{
    if m > 0 {
        lemma_largest_occurs(s, m);
        let i = choose|i: int| 0 <= i < m && #[trigger] s[i] == m;
        let t = s.remove(i);
        s.remove_ensures(i);
        assert forall|j: int| 0 <= j < m - 1 implies 1 <= #[trigger] t[j] <= m - 1 by {
            if j < i {
                assert(t[j] == s[j]);
            } else {
                assert(t[j] == s[j + 1]);
            }
        }
        assert forall|j: int, k: int|
            0 <= j < t.len() && 0 <= k < t.len() && j != k implies t[j] != t[k] by {
            let sj = if j < i { j } else { j + 1 };
            let sk = if k < i { k } else { k + 1 };
            assert(t[j] == s[sj] && t[k] == s[sk]);
        }
        lemma_product_of_permutation(t, (m - 1) as nat);
        lemma_product_remove(s, i);
    }
}

/// The product of the first `n` multiples of `a` is congruent to `a^n · n!`.
proof fn lemma_product_of_multiples(a: int, p: int, n: nat)
    requires
        p > 0,
    ensures
        product(multiples(a, p, n)) % p == (pow(a, n) * factorial(n)) % p,
    decreases n,
{
    let s = multiples(a, p, n);
    if n == 0 {
        lemma_pow0(a);
    } else {
        let k = (n - 1) as nat;
        assert(s.drop_last() =~= multiples(a, p, k));
        assert(s.last() == (a * n) % p);
        lemma_product_of_multiples(a, p, k);
        lemma_mod_bound(a * n, p);
        lemma_small_mod(((a * n) % p) as nat, p as nat);
        lemma_mul_congruent(product(s.drop_last()), s.last(), pow(a, k) * factorial(k), a * n, p);
        assert(pow(a, n) == a * pow(a, k)) by {
            reveal(pow);
        }
        let x = pow(a, k);
        let f = factorial(k);
        assert((x * f) * (a * n) == (a * x) * (n * f)) by (nonlinear_arith);
    }
}

/// No factorial below a prime is a multiple of it.
proof fn lemma_factorial_coprime(n: nat, p: int)
    requires
        is_prime(p),
        n < p,
    ensures
        factorial(n) % p != 0,
    decreases n,
{
    if n == 0 {
        lemma_small_mod(1, p as nat);
    } else {
        lemma_factorial_coprime((n - 1) as nat, p);
        lemma_small_mod(n, p as nat);
        if factorial(n) % p == 0 {
            lemma_prime_divides_product(n as int, factorial((n - 1) as nat), p);
        }
    }
}

/// Fermat's little theorem: modulo a prime `p`, the power `p - 1` of a number that is
/// not a multiple of `p` is 1.
pub proof fn lemma_fermat_little(a: int, p: int)
    requires
        is_prime(p),
        a % p != 0,
    ensures
        pow(a, (p - 1) as nat) % p == 1,
{
    let m = (p - 1) as nat;
    let s = multiples(a, p, m);
    assert forall|i: int| 0 <= i < m implies 1 <= #[trigger] s[i] <= m by {
        lemma_mod_bound(a * (i + 1), p);
        if s[i] == 0 {
            lemma_prime_divides_product(a, i + 1, p);
            lemma_small_mod((i + 1) as nat, p as nat);
        }
    }
    assert forall|i: int, j: int|
        0 <= i < s.len() && 0 <= j < s.len() && i != j implies s[i] != s[j] by {
        if s[i] == s[j] {
            lemma_mod_cancel(a, i + 1, j + 1, p);
            lemma_small_mod((i + 1) as nat, p as nat);
            lemma_small_mod((j + 1) as nat, p as nat);
        }
    }
    lemma_product_of_permutation(s, m);
    lemma_product_of_multiples(a, p, m);
    lemma_factorial_coprime(m, p);
    let f = factorial(m);
    assert(f * 1 == f);
    assert(f * pow(a, m) == pow(a, m) * f) by (nonlinear_arith);
    lemma_mod_cancel(f, 1, pow(a, m), p);
    lemma_small_mod(1, p as nat);
}

/// Modulo a prime `p`, the power `p - 2` of a number that is not a multiple of `p` is
/// an inverse of it.
pub proof fn lemma_power_inverse(a: int, p: int)
    requires
        is_prime(p),
        a % p != 0,
    ensures
        (a * pow(a, (p - 2) as nat)) % p == 1,
        (a * (pow(a, (p - 2) as nat) % p)) % p == 1,
{
    lemma_fermat_little(a, p);
    assert(pow(a, (p - 1) as nat) == a * pow(a, (p - 2) as nat)) by {
        reveal(pow);
    }
    lemma_mul_mod_noop_general(a, pow(a, (p - 2) as nat), p);
}

} // verus!
