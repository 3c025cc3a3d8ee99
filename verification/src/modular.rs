use vstd::prelude::*;

verus! {

use vstd::arithmetic::div_mod::{
    lemma_add_mod_noop_right, lemma_mod_bound, lemma_mul_mod_noop_left, lemma_mul_mod_noop_right,
    lemma_sub_mod_noop,
};
use vstd::arithmetic::mul::{lemma_mul_is_associative, lemma_mul_is_distributive_add_other_way};
use vstd::arithmetic::power::pow;
use vstd::calc;

/// Relies on num_modular's `ModularCoreOps::addm` for `u64`: the sum is
/// widened to `u128` and reduced, so the result is exactly `(a + b) % m`.
#[verifier::external_body]
pub(crate) fn add_mod(a: u64, b: u64, m: u64) -> (r: u64)
    requires
        m >= 1,
    ensures
        r == (a + b) % (m as int),
{
    num_modular::ModularCoreOps::addm(a, b, &m)
}

/// Relies on num_modular's `ModularCoreOps::subm` for `u64`: the result is
/// `(a - b) % m` with the remainder taken non-negative (`a - b` is reduced
/// directly when `a >= b`, and otherwise `m - (b - a) % m` is returned).
#[verifier::external_body]
pub(crate) fn sub_mod(a: u64, b: u64, m: u64) -> (r: u64)
    requires
        m >= 1,
    ensures
        r == (a - b) % (m as int),
{
    num_modular::ModularCoreOps::subm(a, b, &m)
}

/// Relies on num_modular's `ModularCoreOps::mulm` for `u64`: the product is
/// widened to `u128` and reduced, so the result is exactly `(a * b) % m`.
#[verifier::external_body]
pub(crate) fn mul_mod(a: u64, b: u64, m: u64) -> (r: u64)
    requires
        m >= 1,
    ensures
        r == (a * b) % (m as int),
{
    num_modular::ModularCoreOps::mulm(a, b, &m)
}

/// Relies on num_modular's `ModularPow::powm` for `u64`: binary
/// exponentiation over the reduced base, so the result is exactly
/// `b^e % m`.
#[verifier::external_body]
pub(crate) fn pow_mod(b: u64, e: u64, m: u64) -> (r: u64)
    requires
        m >= 1,
    ensures
        r == pow(b as int, e as nat) % (m as int),
{
    num_modular::ModularPow::powm(b, e, &m)
}

/// The base-`b` positional value of a byte window, reduced modulo `m` after
/// every Horner step. This is the mathematical meaning of a Rabin-Karp
/// window hash: `poly_hash(s, b, m) == (s[0]*b^(n-1) + ... + s[n-1]) % m`.
pub open spec fn poly_hash(s: Seq<u8>, b: int, m: int) -> int
    decreases s.len(),
{
    if s.len() == 0 {
        0
    } else {
        (poly_hash(s.drop_last(), b, m) * b + s.last()) % m
    }
}

/// The base-`b` positional value of a byte window, without reduction.
pub open spec fn poly_eval(s: Seq<u8>, b: int) -> int
    decreases s.len(),
{
    if s.len() == 0 {
        0
    } else {
        poly_eval(s.drop_last(), b) * b + s.last()
    }
}

/// A window hash is always a canonical residue: `0 <= poly_hash < m`.
pub proof fn lemma_poly_hash_bounds(s: Seq<u8>, b: int, m: int)
    requires
        m >= 1,
    ensures
        0 <= poly_hash(s, b, m) < m || (s.len() == 0 && poly_hash(s, b, m) == 0),
{
    if s.len() > 0 {
        lemma_mod_bound(poly_hash(s.drop_last(), b, m) * b + s.last(), m);
    }
}


/// Reducing the left operand of an addition before the final reduction
/// does not change the residue: `((x % m) + y) % m == (x + y) % m`.
pub(crate) proof fn lemma_add_mod_noop_left(x: int, y: int, m: int)
    requires
        m >= 1,
    ensures
        ((x % m) + y) % m == (x + y) % m,
{
    lemma_add_mod_noop_right(y, x, m);
}

/// Reducing at every Horner step gives the same residue as reducing the
/// full positional value once.
pub proof fn lemma_poly_hash_is_poly_eval_mod(s: Seq<u8>, b: int, m: int)
    requires
        m >= 1,
    ensures
        poly_hash(s, b, m) == poly_eval(s, b) % m,
    decreases s.len(),
{
    if s.len() == 0 {
        assert(0int % m == 0) by {
            lemma_mod_bound(0int, m);
        }
    } else {
        let t = s.drop_last();
        let x = s.last();
        lemma_poly_hash_is_poly_eval_mod(t, b, m);
        // poly_hash(s) == ((poly_eval(t) % m) * b + x) % m
        lemma_mul_mod_noop_left(poly_eval(t, b), b, m);
        // ((poly_eval(t) % m) * b) % m == (poly_eval(t) * b) % m
        calc! {
            (==)
            poly_hash(s, b, m); {}
            ((poly_eval(t, b) % m) * b + x) % m; {
                lemma_add_mod_noop_left((poly_eval(t, b) % m) * b, x as int, m);
            }
            ((poly_eval(t, b) % m) * b % m + x) % m; {}
            ((poly_eval(t, b) * b) % m + x) % m; {
                lemma_add_mod_noop_left(poly_eval(t, b) * b, x as int, m);
            }
            (poly_eval(t, b) * b + x) % m;
        }
    }
}

/// Splitting off the leading byte: the positional value of a non-empty
/// window is its first byte weighted by `b^(n-1)` plus the value of the
/// rest.
pub proof fn lemma_poly_eval_split_first(s: Seq<u8>, b: int)
    requires
        s.len() >= 1,
    ensures
        poly_eval(s, b) == s[0] * pow(b, (s.len() - 1) as nat) + poly_eval(s.drop_first(), b),
    decreases s.len(),
{
    if s.len() == 1 {
        assert(s.drop_last().len() == 0);
        assert(s.drop_first().len() == 0);
        assert(poly_eval(s.drop_last(), b) == 0);
        assert(poly_eval(s.drop_first(), b) == 0);
        assert(poly_eval(s, b) == 0 * b + s.last());
        assert(s.last() == s[0]);
        assert(pow(b, 0) == 1) by {
            vstd::arithmetic::power::lemma_pow0(b);
        }
    } else {
        let t = s.drop_last();
        let x = s.last();
        lemma_poly_eval_split_first(t, b);
        let n = (t.len() - 1) as nat;
        // poly_eval(s) == poly_eval(t) * b + x
        //             == (t[0] * pow(b, n) + poly_eval(t.drop_first())) * b + x
        lemma_mul_is_distributive_add_other_way(b, t[0] * pow(b, n), poly_eval(t.drop_first(), b));
        lemma_mul_is_associative(t[0] as int, pow(b, n), b);
        // pow(b, n + 1) == pow(b, n) * b
        assert(pow(b, (n + 1) as nat) == pow(b, n) * b) by {
            vstd::arithmetic::power::lemma_pow_adds(b, n, 1);
            vstd::arithmetic::power::lemma_pow1(b);
        }
        assert(s.drop_first().drop_last() =~= t.drop_first());
        assert(poly_eval(s.drop_first(), b) == poly_eval(t.drop_first(), b) * b + x);
        assert(s[0] == t[0]);
        assert(s.len() - 1 == n + 1);
    }
}

/// The algebra behind one rolling step: subtracting the leading byte's
/// weighted contribution, shifting by the base, and adding the entering
/// byte turns the residue of window `w` into the residue of the window
/// slid one position forward.
pub proof fn lemma_poly_hash_roll(w: Seq<u8>, e: u8, b: int, m: int)
    requires
        m >= 1,
        b >= 0,
        w.len() >= 1,
    ensures
        poly_hash(w.drop_first().push(e), b, m) == ((((poly_hash(w, b, m) - (w[0] * (pow(
            b,
            (w.len() - 1) as nat,
        ) % m)) % m) % m) * b) % m + e) % m,
{
    let wdf = w.drop_first();
    let wnew = wdf.push(e);
    let hp = pow(b, (w.len() - 1) as nat);
    let pe = poly_eval(wdf, b);
    let remove = (w[0] * (hp % m)) % m;
    let h1 = (poly_hash(w, b, m) - remove) % m;
    assert(h1 == pe % m) by {
        lemma_poly_hash_is_poly_eval_mod(w, b, m);
        // remove == (w[0] * (hp % m)) % m == (w[0] * hp) % m
        lemma_mul_mod_noop_right(w[0] as int, hp, m);
        // (poly_eval(w) % m - (w[0] * hp) % m) % m == (poly_eval(w) - w[0] * hp) % m
        lemma_sub_mod_noop(poly_eval(w, b), w[0] * hp, m);
        lemma_poly_eval_split_first(w, b);
        assert(poly_eval(w, b) - w[0] * hp == pe);
        vstd::arithmetic::div_mod::lemma_mod_twice(pe, m);
    }
    assert(poly_hash(wnew, b, m) == (poly_hash(wdf, b, m) * b + e) % m) by {
        assert(wnew.drop_last() =~= wdf);
        assert(wnew.last() == e);
    }
    assert(poly_hash(wnew, b, m) == ((h1 * b) % m + e) % m) by {
        lemma_poly_hash_is_poly_eval_mod(wdf, b, m);
        // ((pe % m) * b) % m == (pe * b) % m
        lemma_mul_mod_noop_left(pe, b, m);
        // reduce the product before and after adding the entering byte
        lemma_add_mod_noop_left((pe % m) * b, e as int, m);
        lemma_add_mod_noop_left(pe * b, e as int, m);
    }
}

} // verus!
