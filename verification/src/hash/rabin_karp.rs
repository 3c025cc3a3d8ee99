use vstd::prelude::*;

verus! {

use crate::hash::rolling_hasher::RollingHasher;
use crate::modular::{
    add_mod, lemma_add_mod_noop_left, lemma_poly_hash_bounds, lemma_poly_hash_roll, mul_mod,
    poly_hash, pow_mod, sub_mod,
};
use vstd::arithmetic::power::pow;

/// A Rabin-Karp rolling hasher: the window is read as a base-`base`
/// positional number and reduced modulo `modulus`. `high_power` caches
/// `base^(k-1) % modulus`, the weight of the window's first byte, and
/// `hash` is the hash of the ghost `window` the hasher stands on.
pub struct RabinKarp {
    k: usize,
    base: u64,
    modulus: u64,
    high_power: u64,
    hash: u64,
    window: Ghost<Seq<u8>>,
}

impl RabinKarp {
    /// Creates a new Rabin-Karp hasher with the given window size `k`,
    /// base, and modulus. A zero window size or modulus is a configuration
    /// error and is rejected by contract.
    pub fn new(k: usize, base: u64, modulus: u64) -> (r: Self)
        requires
            1 <= k,
            1 <= modulus,
        ensures
            r.wf(),
            r.spec_window_size() == k,
            r.window() == Seq::<u8>::empty(),
            forall|w: Seq<u8>| #[trigger] r.spec_hash(w) == poly_hash(
                w,
                base as int,
                modulus as int,
            ) as u64,
    {
        let high_power = pow_mod(base, (k - 1) as u64, modulus);
        Self { k, base, modulus, high_power, hash: 0, window: Ghost(Seq::empty()) }
    }
}

impl RollingHasher for RabinKarp {
    closed spec fn wf(&self) -> bool {
        &&& self.k >= 1
        &&& self.modulus >= 1
        &&& self.high_power == pow(self.base as int, (self.k - 1) as nat) % (self.modulus as int)
        &&& (self.window@.len() == self.k ==> self.hash == poly_hash(
            self.window@,
            self.base as int,
            self.modulus as int,
        ))
    }

    closed spec fn spec_window_size(&self) -> nat {
        self.k as nat
    }

    closed spec fn spec_hash(&self, window: Seq<u8>) -> u64 {
        poly_hash(window, self.base as int, self.modulus as int) as u64
    }

    closed spec fn window(&self) -> Seq<u8> {
        self.window@
    }

    fn window_size(&self) -> (r: usize) {
        self.k
    }

    fn hash_window(&mut self, window: &[u8]) -> (r: u64) {
        let ghost b = self.base as int;
        let ghost m = self.modulus as int;
        let n = window.len();
        let mut h: u64 = 0;
        for j in 0..n
            invariant
                n == window@.len() == self.k,
                self == old(self),
                self.wf(),
                h == poly_hash(window@.subrange(0, j as int), b, m),
                b == self.base as int,
                m == self.modulus as int,
        {
            proof {
                let sj = window@.subrange(0, j as int);
                let sj1 = window@.subrange(0, j + 1);
                assert(sj1.drop_last() =~= sj);
                assert(sj1.last() == window@[j as int]);
                lemma_add_mod_noop_left((h as int) * b, window@[j as int] as int, m);
                lemma_poly_hash_bounds(sj1, b, m);
            }
            h = add_mod(mul_mod(h, self.base, self.modulus), window[j] as u64, self.modulus);
        }
        proof {
            assert(window@.subrange(0, n as int) =~= window@);
        }
        self.hash = h;
        self.window = Ghost(window@);
        h
    }

    fn roll(&mut self, leaving: u8, entering: u8) -> (r: u64) {
        proof {
            lemma_poly_hash_roll(
                self.window@,
                entering,
                self.base as int,
                self.modulus as int,
            );
            lemma_poly_hash_bounds(
                self.window@.drop_first().push(entering),
                self.base as int,
                self.modulus as int,
            );
        }
        // remove the leaving byte's weighted contribution
        let remove = mul_mod(leaving as u64, self.high_power, self.modulus);
        let h1 = sub_mod(self.hash, remove, self.modulus);
        // shift left by one position and add the entering byte
        let h2 = mul_mod(h1, self.base, self.modulus);
        let r = add_mod(h2, entering as u64, self.modulus);
        self.hash = r;
        self.window = Ghost(self.window@.drop_first().push(entering));
        r
    }

    fn reset(&mut self) {
        self.hash = 0;
        self.window = Ghost(Seq::empty());
    }
}

} // verus!
