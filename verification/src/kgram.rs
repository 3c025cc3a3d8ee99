use std::collections::hash_map::DefaultHasher;
use std::hash::Hasher;
use vstd::prelude::*;

verus! {

use crate::hash::rabin_karp::RabinKarp;
use crate::hash::rolling_hasher::{window_count, RollingHashIter};
use crate::modular::poly_hash;
use vstd::std_specs::hash::DefaultHasherAdditionalSpecFns;

/// The value the standard library's `DefaultHasher` assigns to a byte
/// window written as a single `write` call. `DefaultHasher::new` is
/// documented to behave identically for every instance, so this is a pure
/// function of the window's bytes.
pub open spec fn std_window_hash(w: Seq<u8>) -> u64 {
    DefaultHasher::spec_finish(seq![w])
}

/// Hash a byte window with a fresh `DefaultHasher`.
fn hash_window_std(window: &[u8]) -> (r: u64)
    ensures
        r == std_window_hash(window@),
{
    let mut hasher = DefaultHasher::new();
    hasher.write(window);
    proof {
        assert(hasher@ =~= seq![window@]);
    }
    hasher.finish()
}

/// A strategy that turns a byte sequence into one 64-bit hash per
/// contiguous window of `k` bytes, in left-to-right order.
///
/// Every implementation produces exactly `spec_k_gram`, which always has
/// one entry per complete window — `len - k + 1` of them when `k <= len`,
/// and none when `k` exceeds the data (an empty result, not an error).
pub trait Kgram: Sized {
    spec fn wf(&self) -> bool;

    /// The exact hash sequence this strategy assigns to `data`.
    spec fn spec_k_gram(&self, data: Seq<u8>, k: nat) -> Seq<u64>;

    fn k_gram(&self, data: &[u8], k: usize) -> (r: Vec<u64>)
        requires
            self.wf(),
            1 <= k,
        ensures
            r@ == self.spec_k_gram(data@, k as nat),
            r@.len() == window_count(data@.len(), k as nat),
    ;
}

/// The reference strategy: every window is hashed independently with the
/// standard library's general-purpose hasher, in O(n*k) time.
pub struct StdHashKgram;

impl Kgram for StdHashKgram {
    open spec fn wf(&self) -> bool {
        true
    }

    open spec fn spec_k_gram(&self, data: Seq<u8>, k: nat) -> Seq<u64> {
        Seq::new(window_count(data.len(), k), |i: int| std_window_hash(data.subrange(i, i + k)))
    }

    fn k_gram(&self, data: &[u8], k: usize) -> (r: Vec<u64>) {
        let mut hashes: Vec<u64> = Vec::new();
        if k > data.len() {
            proof {
                assert(hashes@ =~= self.spec_k_gram(data@, k as nat));
            }
            return hashes;
        }
        let n = data.len() - k + 1;
        for i in 0..n
            invariant
                k >= 1,
                k <= data@.len() <= usize::MAX,
                n == window_count(data@.len(), k as nat),
                hashes@.len() == i,
                forall|j: int|
                    0 <= j < i ==> hashes@[j] == std_window_hash(
                        #[trigger] data@.subrange(j, j + k),
                    ),
        {
            let h = hash_window_std(&data[i..i + k]);
            hashes.push(h);
        }
        proof {
            assert(hashes@ =~= self.spec_k_gram(data@, k as nat));
        }
        hashes
    }
}

/// The O(n) strategy: the first window is hashed from scratch and every
/// later window by a constant-time Rabin-Karp roll.
pub struct RollingHashKgram {
    pub base: u64,
    pub modulus: u64,
}

impl RollingHashKgram {
    /// The configuration every instance starts from unless overridden:
    /// base 257 and modulus `2^64 - 1`.
    pub fn default() -> (r: Self)
        ensures
            r.base == 257,
            r.modulus == u64::MAX,
            r.wf(),
    {
        Self { base: 257, modulus: u64::MAX }
    }
}

impl Kgram for RollingHashKgram {
    open spec fn wf(&self) -> bool {
        self.modulus >= 1
    }

    open spec fn spec_k_gram(&self, data: Seq<u8>, k: nat) -> Seq<u64> {
        Seq::new(
            window_count(data.len(), k),
            |i: int| poly_hash(data.subrange(i, i + k), self.base as int, self.modulus as int)
                as u64,
        )
    }

    fn k_gram(&self, data: &[u8], k: usize) -> (r: Vec<u64>) {
        let hasher = RabinKarp::new(k, self.base, self.modulus);
        let mut iter = RollingHashIter::new(data, hasher);
        let total = if k > data.len() {
            0
        } else {
            data.len() - k + 1
        };
        let mut hashes: Vec<u64> = Vec::new();
        for i in 0..total
            invariant
                total == window_count(data@.len(), k as nat),
                iter.wf(),
                iter.emitted() == i,
                iter.data_view() == data@,
                iter.window_len() == k as nat,
                k >= 1,
                forall|w: Seq<u8>| #[trigger] iter.spec_hash(w) == poly_hash(
                    w,
                    self.base as int,
                    self.modulus as int,
                ) as u64,
                hashes@.len() == i,
                forall|j: int|
                    0 <= j < i ==> hashes@[j] == poly_hash(
                        #[trigger] data@.subrange(j, j + k),
                        self.base as int,
                        self.modulus as int,
                    ) as u64,
        {
            let step = iter.next();
            let (_, h) = step.unwrap();
            hashes.push(h);
        }
        proof {
            assert(hashes@ =~= self.spec_k_gram(data@, k as nat));
        }
        hashes
    }
}

/// Window-count equivalence: for the same data and k-gram size, the
/// reference strategy, the rolling strategy and the text hasher produce
/// hash sequences of the same length — `len - k + 1` complete windows, or
/// none when `k` exceeds the data.
pub proof fn lemma_window_count_equivalence(
    reference: StdHashKgram,
    rolling: RollingHashKgram,
    data: Seq<u8>,
    k: nat,
)
    ensures
        reference.spec_k_gram(data, k).len() == rolling.spec_k_gram(data, k).len(),
        reference.spec_k_gram(data, k).len() == crate::winnow::text_kgram_hashes(data, k).len(),
        reference.spec_k_gram(data, k).len() == window_count(data.len(), k),
{
}

} // verus!
