use vstd::prelude::*;

verus! {

use crate::hash_set::{count_common, unique_values};
use crate::kgram::Kgram;
use crate::score::{score_lt, Score};
use crate::winnow::{text_kgram_hashes, winnow_spec, winnowing};
use vstd::set_lib::lemma_len_intersect;
use vstd::string::StringSliceAdditionalSpecFns;

/// A per-language source normalizer: strips comments, canonicalizes
/// identifiers and literals, and removes insignificant whitespace, so
/// that fingerprints become invariant under renaming and reformatting.
/// Implementations live outside the engine; the engine only requires a
/// deterministic function of the input text.
pub trait Preprocessor {
    fn preprocess(&self, src: &str) -> String;
}

/// Fingerprinting configuration: the k-gram size `k` and the winnowing
/// window size.
pub struct FingerPrintConfig {
    pub k: usize,
    pub window_size: usize,
}

impl FingerPrintConfig {
    pub fn new(k: usize, window_size: usize) -> (r: Self)
        ensures
            r.k == k,
            r.window_size == window_size,
    {
        Self { k, window_size }
    }
}

impl Default for FingerPrintConfig {
    /// The defaults: k-gram size 35, winnowing window 40.
    fn default() -> (r: Self)
        ensures
            r.k == 35,
            r.window_size == 40,
    {
        Self { k: 35, window_size: 40 }
    }
}

/// The containment score of `base`'s hash set in `against`'s: the size of
/// the intersection over the size of `base`. An empty base scores zero by
/// convention — never a division by zero. This measure is deliberately
/// asymmetric: it reads "how much of `base` is found in `against`".
pub open spec fn spec_similarity(base: Set<u64>, against: Set<u64>) -> Score {
    if base.len() == 0 {
        Score { num: 0, den: 1 }
    } else {
        Score { num: base.intersect(against).len() as usize, den: base.len() as usize }
    }
}

/// Self-similarity: a non-empty hash set scores exactly 1 against itself.
pub proof fn lemma_self_similarity(base: Set<u64>)
    requires
        base.finite(),
        1 <= base.len() <= usize::MAX,
    ensures
        spec_similarity(base, base).spec_is_one(),
{
    assert(base.intersect(base) =~= base);
}

/// Empty-base convention: an empty hash set scores exactly 0 against
/// anything.
pub proof fn lemma_empty_base_similarity(against: Set<u64>)
    ensures
        spec_similarity(Set::<u64>::empty(), against) == (Score { num: 0usize, den: 1usize }),
        spec_similarity(Set::<u64>::empty(), against).spec_is_zero(),
{
}

/// Asymmetry: there are hash sets whose containment scores differ by
/// direction. A set strictly contained in another scores 1 against it,
/// while the larger set scores strictly less the other way around.
pub proof fn lemma_similarity_asymmetric()
    ensures
        exists|a: Set<u64>, b: Set<u64>|
            a.finite() && b.finite() && #[trigger] score_lt(
                spec_similarity(b, a),
                spec_similarity(a, b),
            ),
{
    let a = set![1u64];
    let b = set![1u64, 2u64];
    assert(a.len() == 1) by {
        assert(a =~= Set::<u64>::empty().insert(1u64));
    }
    assert(b.len() == 2) by {
        assert(b =~= Set::<u64>::empty().insert(1u64).insert(2u64));
        assert(!Set::<u64>::empty().insert(1u64).contains(2u64));
    }
    assert(a.intersect(b) =~= a);
    assert(b.intersect(a) =~= a);
    assert(spec_similarity(a, b) == (Score { num: 1usize, den: 1usize }));
    assert(spec_similarity(b, a) == (Score { num: 1usize, den: 2usize }));
    assert(score_lt(spec_similarity(b, a), spec_similarity(a, b)));
}

/// A document's fingerprint: the winnowed, position-tagged subset of its
/// k-gram hashes, immutable once produced. Its invariant: positions are
/// strictly increasing.
pub struct FingerPrint {
    raw_fingerprint: Vec<(u64, usize)>,
}

impl FingerPrint {
    /// The fingerprint's entries: `(hash, position)` pairs.
    pub closed spec fn raw(&self) -> Seq<(u64, usize)> {
        self.raw_fingerprint@
    }

    /// Positions are strictly increasing.
    pub open spec fn wf(&self) -> bool {
        forall|a: int, b: int|
            0 <= a < b < self.raw().len() ==> (#[trigger] self.raw()[a]).1 < (
            #[trigger] self.raw()[b]).1
    }

    /// The hash-only view: positions dropped, duplicate hashes collapsed.
    pub open spec fn spec_hashes(&self) -> Set<u64> {
        self.raw().map_values(|p: (u64, usize)| p.0).to_set()
    }

    /// Fingerprint a raw source text: normalize it with the given
    /// preprocessor, then hash and winnow the normalized text. What the
    /// normalizer returns is its own affair; the hashing and winnowing of
    /// that text is exactly `from_normalized`'s contract.
    pub fn new<P: Preprocessor>(src: &str, pp: P, config: FingerPrintConfig) -> (r: Self)
        requires
            1 <= config.k,
        ensures
            r.wf(),
    {
        let normalized = pp.preprocess(src);
        Self::from_normalized(normalized.as_str(), config)
    }

    /// Fingerprint an already-normalized text: hash every k-gram window,
    /// then winnow the hash sequence.
    pub fn from_normalized(text: &str, config: FingerPrintConfig) -> (r: Self)
        requires
            1 <= config.k,
        ensures
            r.wf(),
            r.raw() == winnow_spec(
                text_kgram_hashes(text.spec_bytes(), config.k as nat),
                config.window_size as nat,
            ),
    {
        let hashes = crate::winnow::k_gram(text, config.k);
        let raw = winnowing(hashes.as_slice(), config.window_size);
        Self { raw_fingerprint: raw }
    }

    /// The raw fingerprint entries with their positions.
    pub fn raw_fingerprint(&self) -> (r: &Vec<(u64, usize)>)
        ensures
            r@ == self.raw(),
    {
        &self.raw_fingerprint
    }

    /// The raw fingerprint entries with their positions.
    pub fn fingerprints(&self) -> (r: &Vec<(u64, usize)>)
        ensures
            r@ == self.raw(),
    {
        &self.raw_fingerprint
    }

    /// The fingerprint's hash set as a duplicate-free vector.
    pub fn fingerprint(&self) -> (r: Vec<u64>)
        ensures
            r@.no_duplicates(),
            r@.to_set() == self.spec_hashes(),
    {
        let mut plain: Vec<u64> = Vec::new();
        let n = self.raw_fingerprint.len();
        for i in 0..n
            invariant
                n == self.raw().len(),
                plain@ == self.raw().subrange(0, i as int).map_values(|p: (u64, usize)| p.0),
        {
            plain.push(self.raw_fingerprint[i].0);
            proof {
                assert(plain@ =~= self.raw().subrange(0, i + 1).map_values(
                    |p: (u64, usize)| p.0,
                ));
            }
        }
        proof {
            assert(self.raw().subrange(0, n as int) =~= self.raw());
        }
        unique_values(&plain)
    }

    /// The fingerprint's hash set as a duplicate-free vector.
    pub fn hashes(&self) -> (r: Vec<u64>)
        ensures
            r@.no_duplicates(),
            r@.to_set() == self.spec_hashes(),
    {
        self.fingerprint()
    }

    /// The containment score of this fingerprint's hash set in `other`'s.
    pub fn similarity(&self, other: &Self) -> (r: Score)
        ensures
            r == spec_similarity(self.spec_hashes(), other.spec_hashes()),
            r.wf(),
    {
        let base = self.fingerprint();
        let against = other.fingerprint();
        containment_score(&base, &against)
    }
}

/// The containment score of the values of `base` — which holds each value
/// once — in the values of `against`.
pub fn containment_score(base: &Vec<u64>, against: &Vec<u64>) -> (r: Score)
    requires
        base@.no_duplicates(),
    ensures
        r == spec_similarity(base@.to_set(), against@.to_set()),
        r.wf(),
{
    let num = count_common(base, against);
    proof {
        base@.unique_seq_to_set();
        broadcast use vstd::seq_lib::seq_to_set_is_finite;

        lemma_len_intersect(base@.to_set(), against@.to_set());
    }
    Score::new(num, base.len())
}

/// Produces fingerprints from raw source text: normalization by the
/// injected preprocessor, k-gram hashing by the injected strategy, then
/// winnowing, all driven by one configuration.
pub struct FingerPrintGenerator<P: Preprocessor, K: Kgram> {
    pub config: FingerPrintConfig,
    pub preprocessor: P,
    pub kgram: K,
}

impl<P: Preprocessor, K: Kgram> FingerPrintGenerator<P, K> {
    /// Fingerprint a raw source text. What the normalizer returns is its
    /// own affair; the hashing and winnowing of the normalized text is
    /// exactly `generate_normalized`'s contract.
    pub fn generate(&self, src: &str) -> (r: FingerPrint)
        requires
            self.kgram.wf(),
            1 <= self.config.k,
        ensures
            r.wf(),
    {
        let normalized = self.preprocessor.preprocess(src);
        self.generate_normalized(normalized.as_str())
    }

    /// Fingerprint an already-normalized text with this generator's
    /// k-gram strategy and configuration.
    pub fn generate_normalized(&self, text: &str) -> (r: FingerPrint)
        requires
            self.kgram.wf(),
            1 <= self.config.k,
        ensures
            r.wf(),
            r.raw() == winnow_spec(
                self.kgram.spec_k_gram(text.spec_bytes(), self.config.k as nat),
                self.config.window_size as nat,
            ),
    {
        let k_grams = self.kgram.k_gram(text.as_bytes(), self.config.k);
        let raw = winnowing(k_grams.as_slice(), self.config.window_size);
        FingerPrint { raw_fingerprint: raw }
    }
}

} // verus!
