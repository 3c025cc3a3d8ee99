//! Content-fingerprinting engine for near-duplicate detection.
//!
//! Documents are reduced to k-gram hash sequences (either hashed from
//! scratch per window or maintained incrementally with a Rabin-Karp
//! rolling hash), winnowed down to a sparse, position-tagged fingerprint,
//! and compared pairwise with an asymmetric containment score. An
//! analysis layer ranks all pairwise comparisons of a batch into
//! per-submission summaries.

pub mod analysis;
pub mod doc;
pub mod edit;
pub mod fingerprint;
pub mod hash;
pub mod hash_set;
pub mod kgram;
pub mod modular;
pub mod rank;
pub mod score;
pub mod summary;
pub mod winnow;
