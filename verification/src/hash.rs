pub mod rabin_karp;
pub mod rolling_hasher;
