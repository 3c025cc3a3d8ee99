use std::collections::hash_map::DefaultHasher;
use std::hash::Hasher;

use fuscum::hash::rabin_karp::RabinKarp;
use fuscum::hash::rolling_hasher::{RollingHashIter, RollingHasher};
use fuscum::kgram::{Kgram, RollingHashKgram, StdHashKgram};
use fuscum::winnow::{k_gram, rightmost_minimal, winnowing};

#[test]
fn rabin_karp_it_works() {
    // M = 2^64 - 1, base = 257, k = 5
    let hasher = RabinKarp::new(5, 257, u64::MAX);
    let data = b"hello world";
    let mut iter = RollingHashIter::new(data, hasher);

    let expect = vec![
        455418516756u64,
        442449928396,
        472987399134,
        473033127393,
        484785289959,
        141626390244,
        521025714984,
    ];
    let mut got: Vec<u64> = Vec::new();
    while let Some((_, v)) = iter.next() {
        got.push(v);
    }
    assert_eq!(expect, got);
}

#[test]
fn winnow_it_works() {
    let hashes = [77u64, 74, 42, 17, 98, 50, 17, 98, 8, 88, 67, 39, 77, 74, 42, 17, 98];
    let window_size = 4;
    assert_eq!(
        winnowing(&hashes, window_size),
        vec![(17, 3), (17, 6), (8, 8), (39, 11), (17, 15)]
    );
}

#[test]
fn k_gram_works() {
    let text = "adorunrunrunadorunrun";
    let k = 5;
    assert_eq!(
        k_gram(text, k),
        vec![
            7536710649711940037,
            12375835004367686960,
            13240722851591535538,
            4020085029674966483,
            4972485008023615292,
            1468765096528618582,
            4020085029674966483,
            4972485008023615292,
            2165872647979677269,
            2880295526655702587,
            9732345111308041966,
            13607179090089924327,
            7536710649711940037,
            12375835004367686960,
            13240722851591535538,
            4020085029674966483,
            4972485008023615292
        ]
    );
}

// The rolling strategy must agree with hashing each window from scratch.
#[test]
fn rolling_matches_from_scratch() {
    let data = b"adorunrunrunadorunrun";
    let k = 5;
    let stream = RollingHashKgram::default().k_gram(data, k);
    assert_eq!(stream.len(), data.len() - k + 1);
    for (i, h) in stream.iter().enumerate() {
        let mut fresh = RabinKarp::new(k, 257, u64::MAX);
        assert_eq!(*h, fresh.hash_window(&data[i..i + k]));
    }
}

// Reference and rolling strategies must produce the same window count.
#[test]
fn window_count_equivalence() {
    let data = b"adorunrunrunadorunrun";
    for k in 1..(data.len() + 3) {
        let std_len = StdHashKgram.k_gram(data, k).len();
        let roll_len = RollingHashKgram::default().k_gram(data, k).len();
        assert_eq!(std_len, roll_len);
        if k <= data.len() {
            assert_eq!(std_len, data.len() - k + 1);
        } else {
            assert_eq!(std_len, 0);
        }
    }
}

// The reference strategy really is the standard hasher applied per window.
#[test]
fn std_k_gram_uses_default_hasher() {
    let data = b"adorunrun";
    let k = 3;
    let got = StdHashKgram.k_gram(data, k);
    let mut expect: Vec<u64> = Vec::new();
    for i in 0..(data.len() - k + 1) {
        let mut h = DefaultHasher::new();
        h.write(&data[i..i + k]);
        expect.push(h.finish());
    }
    assert_eq!(expect, got);
}

#[test]
fn rightmost_minimal_prefers_rightmost_tie() {
    assert_eq!(rightmost_minimal(&[17u64, 98, 50, 17]), (17, 3));
    assert_eq!(rightmost_minimal(&[5u64]), (5, 0));
    assert_eq!(rightmost_minimal(&[]), (u64::MAX, 0));
}

// Every evaluated window keeps a representative.
#[test]
fn winnowing_coverage_concrete() {
    let hashes = [77u64, 74, 42, 17, 98, 50, 17, 98, 8, 88, 67, 39, 77, 74, 42, 17, 98];
    let w = 4;
    let fp = winnowing(&hashes, w);
    for start in 0..(hashes.len() - w) {
        assert!(
            fp.iter().any(|&(_, p)| start <= p && p < start + w),
            "window at {start} has no representative"
        );
    }
}

// A first-window minimum at position 0 is emitted like any other: there
// is no previous selection for it to coincide with.
#[test]
fn winnowing_emits_first_selection_at_zero() {
    let hashes = [0u64, 9, 8, 7];
    assert_eq!(winnowing(&hashes, 2), vec![(0, 0), (8, 2)]);
}

// Emitted positions are strictly increasing.
#[test]
fn winnowing_positions_strictly_increase() {
    let hashes = [9u64, 9, 9, 1, 2, 3, 1, 2, 3, 9, 9, 9, 4, 4, 4];
    let fp = winnowing(&hashes, 3);
    for pair in fp.windows(2) {
        assert!(pair[0].1 < pair[1].1);
    }
}

#[test]
fn short_input_yields_empty_results() {
    assert_eq!(winnowing(&[1u64, 2, 3], 3), vec![]);
    assert_eq!(k_gram("abc", 5), Vec::<u64>::new());
    assert_eq!(StdHashKgram.k_gram(b"ab", 5), Vec::<u64>::new());
    // a text of exactly k bytes has exactly one window
    assert_eq!(k_gram("abcde", 5).len(), 1);
}

