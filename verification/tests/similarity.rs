use fuscum::analysis::{SimilarityAnalyzer, Submission};
use fuscum::doc::{Doc, MultiDoc};
use fuscum::fingerprint::{FingerPrint, FingerPrintConfig, Preprocessor};
use fuscum::score::Score;

struct WhitespaceStripper;

impl Preprocessor for WhitespaceStripper {
    fn preprocess(&self, src: &str) -> String {
        src.chars().filter(|c| !c.is_whitespace()).collect()
    }
}

fn fp(text: &str) -> FingerPrint {
    FingerPrint::from_normalized(text, FingerPrintConfig::new(3, 3))
}

fn as_f32(s: Score) -> f32 {
    s.num as f32 / s.den as f32
}

// Self-similarity: any non-empty fingerprint scores 1.0 against itself.
#[test]
fn self_similarity_is_one() {
    let f = fp("the quick brown fox jumps over the lazy dog");
    assert!(!f.fingerprint().is_empty());
    let s = f.similarity(&f);
    assert_eq!(s.num, s.den);
    assert_eq!(as_f32(s), 1.0);
}

// Empty-base convention: an empty fingerprint scores 0.0, never NaN.
#[test]
fn empty_base_scores_zero() {
    let empty = fp("");
    let other = fp("some perfectly ordinary content here");
    let s = empty.similarity(&other);
    assert_eq!((s.num, s.den), (0, 1));
    assert_eq!(as_f32(s), 0.0);
    assert!(!as_f32(s).is_nan());
    // and against itself, still zero
    let s2 = empty.similarity(&empty);
    assert_eq!(as_f32(s2), 0.0);
}

// Asymmetry: a submission strictly contained in another scores 1.0 one
// way and strictly less the other way.
#[test]
fn similarity_is_asymmetric() {
    let shared = Doc::new("shared".to_string(), fp("abcabcabcabcabcabc"));
    let extra = Doc::new("extra".to_string(), fp("zyxwvutsrqponmlkjihg"));
    let shared2 = Doc::new("shared".to_string(), fp("abcabcabcabcabcabc"));

    let mut a = MultiDoc::new("a");
    a.add_doc(shared);
    let mut b = MultiDoc::new("b");
    b.add_doc(shared2);
    b.add_doc(extra);

    let ab = a.similarity(&b).score();
    let ba = b.similarity(&a).score();
    assert_eq!(as_f32(ab), 1.0);
    assert!(as_f32(ba) < 1.0);
    // exact rational comparison: ab != ba
    assert!(ab.num as u128 * ba.den as u128 != ba.num as u128 * ab.den as u128);
}

// A multi-document's hash set is the union of its members', duplicates
// across files collapsed.
#[test]
fn multi_doc_union_collapses_duplicates() {
    let d1 = Doc::new("one".to_string(), fp("abcabcabcabcabcabc"));
    let d2 = Doc::new("two".to_string(), fp("abcabcabcabcabcabc"));
    let mut m = MultiDoc::new("m");
    let solo_hashes = d1.hashes();
    m.add_doc(d1);
    m.add_doc(d2);
    let mut union = m.hashes();
    let mut solo = solo_hashes;
    union.sort();
    solo.sort();
    assert_eq!(union, solo);
}

// End to end: a copy that differs only in whitespace is flagged against
// its original; an unrelated file is not.
#[test]
fn end_to_end_detects_whitespace_copy() {
    let cfg = || FingerPrintConfig::new(3, 3);
    let original = "fn main() { let total = compute(1, 2, 3); print(total); }";
    let copy = "fn main() {\n    let total = compute(1, 2, 3);\n    print(total);\n}";
    let unrelated = "qqqq wwww eeee rrrr tttt yyyy uuuu iiii oooo pppp 0000";

    let x = Submission {
        name: "x".to_string(),
        fingerprint: FingerPrint::new(original, WhitespaceStripper, cfg()),
    };
    let y = Submission {
        name: "y".to_string(),
        fingerprint: FingerPrint::new(copy, WhitespaceStripper, cfg()),
    };
    let z = Submission {
        name: "z".to_string(),
        fingerprint: FingerPrint::new(unrelated, WhitespaceStripper, cfg()),
    };

    // normalization makes x and y byte-identical
    assert_eq!(as_f32(x.fingerprint.similarity(&y.fingerprint)), 1.0);
    assert!(as_f32(x.fingerprint.similarity(&z.fingerprint)) < 0.4);
    assert!(as_f32(y.fingerprint.similarity(&z.fingerprint)) < 0.4);

    let analyzer = SimilarityAnalyzer::new(Score { num: 2, den: 5 }, 3);
    let summaries = analyzer.analyze_fingerprints(&[x, y, z]);

    // only the copied pair survives the threshold
    let names: Vec<&str> = summaries.iter().map(|s| s.base.as_str()).collect();
    assert!(names.contains(&"x"));
    assert!(names.contains(&"y"));
    assert!(!names.contains(&"z"));

    let x_summary = summaries.iter().find(|s| s.base == "x").unwrap();
    assert_eq!(x_summary.against[0].against, "y");
    assert_eq!(as_f32(x_summary.against[0].score), 1.0);
    assert_eq!(as_f32(x_summary.max_score), 1.0);
}

// Top-k truncation: ten mutually similar submissions each keep exactly
// top_k matches, sorted by descending score.
#[test]
fn top_k_truncation() {
    let mut subs: Vec<Submission> = Vec::new();
    for i in 0..10 {
        subs.push(Submission {
            name: format!("s{i}"),
            fingerprint: fp("all ten submissions share this very content"),
        });
    }
    let analyzer = SimilarityAnalyzer::new(Score { num: 2, den: 5 }, 3);
    let summaries = analyzer.analyze_fingerprints(&subs);
    assert_eq!(summaries.len(), 10);
    for s in &summaries {
        assert_eq!(s.against.len(), 3);
        assert_eq!(as_f32(s.max_score), 1.0);
        for w in s.against.windows(2) {
            // descending: never a strict increase
            assert!(
                w[0].score.num as u128 * w[1].score.den as u128
                    >= w[1].score.num as u128 * w[0].score.den as u128
            );
        }
    }
}

// Below-threshold submissions are dropped; unrelated content scores low
// both ways.
#[test]
fn threshold_filters_unrelated() {
    let a = Submission { name: "a".to_string(), fingerprint: fp("aaaaabbbbbcccccdddddeeeee") };
    let b = Submission { name: "b".to_string(), fingerprint: fp("5555544444333332222211111") };
    let analyzer = SimilarityAnalyzer::new(Score { num: 2, den: 5 }, 3);
    let summaries = analyzer.analyze_fingerprints(&[a, b]);
    assert!(summaries.is_empty());
}
