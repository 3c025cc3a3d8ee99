use std::collections::hash_map::DefaultHasher;
use std::hash::Hasher;
use vstd::prelude::*;

verus! {

use crate::hash::rolling_hasher::window_count;
use vstd::std_specs::hash::DefaultHasherAdditionalSpecFns;
use vstd::string::StringSliceAdditionalSpecFns;

/// The number of sliding evaluations winnowing makes over a sequence of
/// `len` hashes with width `k`: one per start position in `0 .. len - k`,
/// so `len - k` of them.
pub open spec fn eval_count(len: nat, k: nat) -> nat {
    if len > k {
        (len - k) as nat
    } else {
        0
    }
}

/// The value the standard library's `DefaultHasher` assigns to a text
/// window: the window's bytes in one `write` call, then the `0xff` marker
/// byte that string hashing appends. `DefaultHasher::new` is documented to
/// behave identically for every instance, so this is a pure function of
/// the window's bytes.
pub open spec fn str_window_hash(w: Seq<u8>) -> u64 {
    DefaultHasher::spec_finish(seq![w, seq![0xffu8]])
}

/// Hash one text window with a fresh `DefaultHasher`.
fn hash_text_window(window: &[u8]) -> (r: u64)
    ensures
        r == str_window_hash(window@),
{
    let mut hasher = DefaultHasher::new();
    hasher.write(window);
    let marker: [u8; 1] = [0xff];
    hasher.write(marker.as_slice());
    proof {
        assert(marker@ =~= seq![0xffu8]);
        assert(hasher@ =~= seq![window@, seq![0xffu8]]);
    }
    hasher.finish()
}

/// The hash sequence `k_gram` assigns to a text: one `str_window_hash`
/// per contiguous window of `k` bytes, `len - k + 1` windows in all.
pub open spec fn text_kgram_hashes(bytes: Seq<u8>, k: nat) -> Seq<u64> {
    Seq::new(window_count(bytes.len(), k), |i: int| str_window_hash(bytes.subrange(i, i + k)))
}

/// Hash every contiguous length-`k` text window of `text`, in
/// left-to-right order: `len - k + 1` hashes, or none when `k` exceeds
/// the text (an empty result, not an error). A zero `k` is a
/// configuration error and is rejected by contract.
pub fn k_gram(text: &str, k: usize) -> (r: Vec<u64>)
    requires
        1 <= k,
    ensures
        r@ == text_kgram_hashes(text.spec_bytes(), k as nat),
        r@.len() == window_count(text.spec_bytes().len(), k as nat),
{
    let bytes = text.as_bytes();
    let mut hashes: Vec<u64> = Vec::new();
    let n = bytes.len();
    if k > n {
        proof {
            assert(hashes@ =~= text_kgram_hashes(text.spec_bytes(), k as nat));
        }
        return hashes;
    }
    let evals = n - k + 1;
    for i in 0..evals
        invariant
            bytes@ == text.spec_bytes(),
            1 <= k <= n == bytes@.len() <= usize::MAX,
            evals == n - k + 1,
            hashes@.len() == i,
            forall|j: int|
                0 <= j < i ==> hashes@[j] == str_window_hash(
                    #[trigger] bytes@.subrange(j, j + k),
                ),
    {
        let h = hash_text_window(&bytes[i..i + k]);
        hashes.push(h);
    }
    proof {
        assert(hashes@ =~= text_kgram_hashes(text.spec_bytes(), k as nat));
    }
    hashes
}

/// The index of the rightmost minimal value of a non-empty sequence.
pub open spec fn rightmost_min_idx(w: Seq<u64>) -> int
    decreases w.len(),
{
    if w.len() <= 1 {
        0
    } else {
        let r = rightmost_min_idx(w.drop_last());
        if w.last() <= w[r] {
            w.len() - 1
        } else {
            r
        }
    }
}

/// What `rightmost_min_idx` picks is in range, minimal, and strictly
/// smaller than everything to its right.
pub proof fn lemma_rightmost_min_idx(w: Seq<u64>)
    requires
        w.len() >= 1,
    ensures
        0 <= rightmost_min_idx(w) < w.len(),
        forall|j: int| 0 <= j < w.len() ==> w[rightmost_min_idx(w)] <= #[trigger] w[j],
        forall|j: int| rightmost_min_idx(w) < j < w.len() ==> w[rightmost_min_idx(w)] < #[trigger] w[j],
    decreases w.len(),
{
    if w.len() > 1 {
        lemma_rightmost_min_idx(w.drop_last());
        let r = rightmost_min_idx(w.drop_last());
        assert(forall|j: int| 0 <= j < w.len() - 1 ==> w.drop_last()[j] == w[j]);
    }
}

/// Find the rightmost minimal hash value in the window, together with its
/// index; an empty window yields `(u64::MAX, 0)`.
pub fn rightmost_minimal(window: &[u64]) -> (r: (u64, usize))
    ensures
        window@.len() == 0 ==> r == (u64::MAX, 0usize),
        window@.len() >= 1 ==> r.1 == rightmost_min_idx(window@) && r.0 == window@[r.1 as int],
{
    let mut min: u64 = u64::MAX;
    let mut idx: usize = 0;
    let n = window.len();
    for i in 0..n
        invariant
            n == window@.len(),
            i == 0 ==> min == u64::MAX && idx == 0,
            i >= 1 ==> idx == rightmost_min_idx(window@.subrange(0, i as int)) && min
                == window@[idx as int] && idx < i,
    {
        proof {
            if i >= 1 {
                let cur = window@.subrange(0, i as int);
                let ext = window@.subrange(0, i + 1);
                assert(ext.drop_last() =~= cur);
                lemma_rightmost_min_idx(cur);
            } else {
                let ext = window@.subrange(0, 1);
                assert(ext.len() == 1);
            }
        }
        if window[i] <= min {
            min = window[i];
            idx = i;
        }
    }
    proof {
        if n >= 1 {
            assert(window@.subrange(0, n as int) =~= window@);
        }
    }
    (min, idx)
}

/// What the sliding evaluation at start `i` selects: the rightmost minimal
/// hash of the window `s[i .. i + w]` and its global position. A
/// degenerate width of zero selects `u64::MAX` at the window's start.
pub open spec fn win_pick(s: Seq<u64>, w: nat, i: int) -> (u64, int) {
    if w == 0 {
        (u64::MAX, i)
    } else {
        let j = i + rightmost_min_idx(s.subrange(i, i + w));
        (s[j], j)
    }
}

/// The fingerprint selected from the evaluations at starts `i .. evals`,
/// where `idx` is the global position of the previously emitted selection:
/// an evaluation emits its selection only when the selected position
/// differs from the previous one. Before anything has been emitted the
/// state is -1, no position at all, so the first evaluation always emits.
pub open spec fn winnow_rec(s: Seq<u64>, w: nat, i: int, idx: int) -> Seq<(u64, usize)>
    decreases eval_count(s.len(), w) - i,
{
    if i < 0 || i >= eval_count(s.len(), w) {
        Seq::empty()
    } else {
        let (mh, p) = win_pick(s, w, i);
        if p != idx {
            seq![(mh, p as usize)] + winnow_rec(s, w, i + 1, p)
        } else {
            winnow_rec(s, w, i + 1, idx)
        }
    }
}

/// The full winnowed fingerprint of a hash sequence.
pub open spec fn winnow_spec(s: Seq<u64>, w: nat) -> Seq<(u64, usize)> {
    winnow_rec(s, w, 0, -1)
}

/// A selection is made inside its window: at start `i` with a positive
/// width, the selected position lies in `i .. i + w` and carries the
/// selected hash.
pub proof fn lemma_win_pick_range(s: Seq<u64>, w: nat, i: int)
    requires
        1 <= w,
        0 <= i,
        i + w <= s.len(),
    ensures
        i <= win_pick(s, w, i).1 < i + w,
        win_pick(s, w, i).0 == s[win_pick(s, w, i).1],
{
    lemma_rightmost_min_idx(s.subrange(i, i + w));
}

/// Selections never move left: the rightmost-minimum of a window slid one
/// position forward sits at the same global position or beyond.
pub proof fn lemma_win_pick_monotone(s: Seq<u64>, w: nat, i: int)
    requires
        1 <= w,
        0 <= i,
        i + 1 + w <= s.len(),
    ensures
        win_pick(s, w, i).1 <= win_pick(s, w, i + 1).1,
{
    let a = s.subrange(i, i + w);
    let b = s.subrange(i + 1, i + 1 + w);
    let ra = rightmost_min_idx(a);
    let rb = rightmost_min_idx(b);
    lemma_rightmost_min_idx(a);
    lemma_rightmost_min_idx(b);
    let ga = i + ra;
    let gb = i + 1 + rb;
    if gb < ga {
        // the new selection would lie inside the old window, left of the
        // old selection, yet the old selection also lies inside the new
        // window: minimality both ways forces equal hashes, and the
        // rightmost tie-break then contradicts picking the left one
        assert(a[gb - i] == s[gb]);
        assert(a[ra] == s[ga]);
        assert(s[ga] <= s[gb]);
        assert(b[ga - (i + 1)] == s[ga]);
        assert(b[rb] == s[gb]);
        assert(s[gb] <= s[ga]);
        assert(rb < ga - (i + 1) < b.len());
        assert(s[gb] < s[ga]);
        assert(false);
    }
}

/// The emitted positions of `winnow_rec` are strictly increasing and all
/// lie strictly beyond the seed position `idx`.
proof fn lemma_winnow_rec_increasing(s: Seq<u64>, w: nat, i: int, idx: int)
    requires
        s.len() <= usize::MAX,
        0 <= i,
        i < eval_count(s.len(), w) ==> idx <= win_pick(s, w, i).1,
    ensures
        forall|a: int, b: int|
            0 <= a < b < winnow_rec(s, w, i, idx).len() ==> (#[trigger] winnow_rec(
                s,
                w,
                i,
                idx,
            )[a]).1 < (#[trigger] winnow_rec(s, w, i, idx)[b]).1,
        forall|a: int|
            0 <= a < winnow_rec(s, w, i, idx).len() ==> (#[trigger] winnow_rec(s, w, i, idx)[a]).1
                > idx,
    decreases eval_count(s.len(), w) - i,
{
    let evals = eval_count(s.len(), w);
    if 0 <= i < evals {
        let (mh, p) = win_pick(s, w, i);
        if w >= 1 {
            lemma_win_pick_range(s, w, i);
            if i + 1 < evals {
                lemma_win_pick_monotone(s, w, i);
            }
        }
        assert(0 <= p < s.len());
        assert(p as usize == p);
        if p != idx {
            lemma_winnow_rec_increasing(s, w, i + 1, p);
            let rest = winnow_rec(s, w, i + 1, p);
            let res = winnow_rec(s, w, i, idx);
            assert(res == seq![(mh, p as usize)] + rest);
            assert(res[0] == (mh, p as usize));
            assert(forall|a: int| 1 <= a < res.len() ==> res[a] == rest[a - 1]);
            assert forall|a: int, b: int| 0 <= a < b < res.len() implies (#[trigger] res[a]).1 < (
            #[trigger] res[b]).1 by {
                assert(res[b] == rest[b - 1]);
                assert(rest[b - 1].1 > p);
                if a >= 1 {
                    assert(res[a] == rest[a - 1]);
                }
            }
            assert forall|a: int| 0 <= a < res.len() implies (#[trigger] res[a]).1 > idx by {
                if a >= 1 {
                    assert(res[a] == rest[a - 1]);
                    assert(rest[a - 1].1 > p);
                }
            }
        } else {
            lemma_winnow_rec_increasing(s, w, i + 1, idx);
            assert(winnow_rec(s, w, i, idx) == winnow_rec(s, w, i + 1, idx));
        }
    }
}

/// Every evaluation's selection either coincides with the seed position or
/// appears among the emitted fingerprints.
proof fn lemma_winnow_rec_covers(s: Seq<u64>, w: nat, i: int, idx: int)
    requires
        s.len() <= usize::MAX,
        1 <= w,
        0 <= i,
        i < eval_count(s.len(), w) ==> idx <= win_pick(s, w, i).1,
    ensures
        forall|i0: int|
            i <= i0 < eval_count(s.len(), w) ==> (#[trigger] win_pick(s, w, i0)).1 == idx || exists|
                j: int,
            |
                0 <= j < winnow_rec(s, w, i, idx).len() && (#[trigger] winnow_rec(
                    s,
                    w,
                    i,
                    idx,
                )[j]).1 == win_pick(s, w, i0).1,
    decreases eval_count(s.len(), w) - i,
{
    let evals = eval_count(s.len(), w);
    if 0 <= i < evals {
        let (mh, p) = win_pick(s, w, i);
        lemma_win_pick_range(s, w, i);
        if i + 1 < evals {
            lemma_win_pick_monotone(s, w, i);
        }
        assert(0 <= p < s.len());
        assert(p as usize == p);
        let res = winnow_rec(s, w, i, idx);
        if p != idx {
            lemma_winnow_rec_covers(s, w, i + 1, p);
            let rest = winnow_rec(s, w, i + 1, p);
            assert(res == seq![(mh, p as usize)] + rest);
            assert(res[0] == (mh, p as usize));
            assert(forall|a: int| 1 <= a < res.len() ==> res[a] == rest[a - 1]);
            assert forall|i0: int| i <= i0 < evals implies (#[trigger] win_pick(s, w, i0)).1 == idx
                || exists|j: int| 0 <= j < res.len() && (#[trigger] res[j]).1 == win_pick(
                s,
                w,
                i0,
            ).1 by {
                if i0 == i {
                    assert(res[0].1 == p);
                } else {
                    if win_pick(s, w, i0).1 == p {
                        assert(res[0].1 == win_pick(s, w, i0).1);
                    } else if exists|j: int|
                        0 <= j < rest.len() && (#[trigger] rest[j]).1 == win_pick(s, w, i0).1 {
                        let j = choose|j: int|
                            0 <= j < rest.len() && (#[trigger] rest[j]).1 == win_pick(s, w, i0).1;
                        assert(res[j + 1].1 == win_pick(s, w, i0).1);
                    }
                }
            }
        } else {
            lemma_winnow_rec_covers(s, w, i + 1, idx);
        }
    }
}

/// Winnowing coverage: every evaluated window keeps a representative. For
/// every window evaluation at start `i`, some emitted fingerprint's
/// position lies within `i .. i + w`.
pub proof fn lemma_winnowing_coverage(s: Seq<u64>, w: nat, i: int)
    requires
        s.len() <= usize::MAX,
        1 <= w,
        0 <= i < eval_count(s.len(), w),
    ensures
        exists|j: int|
            0 <= j < winnow_spec(s, w).len() && i <= (#[trigger] winnow_spec(s, w)[j]).1 < i + w,
{
    lemma_win_pick_range(s, w, 0);
    lemma_winnow_rec_covers(s, w, 0, -1);
    lemma_win_pick_range(s, w, i);
    assert(win_pick(s, w, i).1 as usize == win_pick(s, w, i).1);
    assert(win_pick(s, w, i).1 != -1);
    let j = choose|j: int|
        0 <= j < winnow_rec(s, w, 0, -1).len() && (#[trigger] winnow_rec(s, w, 0, -1)[j]).1
            == win_pick(s, w, i).1;
    assert(0 <= j < winnow_spec(s, w).len() && i <= winnow_spec(s, w)[j].1 < i + w);
}

/// Winnowing de-duplication: the emitted position sequence is strictly
/// increasing, so no two entries — consecutive or not — share a position.
pub proof fn lemma_winnowing_positions_increasing(s: Seq<u64>, w: nat)
    requires
        s.len() <= usize::MAX,
    ensures
        forall|a: int, b: int|
            0 <= a < b < winnow_spec(s, w).len() ==> (#[trigger] winnow_spec(s, w)[a]).1 < (
            #[trigger] winnow_spec(s, w)[b]).1,
{
    if eval_count(s.len(), w) > 0 {
        if w >= 1 {
            lemma_win_pick_range(s, w, 0);
        }
    }
    lemma_winnow_rec_increasing(s, w, 0, -1);
}

/// Slide a window of `window_size` hashes across the sequence and keep, for
/// each evaluation, the rightmost minimal hash with its global position —
/// the first evaluation's selection always, every later one only when its
/// position differs from the previously emitted selection's. The result is
/// the sequence's fingerprint.
pub fn winnowing(hashes: &[u64], window_size: usize) -> (r: Vec<(u64, usize)>)
    ensures
        r@ == winnow_spec(hashes@, window_size as nat),
        forall|a: int, b: int| 0 <= a < b < r@.len() ==> (#[trigger] r@[a]).1 < (#[trigger] r@[b]).1,
{
    let mut finger_prints: Vec<(u64, usize)> = Vec::new();
    // the global position of the previously emitted selection, once one
    // has been emitted at all
    let mut idx: usize = 0;
    let mut emitted_any = false;
    let n = hashes.len();
    proof {
        lemma_winnowing_positions_increasing(hashes@, window_size as nat);
    }
    if n <= window_size {
        return finger_prints;
    }
    let evals = n - window_size;
    for i in 0..evals
        invariant
            window_size < n == hashes@.len() <= usize::MAX,
            evals == eval_count(hashes@.len(), window_size as nat),
            idx <= n,
            winnow_spec(hashes@, window_size as nat) == finger_prints@ + winnow_rec(
                hashes@,
                window_size as nat,
                i as int,
                if emitted_any {
                    idx as int
                } else {
                    -1
                },
            ),
    {
        let (min_hash, min_idx) = rightmost_minimal(&hashes[i..i + window_size]);
        proof {
            if window_size >= 1 {
                lemma_rightmost_min_idx(hashes@.subrange(i as int, i + window_size));
            }
        }
        let global = i + min_idx;
        let ghost pick = win_pick(hashes@, window_size as nat, i as int);
        proof {
            assert(pick.1 == global && pick.0 == min_hash);
        }
        if !emitted_any || idx != global {
            // a new selection: record it
            idx = global;
            emitted_any = true;
            finger_prints.push((min_hash, idx));
            proof {
                assert(finger_prints@ + winnow_rec(
                    hashes@,
                    window_size as nat,
                    i + 1,
                    idx as int,
                ) =~= finger_prints@.drop_last() + (seq![(min_hash, idx)] + winnow_rec(
                    hashes@,
                    window_size as nat,
                    i + 1,
                    idx as int,
                )));
            }
        }
    }
    finger_prints
}

} // verus!
