use vstd::prelude::*;

verus! {

use crate::score::{score_lt, Score};

/// The mathematical view of a ranked `(name, score)` list.
pub open spec fn pair_views(s: Seq<(String, Score)>) -> Seq<(Seq<char>, Score)> {
    s.map_values(|p: (String, Score)| (p.0@, p.1))
}

/// Scores never increase along the list.
pub open spec fn scores_sorted_desc(s: Seq<(String, Score)>) -> bool {
    forall|a: int, b: int|
        0 <= a < b < s.len() ==> !score_lt((#[trigger] s[a]).1, (#[trigger] s[b]).1)
}

/// Every score in the list is well-formed.
pub open spec fn scores_wf(s: Seq<(String, Score)>) -> bool {
    forall|a: int| 0 <= a < s.len() ==> (#[trigger] s[a]).1.wf()
}

/// Scores never increase along a list of mathematical pairs.
pub open spec fn view_scores_sorted_desc(s: Seq<(Seq<char>, Score)>) -> bool {
    forall|a: int, b: int|
        0 <= a < b < s.len() ==> !score_lt((#[trigger] s[a]).1, (#[trigger] s[b]).1)
}

/// Every score in a list of mathematical pairs is well-formed.
pub open spec fn view_scores_wf(s: Seq<(Seq<char>, Score)>) -> bool {
    forall|a: int| 0 <= a < s.len() ==> (#[trigger] s[a]).1.wf()
}

/// Ordering well-formed scores by cross-multiplication is transitive:
/// `a <= b` and `b < c` give `a < c`.
pub proof fn lemma_score_le_lt_trans(a: Score, b: Score, c: Score)
    requires
        a.wf(),
        b.wf(),
        c.wf(),
        !score_lt(b, a),
        score_lt(b, c),
    ensures
        score_lt(a, c),
{
    assert(a.num * c.den < c.num * a.den) by (nonlinear_arith)
        requires
            a.num * b.den <= b.num * a.den,
            b.num * c.den < c.num * b.den,
            a.den >= 1,
            b.den >= 1,
            c.den >= 1,
    ;
}

/// Ordering well-formed scores by cross-multiplication is transitive:
/// `a <= b` and `b <= c` give `a <= c`.
pub proof fn lemma_score_le_trans(a: Score, b: Score, c: Score)
    requires
        a.wf(),
        b.wf(),
        c.wf(),
        !score_lt(b, a),
        !score_lt(c, b),
    ensures
        !score_lt(c, a),
{
    assert(a.num * c.den <= c.num * a.den) by (nonlinear_arith)
        requires
            a.num * b.den <= b.num * a.den,
            b.num * c.den <= c.num * b.den,
            a.den >= 1,
            b.den >= 1,
            c.den >= 1,
    ;
}

/// Sort a `(name, score)` list by score, highest first, keeping exactly
/// the same entries.
pub fn sort_pairs_desc(v: &mut Vec<(String, Score)>)
    requires
        scores_wf(old(v)@),
    ensures
        scores_sorted_desc(final(v)@),
        scores_wf(final(v)@),
        pair_views(final(v)@).to_multiset() == pair_views(old(v)@).to_multiset(),
        final(v)@.len() == old(v)@.len(),
{
    let n = v.len();
    let mut i: usize = 1;
    while i < n
        invariant
            n == v@.len() == old(v)@.len(),
            1 <= i || n == 0,
            i <= n || n == 0,
            scores_wf(v@),
            pair_views(v@).to_multiset() == pair_views(old(v)@).to_multiset(),
            forall|a: int, b: int|
                0 <= a < b < i && b < n ==> !score_lt((#[trigger] v@[a]).1, (#[trigger] v@[b]).1),
        decreases n - i,
    {
        let xscore = v[i].1;
        let mut pos: usize = 0;
        while pos < i && !(v[pos].1).lt(&xscore)
            invariant
                pos <= i < n == v@.len(),
                xscore == v@[i as int].1,
                forall|j: int| 0 <= j < pos ==> !score_lt((#[trigger] v@[j]).1, xscore),
            decreases i - pos,
        {
            pos = pos + 1;
        }
        if pos < i {
            let ghost before = v@;
            let x = v.remove(i);
            let ghost removed = v@;
            v.insert(pos, x);
            proof {
                broadcast use vstd::seq_lib::to_multiset_remove;
                broadcast use vstd::seq_lib::to_multiset_insert;
                broadcast use vstd::seq_lib::group_to_multiset_ensures;

                assert(pair_views(removed) =~= pair_views(before).remove(i as int));
                assert(pair_views(v@) =~= pair_views(removed).insert(
                    pos as int,
                    (x.0@, x.1),
                ));
                assert(pair_views(before)[i as int] == (x.0@, x.1));
                assert(pair_views(before).contains((x.0@, x.1)));
                assert(pair_views(v@).to_multiset() =~= pair_views(before).to_multiset());
                // the shifted entries all score strictly below the inserted one
                assert forall|a: int, b: int|
                    0 <= a < b < i + 1 && b < n implies !score_lt(
                    (#[trigger] v@[a]).1,
                    (#[trigger] v@[b]).1,
                ) by {
                    if b < pos {
                        assert(v@[a] == before[a] && v@[b] == before[b]);
                    } else if b == pos {
                        assert(v@[b].1 == xscore);
                        assert(v@[a] == before[a]);
                        assert(!score_lt(before[a].1, xscore));
                    } else {
                        assert(v@[b] == before[b - 1]);
                        assert(score_lt(before[pos as int].1, xscore));
                        if a < pos {
                            assert(v@[a] == before[a]);
                            assert(!score_lt(before[a].1, before[b - 1].1));
                        } else if a == pos {
                            // x is at pos; the entry now after it scored
                            // below x in the old order
                            assert(v@[a].1 == xscore);
                            if b - 1 == pos {
                                assert(v@[b] == before[pos as int]);
                                lemma_score_le_lt_trans(
                                    before[b - 1].1,
                                    before[b - 1].1,
                                    xscore,
                                );
                            } else {
                                assert(!score_lt(before[pos as int].1, before[b - 1].1));
                                lemma_score_le_lt_trans(
                                    before[b - 1].1,
                                    before[pos as int].1,
                                    xscore,
                                );
                            }
                        } else {
                            assert(v@[a] == before[a - 1]);
                            assert(!score_lt(before[a - 1].1, before[b - 1].1));
                        }
                    }
                }
                assert(scores_wf(v@));
            }
        }
        i = i + 1;
    }
}

} // verus!
