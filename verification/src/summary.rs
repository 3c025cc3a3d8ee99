use vstd::prelude::*;

verus! {

use crate::doc::MultiDocSimilarity;
use crate::rank::{lemma_score_le_lt_trans, pair_views};
use crate::score::{score_lt, Score};

/// One comparison of a base submission against one other submission: the
/// target's identity, the containment score, and — for multi-file
/// submissions — the per-file breakdown that drove the score.
pub struct SourceSummary {
    pub against: String,
    pub score: Score,
    pub sources: Vec<(String, Score)>,
}

/// One submission's report: its identity, its best score over the
/// comparisons that survived ranking, and the ranked top matches.
pub struct Summary {
    pub base: String,
    pub max_score: Score,
    pub against: Vec<SourceSummary>,
}

/// The mathematical view of a comparison list: identity and score of each
/// entry.
pub open spec fn source_views(s: Seq<SourceSummary>) -> Seq<(Seq<char>, Score)> {
    s.map_values(|x: SourceSummary| (x.against@, x.score))
}

/// Max scores never increase along the list.
pub open spec fn summaries_sorted_desc(s: Seq<Summary>) -> bool {
    forall|a: int, b: int|
        0 <= a < b < s.len() ==> !score_lt((#[trigger] s[a]).max_score, (#[trigger] s[b]).max_score)
}

/// Every max score in the list is well-formed.
pub open spec fn summaries_wf(s: Seq<Summary>) -> bool {
    forall|a: int| 0 <= a < s.len() ==> (#[trigger] s[a]).max_score.wf()
}

impl SourceSummary {
    /// Flatten a submission-level comparison into a report entry, keeping
    /// the five highest-scoring files of the breakdown.
    pub fn from_similarity(sim: &MultiDocSimilarity) -> (r: SourceSummary)
        ensures
            r.against@ == sim.spec_against(),
            r.score == sim.spec_score(),
            pair_views(r.sources@) == sim.spec_sources().subrange(
                0,
                if 5 <= sim.spec_sources().len() {
                    5int
                } else {
                    sim.spec_sources().len() as int
                },
            ),
    {
        SourceSummary {
            against: sim.against().to_owned(),
            score: sim.score(),
            sources: sim.top_n_sources(5),
        }
    }
}

impl Summary {
    /// The best score among this summary's ranked matches. The summary
    /// must have at least one match.
    pub fn score(&self) -> (r: Score)
        requires
            self.against@.len() >= 1,
            forall|j: int| 0 <= j < self.against@.len() ==> (#[trigger] self.against@[j]).score.wf(),
        ensures
            exists|j: int| 0 <= j < self.against@.len() && r == (#[trigger] self.against@[j]).score,
            forall|j: int| 0 <= j < self.against@.len() ==> !score_lt(
                r,
                (#[trigger] self.against@[j]).score,
            ),
    {
        let mut best = self.against[0].score;
        let n = self.against.len();
        for i in 1..n
            invariant
                n == self.against@.len(),
                forall|j: int|
                    0 <= j < n ==> (#[trigger] self.against@[j]).score.wf(),
                best.wf(),
                exists|j: int| 0 <= j < i && best == (#[trigger] self.against@[j]).score,
                forall|j: int| 0 <= j < i ==> !score_lt(best, (#[trigger] self.against@[j]).score),
        {
            let cur = self.against[i].score;
            if best.lt(&cur) {
                proof {
                    assert forall|j: int| 0 <= j < i implies !score_lt(
                        cur,
                        (#[trigger] self.against@[j]).score,
                    ) by {
                        lemma_score_le_lt_trans(self.against@[j].score, best, cur);
                    }
                }
                best = cur;
            }
        }
        best
    }
}

} // verus!
