use vstd::prelude::*;

verus! {

use crate::fingerprint::{containment_score, spec_similarity, FingerPrint};
use crate::rank::{
    pair_views, sort_pairs_desc, view_scores_sorted_desc, view_scores_wf,
};
use crate::score::{score_lt, Score};
use crate::summary::{source_views, summaries_sorted_desc, summaries_wf, SourceSummary, Summary};

/// A named submission with its fingerprint, ready for batch comparison.
/// Behaviour of a batch is specified only when names are unique within it.
pub struct Submission {
    pub name: String,
    pub fingerprint: FingerPrint,
}

/// The hash set of a submission's fingerprint.
pub open spec fn sub_hashes(s: Submission) -> Set<u64> {
    s.fingerprint.spec_hashes()
}

/// The comparison pairs of a base submission against every other
/// submission of a batch — everyone but itself, identity being the name —
/// in batch order: each partner's name with the containment score of the
/// base's hashes in the partner's.
#[verifier::opaque]
pub open spec fn pair_scores(base: Submission, subs: Seq<Submission>) -> Seq<(Seq<char>, Score)> {
    subs.filter(|o: Submission| o.name@ != base.name@).map_values(
        |o: Submission| (o.name@, spec_similarity(sub_hashes(base), sub_hashes(o))),
    )
}

/// Extending the batch by one submission extends the comparison pairs by
/// one entry — unless the newcomer is the base itself.
pub proof fn lemma_pair_scores_push(base: Submission, subs: Seq<Submission>, x: Submission)
    ensures
        x.name@ != base.name@ ==> pair_scores(base, subs.push(x)) == pair_scores(
            base,
            subs,
        ).push((x.name@, spec_similarity(sub_hashes(base), sub_hashes(x)))),
        x.name@ == base.name@ ==> pair_scores(base, subs.push(x)) == pair_scores(base, subs),
{
    reveal(pair_scores);
    let withx = subs.push(x);
    reveal(Seq::filter);
    assert(withx.drop_last() =~= subs);
    assert(withx.last() == x);
    let pred = |o: Submission| o.name@ != base.name@;
    assert(withx.filter(pred) == if pred(x) {
        subs.filter(pred).push(x)
    } else {
        subs.filter(pred)
    });
    if x.name@ != base.name@ {
        assert(pair_scores(base, withx) =~= pair_scores(base, subs).push(
            (x.name@, spec_similarity(sub_hashes(base), sub_hashes(x))),
        ));
    } else {
        assert(pair_scores(base, withx) =~= pair_scores(base, subs));
    }
}

/// How many ranked comparisons are kept: at most `top_k`.
pub open spec fn keep_count(top_k: nat, len: nat) -> nat {
    if top_k <= len {
        top_k
    } else {
        len
    }
}

/// What a correct report for `base` against the batch `subs` looks like:
/// it carries the base's name; its match list is a descending-score
/// ordering of all of the base's pairwise scores, cut down to the `top_k`
/// best, with no per-file breakdowns; and its max score is its first
/// match's score, or zero when it has none.
#[verifier::opaque]
pub open spec fn summary_matches(
    s: Summary,
    base: Submission,
    subs: Seq<Submission>,
    top_k: nat,
) -> bool {
    &&& s.base@ == base.name@
    &&& exists|ss: Seq<(Seq<char>, Score)>|
        {
            &&& #[trigger] ss.to_multiset() == pair_scores(base, subs).to_multiset()
            &&& view_scores_sorted_desc(ss)
            &&& view_scores_wf(ss)
            &&& source_views(s.against@) == ss.subrange(0, keep_count(top_k, ss.len()) as int)
        }
    &&& forall|j: int| 0 <= j < s.against@.len() ==> (#[trigger] s.against@[j]).sources@.len() == 0
    &&& s.max_score == (if s.against@.len() == 0 {
        Score { num: 0, den: 1 }
    } else {
        s.against@[0].score
    })
    &&& s.max_score.wf()
}

/// Whether a base submission's report survives threshold filtering: its
/// best kept score — zero when nothing is kept — reaches the threshold.
#[verifier::opaque]
pub open spec fn retained(
    base: Submission,
    subs: Seq<Submission>,
    threshold: Score,
    top_k: nat,
) -> bool {
    if top_k == 0 || pair_scores(base, subs).len() == 0 {
        !score_lt(Score { num: 0, den: 1 }, threshold)
    } else {
        exists|j: int|
            0 <= j < pair_scores(base, subs).len() && !score_lt(
                (#[trigger] pair_scores(base, subs)[j]).1,
                threshold,
            )
    }
}

/// Whether a report is the correct report of some submission of the
/// batch.
pub open spec fn reported_for(s: Summary, subs: Seq<Submission>, top_k: nat) -> bool {
    exists|i: int| 0 <= i < subs.len() && summary_matches(s, #[trigger] subs[i], subs, top_k)
}

/// A correct report carries its base's name.
pub proof fn lemma_matches_base_name(s: Summary, base: Submission, subs: Seq<Submission>, top_k: nat)
    requires
        summary_matches(s, base, subs, top_k),
    ensures
        s.base@ == base.name@,
{
    reveal(summary_matches);
}

/// A correct report's match list has exactly `min(top_k, number of
/// pairs)` entries, and when it has any, its first entry is one of the
/// base's comparison pairs and scores at least as high as every pair.
#[verifier::spinoff_prover]
pub proof fn lemma_matches_top_entry(
    s: Summary,
    base: Submission,
    subs: Seq<Submission>,
    top_k: nat,
)
    requires
        summary_matches(s, base, subs, top_k),
    ensures
        s.against@.len() == keep_count(top_k, pair_scores(base, subs).len()),
        s.against@.len() >= 1 ==> pair_scores(base, subs).contains(
            (s.against@[0].against@, s.against@[0].score),
        ),
        s.against@.len() >= 1 ==> forall|j: int|
            0 <= j < pair_scores(base, subs).len() ==> !score_lt(
                s.against@[0].score,
                (#[trigger] pair_scores(base, subs)[j]).1,
            ),
{
    reveal(summary_matches);
    broadcast use vstd::seq_lib::group_to_multiset_ensures;

    let pairs = pair_scores(base, subs);
    let ss = choose|ss: Seq<(Seq<char>, Score)>|
        {
            &&& #[trigger] ss.to_multiset() == pairs.to_multiset()
            &&& view_scores_sorted_desc(ss)
            &&& view_scores_wf(ss)
            &&& source_views(s.against@) == ss.subrange(0, keep_count(top_k, ss.len()) as int)
        };
    assert(ss.len() == ss.to_multiset().len());
    assert(pairs.len() == pairs.to_multiset().len());
    assert(ss.to_multiset() == pairs.to_multiset());
    assert(source_views(s.against@).len() == s.against@.len());
    assert(source_views(s.against@) == ss.subrange(0, keep_count(top_k, ss.len()) as int));
    assert(s.against@.len() == keep_count(top_k, ss.len()));
    if s.against@.len() >= 1 {
        assert(source_views(s.against@)[0] == (s.against@[0].against@, s.against@[0].score));
        assert(ss[0] == (s.against@[0].against@, s.against@[0].score));
        assert(ss.contains(ss[0]));
        assert(pairs.to_multiset().count(ss[0]) > 0);
        assert(pairs.contains(ss[0]));
        assert forall|j: int| 0 <= j < pairs.len() implies !score_lt(
            s.against@[0].score,
            (#[trigger] pairs[j]).1,
        ) by {
            assert(pairs.contains(pairs[j]));
            assert(ss.to_multiset().count(pairs[j]) > 0);
            assert(ss.contains(pairs[j]));
            let m = choose|m: int| 0 <= m < ss.len() && ss[m] == pairs[j];
            if m > 0 {
                assert(!score_lt(ss[0].1, ss[m].1));
            }
        }
    }
}

/// A correct report clears the threshold exactly when its base is
/// retained.
#[verifier::spinoff_prover]
pub proof fn lemma_matches_retained(
    s: Summary,
    base: Submission,
    subs: Seq<Submission>,
    top_k: nat,
    threshold: Score,
)
    requires
        summary_matches(s, base, subs, top_k),
        threshold.wf(),
    ensures
        !score_lt(s.max_score, threshold) <==> retained(base, subs, threshold, top_k),
{
    reveal(summary_matches);
    reveal(retained);
    broadcast use vstd::seq_lib::group_to_multiset_ensures;

    let pairs = pair_scores(base, subs);
    let ss = choose|ss: Seq<(Seq<char>, Score)>|
        {
            &&& #[trigger] ss.to_multiset() == pairs.to_multiset()
            &&& view_scores_sorted_desc(ss)
            &&& view_scores_wf(ss)
            &&& source_views(s.against@) == ss.subrange(0, keep_count(top_k, ss.len()) as int)
        };
    assert(ss.len() == ss.to_multiset().len());
    assert(pairs.len() == pairs.to_multiset().len());
    assert(ss.to_multiset() == pairs.to_multiset());
    assert(source_views(s.against@).len() == s.against@.len());
    assert(source_views(s.against@) == ss.subrange(0, keep_count(top_k, ss.len()) as int));
    assert(s.against@.len() == keep_count(top_k, ss.len()));
    if top_k == 0 || pairs.len() == 0 {
        assert(s.against@.len() == 0);
    } else {
        assert(s.against@.len() >= 1);
        assert(s.max_score == source_views(s.against@)[0].1);
        assert(s.max_score == ss[0].1);
        if !score_lt(s.max_score, threshold) {
            assert(ss.contains(ss[0]));
            assert(pairs.to_multiset().count(ss[0]) > 0);
            assert(pairs.contains(ss[0]));
            let j = choose|j: int| 0 <= j < pairs.len() && pairs[j] == ss[0];
            assert(!score_lt(pairs[j].1, threshold));
        }
        if retained(base, subs, threshold, top_k) {
            let j = choose|j: int|
                0 <= j < pairs.len() && !score_lt((#[trigger] pairs[j]).1, threshold);
            assert(pairs.contains(pairs[j]));
            assert(ss.to_multiset().count(pairs[j]) > 0);
            assert(ss.contains(pairs[j]));
            let m = choose|m: int| 0 <= m < ss.len() && ss[m] == pairs[j];
            if m > 0 {
                assert(!score_lt(ss[0].1, ss[m].1));
                crate::rank::lemma_score_le_trans(threshold, ss[m].1, ss[0].1);
            }
        }
    }
}

/// Compares all submissions of a batch pairwise and ranks the outcomes
/// into per-submission summaries, keeping at most `top_k` matches per
/// submission and only submissions whose best score reaches `threshold`.
pub struct SimilarityAnalyzer {
    threshold: Score,
    top_k: usize,
}

impl SimilarityAnalyzer {
    pub closed spec fn spec_threshold(&self) -> Score {
        self.threshold
    }

    pub open spec fn wf(&self) -> bool {
        self.spec_threshold().wf()
    }

    pub closed spec fn spec_top_k(&self) -> nat {
        self.top_k as nat
    }

    pub fn new(threshold: Score, top_k: usize) -> (r: Self)
        requires
            threshold.wf(),
        ensures
            r.spec_threshold() == threshold,
            r.spec_top_k() == top_k,
            r.wf(),
    {
        Self { threshold, top_k }
    }

    /// The ranked comparisons of `base` against everyone else in the
    /// batch: some descending-score ordering of all its pairwise scores,
    /// cut down to the `top_k` best.
    pub fn compute_pair_summaries(&self, base: &Submission, others: &[Submission]) -> (r: Vec<
        SourceSummary,
    >)
        ensures
            exists|ss: Seq<(Seq<char>, Score)>|
                {
                    &&& #[trigger] ss.to_multiset() == pair_scores(*base, others@).to_multiset()
                    &&& view_scores_sorted_desc(ss)
                    &&& view_scores_wf(ss)
                    &&& source_views(r@) == ss.subrange(
                        0,
                        keep_count(self.spec_top_k(), ss.len()) as int,
                    )
                },
            view_scores_sorted_desc(source_views(r@)),
            forall|j: int| 0 <= j < r@.len() ==> (#[trigger] r@[j]).score.wf(),
            forall|j: int| 0 <= j < r@.len() ==> (#[trigger] r@[j]).sources@.len() == 0,
    {
        let base_hashes = base.fingerprint.fingerprint();
        let mut pairs: Vec<(String, Score)> = Vec::new();
        let n = others.len();
        proof {
            reveal(pair_scores);
            reveal(Seq::filter);
            assert(others@.subrange(0, 0).filter(|o: Submission| o.name@ != base.name@) =~= Seq::<
                Submission,
            >::empty());
            assert(pair_views(pairs@) =~= pair_scores(*base, others@.subrange(0, 0)));
        }
        for i in 0..n
            invariant
                n == others@.len(),
                base_hashes@.no_duplicates(),
                base_hashes@.to_set() == sub_hashes(*base),
                pair_views(pairs@) == pair_scores(*base, others@.subrange(0, i as int)),
                crate::rank::scores_wf(pairs@),
        {
            let ghost pre = others@.subrange(0, i as int);
            let ghost ext = others@.subrange(0, i + 1);
            proof {
                assert(ext =~= pre.push(others@[i as int]));
                lemma_pair_scores_push(*base, pre, others@[i as int]);
            }
            let other = &others[i];
            if !(other.name == base.name) {
                let ghost prev = pairs@;
                let other_hashes = other.fingerprint.fingerprint();
                let score = containment_score(&base_hashes, &other_hashes);
                pairs.push((other.name.clone(), score));
                proof {
                    assert(pair_views(pairs@) =~~= pair_scores(*base, ext));
                }
            } else {
                proof {
                    assert(pair_views(pairs@) =~~= pair_scores(*base, ext));
                }
            }
        }
        proof {
            assert(others@.subrange(0, n as int) =~= others@);
        }
        sort_pairs_desc(&mut pairs);
        let ghost ss = pair_views(pairs@);
        let keep = if self.top_k <= pairs.len() {
            self.top_k
        } else {
            pairs.len()
        };
        let mut out: Vec<SourceSummary> = Vec::new();
        for i in 0..keep
            invariant
                keep <= pairs@.len(),
                ss == pair_views(pairs@),
                out@.len() == i,
                source_views(out@) == pair_views(pairs@).subrange(0, i as int),
                forall|j: int| 0 <= j < out@.len() ==> (#[trigger] out@[j]).score.wf(),
                forall|j: int| 0 <= j < out@.len() ==> (#[trigger] out@[j]).sources@.len() == 0,
                crate::rank::scores_wf(pairs@),
                crate::rank::scores_sorted_desc(pairs@),
        {
            let name = pairs[i].0.clone();
            let score = pairs[i].1;
            let ghost prev = out@;
            out.push(SourceSummary { against: name, score, sources: Vec::new() });
            proof {
                assert forall|j: int|
                    0 <= j < source_views(out@).len() implies source_views(out@)[j] == pair_views(
                    pairs@,
                ).subrange(0, i + 1)[j] by {
                    if j < prev.len() {
                        assert(source_views(prev)[j] == pair_views(pairs@).subrange(
                            0,
                            i as int,
                        )[j]);
                    }
                }
                assert(source_views(out@) =~~= pair_views(pairs@).subrange(0, i + 1));
            }
        }
        proof {
            assert(source_views(out@) =~~= ss.subrange(
                0,
                keep_count(self.spec_top_k(), ss.len()) as int,
            ));
            assert(view_scores_sorted_desc(ss));
            assert(view_scores_wf(ss));
            assert(view_scores_sorted_desc(source_views(out@)));
        }
        out
    }

    /// Whether submission index `i` is still accounted for: either its
    /// report is still in the pool (`rsubs`) or it has been moved to the
    /// result (`src`).
    pub open spec fn index_covered(i: int, rsubs: Seq<int>, src: Seq<int>) -> bool {
        (exists|j: int| 0 <= j < rsubs.len() && #[trigger] rsubs[j] == i) || (exists|j: int|
            0 <= j < src.len() && #[trigger] src[j] == i)
    }

    /// The position of a maximal max score in a non-empty report list.
    fn argmax_summary(reports: &Vec<Summary>) -> (r: usize)
        requires
            reports@.len() >= 1,
            summaries_wf(reports@),
        ensures
            r < reports@.len(),
            forall|j: int|
                0 <= j < reports@.len() ==> !score_lt(
                    reports@[r as int].max_score,
                    (#[trigger] reports@[j]).max_score,
                ),
    {
        let mut best: usize = 0;
        let n = reports.len();
        for i in 1..n
            invariant
                n == reports@.len(),
                summaries_wf(reports@),
                best < i,
                forall|j: int|
                    0 <= j < i ==> !score_lt(
                        reports@[best as int].max_score,
                        (#[trigger] reports@[j]).max_score,
                    ),
        {
            if (reports[best].max_score).lt(&reports[i].max_score) {
                proof {
                    assert forall|j: int| 0 <= j < i implies !score_lt(
                        reports@[i as int].max_score,
                        (#[trigger] reports@[j]).max_score,
                    ) by {
                        crate::rank::lemma_score_le_lt_trans(
                            reports@[j].max_score,
                            reports@[best as int].max_score,
                            reports@[i as int].max_score,
                        );
                    }
                }
                best = i;
            }
        }
        best
    }

    /// Analyze a whole batch: one correct report per submission, of which
    /// exactly those whose best kept score reaches the threshold survive,
    /// ordered by descending max score.
    pub fn analyze_fingerprints(&self, submissions: &[Submission]) -> (r: Vec<Summary>)
        requires
            self.wf(),
            forall|a: int, b: int|
                0 <= a < b < submissions@.len() ==> (#[trigger] submissions@[a]).name@ != (
                #[trigger] submissions@[b]).name@,
        ensures
            summaries_sorted_desc(r@),
            forall|j: int|
                0 <= j < r@.len() ==> !score_lt(
                    (#[trigger] r@[j]).max_score,
                    self.spec_threshold(),
                ),
            forall|j: int|
                0 <= j < r@.len() ==> #[trigger] reported_for(
                    r@[j],
                    submissions@,
                    self.spec_top_k(),
                ),
            forall|i: int|
                0 <= i < submissions@.len() ==> ((exists|j: int|
                    0 <= j < r@.len() && (#[trigger] r@[j]).base@ == submissions@[i].name@)
                    <==> retained(
                    #[trigger] submissions@[i],
                    submissions@,
                    self.spec_threshold(),
                    self.spec_top_k(),
                )),
            forall|a: int, b: int|
                0 <= a < b < r@.len() ==> (#[trigger] r@[a]).base@ != (#[trigger] r@[b]).base@,
    {
        let n = submissions.len();
        let mut reports: Vec<Summary> = Vec::new();
        for i in 0..n
            invariant
                n == submissions@.len(),
                reports@.len() == i,
                forall|idx: int|
                    0 <= idx < i ==> summary_matches(
                        #[trigger] reports@[idx],
                        submissions@[idx],
                        submissions@,
                        self.spec_top_k(),
                    ),
                summaries_wf(reports@),
        {
            let base = &submissions[i];
            let against = self.compute_pair_summaries(base, submissions);
            let max_score = if against.len() == 0 {
                Score::zero()
            } else {
                against[0].score
            };
            reports.push(Summary { base: base.name.clone(), max_score, against });
            proof {
                reveal(summary_matches);
                assert(summary_matches(
                    reports@[i as int],
                    submissions@[i as int],
                    submissions@,
                    self.spec_top_k(),
                ));
            }
        }
        // extract reports best-first; once the best remaining report fails
        // the threshold, everything still in the pool fails it too
        let mut result: Vec<Summary> = Vec::new();
        let ghost mut rsubs: Seq<int> = Seq::new(n as nat, |j: int| j);
        let ghost mut src: Seq<int> = Seq::empty();
        proof {
            assert forall|i: int| 0 <= i < n implies #[trigger] Self::index_covered(
                i,
                rsubs,
                src,
            ) by {
                assert(rsubs[i] == i);
            }
            assert(forall|j1: int, j2: int|
                0 <= j1 < j2 < rsubs.len() ==> #[trigger] rsubs[j1] != #[trigger] rsubs[j2]);
            if rsubs.len() == 0 {
                assert(rsubs =~= Seq::<int>::empty());
            }
        }
        while reports.len() > 0
            invariant_except_break
                self.wf(),
                n == submissions@.len(),
                rsubs.len() == reports@.len(),
                forall|j: int| 0 <= j < rsubs.len() ==> 0 <= #[trigger] rsubs[j] < n,
                forall|j: int|
                    0 <= j < reports@.len() ==> summary_matches(
                        #[trigger] reports@[j],
                        submissions@[rsubs[j]],
                        submissions@,
                        self.spec_top_k(),
                    ),
                summaries_wf(reports@),
                src.len() == result@.len(),
                forall|j: int| 0 <= j < src.len() ==> 0 <= #[trigger] src[j] < n,
                forall|j: int|
                    0 <= j < result@.len() ==> summary_matches(
                        #[trigger] result@[j],
                        submissions@[src[j]],
                        submissions@,
                        self.spec_top_k(),
                    ),
                forall|j: int|
                    0 <= j < result@.len() ==> !score_lt(
                        (#[trigger] result@[j]).max_score,
                        self.spec_threshold(),
                    ),
                summaries_sorted_desc(result@),
                summaries_wf(result@),
                forall|a: int, b: int|
                    0 <= a < result@.len() && 0 <= b < reports@.len() ==> !score_lt(
                        (#[trigger] result@[a]).max_score,
                        (#[trigger] reports@[b]).max_score,
                    ),
                forall|i: int| 0 <= i < n ==> #[trigger] Self::index_covered(i, rsubs, src),
                rsubs.len() == 0 ==> rsubs == Seq::<int>::empty(),
                forall|j1: int, j2: int|
                    0 <= j1 < j2 < rsubs.len() ==> #[trigger] rsubs[j1] != #[trigger] rsubs[j2],
                forall|j1: int, j2: int|
                    0 <= j1 < rsubs.len() && 0 <= j2 < src.len() ==> #[trigger] rsubs[j1] != (
                    #[trigger] src[j2]),
                forall|j1: int, j2: int|
                    0 <= j1 < j2 < src.len() ==> #[trigger] src[j1] != #[trigger] src[j2],
            ensures
                self.wf(),
                n == submissions@.len(),
                src.len() == result@.len(),
                forall|j: int| 0 <= j < src.len() ==> 0 <= #[trigger] src[j] < n,
                forall|j: int|
                    0 <= j < result@.len() ==> summary_matches(
                        #[trigger] result@[j],
                        submissions@[src[j]],
                        submissions@,
                        self.spec_top_k(),
                    ),
                forall|j: int|
                    0 <= j < result@.len() ==> !score_lt(
                        (#[trigger] result@[j]).max_score,
                        self.spec_threshold(),
                    ),
                summaries_sorted_desc(result@),
                forall|j1: int, j2: int|
                    0 <= j1 < j2 < src.len() ==> #[trigger] src[j1] != #[trigger] src[j2],
                forall|i: int|
                    0 <= i < n ==> #[trigger] Self::index_covered(i, Seq::empty(), src) || (exists|
                    s2: Summary,
                |
                        #[trigger] summary_matches(
                            s2,
                            submissions@[i],
                            submissions@,
                            self.spec_top_k(),
                        ) && score_lt(s2.max_score, self.spec_threshold())),
            decreases reports@.len(),
        {
            let m = Self::argmax_summary(&reports);
            let ghost old_reports = reports@;
            let ghost old_rsubs = rsubs;
            let s = reports.remove(m);
            proof {
                rsubs = rsubs.remove(m as int);
                assert(forall|j: int|
                    0 <= j < reports@.len() ==> #[trigger] reports@[j] == (if j < m {
                        old_reports[j]
                    } else {
                        old_reports[j + 1]
                    }));
                assert(forall|j: int|
                    0 <= j < rsubs.len() ==> #[trigger] rsubs[j] == (if j < m {
                        old_rsubs[j]
                    } else {
                        old_rsubs[j + 1]
                    }));
            }
            let passes = !(s.max_score).lt(&self.threshold);
            if passes {
                let ghost old_result = result@;
                let ghost old_src = src;
                result.push(s);
                proof {
                    src = src.push(old_rsubs[m as int]);
                    assert(result@[result@.len() - 1] == s);
                    assert(forall|j: int|
                        0 <= j < old_result.len() ==> #[trigger] result@[j] == old_result[j]);
                    assert(forall|j: int|
                        0 <= j < old_src.len() ==> #[trigger] src[j] == old_src[j]);
                    assert(src[src.len() - 1] == old_rsubs[m as int]);
                    assert forall|j1: int, j2: int|
                        0 <= j1 < rsubs.len() && 0 <= j2 < src.len() implies #[trigger] rsubs[j1]
                        != (#[trigger] src[j2]) by {
                        let jr: int = if j1 < m {
                            j1
                        } else {
                            j1 + 1
                        };
                        assert(rsubs[j1] == old_rsubs[jr]);
                        if j2 < old_src.len() {
                            assert(src[j2] == old_src[j2]);
                        } else {
                            assert(src[j2] == old_rsubs[m as int]);
                            assert(jr != m);
                        }
                    }
                    assert forall|j1: int, j2: int|
                        0 <= j1 < j2 < src.len() implies #[trigger] src[j1] != #[trigger] src[j2] by {
                        if j2 < old_src.len() {
                            assert(src[j1] == old_src[j1] && src[j2] == old_src[j2]);
                        } else {
                            assert(src[j1] == old_src[j1]);
                            assert(src[j2] == old_rsubs[m as int]);
                            assert(old_rsubs[m as int] != old_src[j1]);
                        }
                    }
                    assert forall|i: int|
                        0 <= i < n implies #[trigger] Self::index_covered(i, rsubs, src) by {
                        assert(Self::index_covered(i, old_rsubs, old_src));
                        if exists|j: int| 0 <= j < old_rsubs.len() && #[trigger] old_rsubs[j]
                            == i {
                            let j = choose|j: int|
                                0 <= j < old_rsubs.len() && #[trigger] old_rsubs[j] == i;
                            if j == m {
                                assert(src[src.len() - 1] == i);
                            } else if j < m {
                                assert(rsubs[j] == i);
                            } else {
                                assert(rsubs[j - 1] == i);
                            }
                        } else {
                            let j = choose|j: int|
                                0 <= j < old_src.len() && #[trigger] old_src[j] == i;
                            assert(src[j] == i);
                        }
                    }
                    if rsubs.len() == 0 {
                        assert(rsubs =~= Seq::<int>::empty());
                    }
                }
            } else {
                proof {
                    // the maximum already fails, so every remaining report
                    // fails, and so does the one just removed
                    assert forall|j: int| 0 <= j < old_reports.len() implies score_lt(
                        (#[trigger] old_reports[j]).max_score,
                        self.spec_threshold(),
                    ) by {
                        crate::rank::lemma_score_le_lt_trans(
                            old_reports[j].max_score,
                            s.max_score,
                            self.spec_threshold(),
                        );
                    }
                    assert forall|i: int|
                        0 <= i < n implies #[trigger] Self::index_covered(i, Seq::empty(), src)
                        || (exists|s2: Summary|
                        #[trigger] summary_matches(
                            s2,
                            submissions@[i],
                            submissions@,
                            self.spec_top_k(),
                        ) && score_lt(s2.max_score, self.spec_threshold())) by {
                        assert(Self::index_covered(i, old_rsubs, src));
                        if exists|j: int| 0 <= j < old_rsubs.len() && #[trigger] old_rsubs[j]
                            == i {
                            let j = choose|j: int|
                                0 <= j < old_rsubs.len() && #[trigger] old_rsubs[j] == i;
                            let s2 = old_reports[j];
                            assert(summary_matches(
                                s2,
                                submissions@[i],
                                submissions@,
                                self.spec_top_k(),
                            ));
                            assert(score_lt(s2.max_score, self.spec_threshold()));
                        } else {
                            let j = choose|j: int| 0 <= j < src.len() && #[trigger] src[j] == i;
                            assert(src[j] == i);
                        }
                    }
                }
                break ;
            }
        }
        proof {
            assert forall|j: int| 0 <= j < result@.len() implies #[trigger] reported_for(
                result@[j],
                submissions@,
                self.spec_top_k(),
            ) by {
                assert(summary_matches(
                    result@[j],
                    submissions@[src[j]],
                    submissions@,
                    self.spec_top_k(),
                ));
            }
            assert forall|i: int| 0 <= i < submissions@.len() implies ((exists|j: int|
                0 <= j < result@.len() && (#[trigger] result@[j]).base@ == submissions@[i].name@)
                <==> retained(
                #[trigger] submissions@[i],
                submissions@,
                self.spec_threshold(),
                self.spec_top_k(),
            )) by {
                if exists|j: int|
                    0 <= j < result@.len() && (#[trigger] result@[j]).base@
                        == submissions@[i].name@ {
                    let j = choose|j: int|
                        0 <= j < result@.len() && (#[trigger] result@[j]).base@
                            == submissions@[i].name@;
                    lemma_matches_base_name(
                        result@[j],
                        submissions@[src[j]],
                        submissions@,
                        self.spec_top_k(),
                    );
                    assert(submissions@[src[j]].name@ == submissions@[i].name@);
                    assert(src[j] == i);
                    lemma_matches_retained(
                        result@[j],
                        submissions@[i],
                        submissions@,
                        self.spec_top_k(),
                        self.spec_threshold(),
                    );
                }
                if retained(
                    submissions@[i],
                    submissions@,
                    self.spec_threshold(),
                    self.spec_top_k(),
                ) {
                    if exists|j: int| 0 <= j < src.len() && #[trigger] src[j] == i {
                        let j = choose|j: int| 0 <= j < src.len() && #[trigger] src[j] == i;
                        lemma_matches_base_name(
                            result@[j],
                            submissions@[i],
                            submissions@,
                            self.spec_top_k(),
                        );
                        assert(result@[j].base@ == submissions@[i].name@);
                    } else {
                        assert(Self::index_covered(i, Seq::empty(), src) || (exists|s2: Summary|
                            #[trigger] summary_matches(
                                s2,
                                submissions@[i],
                                submissions@,
                                self.spec_top_k(),
                            ) && score_lt(s2.max_score, self.spec_threshold())));
                        let s2: Summary = choose|s2: Summary|
                            #[trigger] summary_matches(
                                s2,
                                submissions@[i],
                                submissions@,
                                self.spec_top_k(),
                            ) && score_lt(s2.max_score, self.spec_threshold());
                        lemma_matches_retained(
                            s2,
                            submissions@[i],
                            submissions@,
                            self.spec_top_k(),
                            self.spec_threshold(),
                        );
                        assert(false);
                    }
                }
            }
            assert forall|a: int, b: int|
                0 <= a < b < result@.len() implies (#[trigger] result@[a]).base@ != (
            #[trigger] result@[b]).base@ by {
                lemma_matches_base_name(
                    result@[a],
                    submissions@[src[a]],
                    submissions@,
                    self.spec_top_k(),
                );
                lemma_matches_base_name(
                    result@[b],
                    submissions@[src[b]],
                    submissions@,
                    self.spec_top_k(),
                );
                assert(src[a] != src[b]);
                if src[a] < src[b] {
                    assert(submissions@[src[a]].name@ != submissions@[src[b]].name@);
                } else {
                    assert(submissions@[src[b]].name@ != submissions@[src[a]].name@);
                }
            }
        }
        result
    }

}

} // verus!
