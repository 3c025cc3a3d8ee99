use vstd::prelude::*;

verus! {

use crate::fingerprint::{containment_score, spec_similarity, FingerPrint};
use crate::rank::{pair_views, scores_sorted_desc, scores_wf, sort_pairs_desc};
use crate::score::Score;
use vstd::seq_lib::seq_to_set_distributes_over_add;

/// A named, immutable document holding exactly one fingerprint. Its name
/// is its identity within a comparison batch.
pub struct Doc {
    name: String,
    finger_print: FingerPrint,
}

impl Doc {
    /// The document's name.
    pub closed spec fn name_view(&self) -> Seq<char> {
        self.name@
    }

    /// The document's fingerprint hash set.
    pub closed spec fn spec_hashes(&self) -> Set<u64> {
        self.finger_print.spec_hashes()
    }

    pub fn new(name: String, finger_print: FingerPrint) -> (r: Self)
        ensures
            r.name_view() == name@,
            r.spec_hashes() == finger_print.spec_hashes(),
    {
        Self { name, finger_print }
    }

    /// The document's fingerprint hash set as a duplicate-free vector.
    pub fn hashes(&self) -> (r: Vec<u64>)
        ensures
            r@.no_duplicates(),
            r@.to_set() == self.spec_hashes(),
    {
        self.finger_print.fingerprint()
    }

    /// The containment score of this document's hashes in `other`'s,
    /// tagged with both identities.
    pub fn similarity(&self, other: &Self) -> (r: Similarity)
        ensures
            r.spec_base() == self.name_view(),
            r.spec_against() == other.name_view(),
            r.spec_score() == spec_similarity(self.spec_hashes(), other.spec_hashes()),
            r.spec_score().wf(),
    {
        let base = self.hashes();
        let against = other.hashes();
        let score = containment_score(&base, &against);
        Similarity { base: self.name.clone(), against: other.name.clone(), score }
    }
}

/// One pairwise comparison result: who was compared against whom, and the
/// containment score of the base in the target.
pub struct Similarity {
    base: String,
    against: String,
    score: Score,
}

impl Similarity {
    pub closed spec fn spec_base(&self) -> Seq<char> {
        self.base@
    }

    pub closed spec fn spec_against(&self) -> Seq<char> {
        self.against@
    }

    pub closed spec fn spec_score(&self) -> Score {
        self.score
    }

    pub fn score(&self) -> (r: Score)
        ensures
            r == self.spec_score(),
    {
        self.score
    }

    pub fn base(&self) -> (r: &str)
        ensures
            r@ == self.spec_base(),
    {
        self.base.as_str()
    }

    pub fn against(&self) -> (r: &str)
        ensures
            r@ == self.spec_against(),
    {
        self.against.as_str()
    }
}

/// The hash sets of a document list, unioned left to right.
pub open spec fn union_hashes(docs: Seq<Doc>) -> Set<u64>
    decreases docs.len(),
{
    if docs.len() == 0 {
        Set::empty()
    } else {
        union_hashes(docs.drop_last()).union(docs.last().spec_hashes())
    }
}

/// The per-file comparison pairs of a base hash set against each document
/// of a list, in list order.
pub open spec fn doc_score_pairs(base: Set<u64>, docs: Seq<Doc>) -> Seq<(Seq<char>, Score)> {
    docs.map_values(|d: Doc| (d.name_view(), spec_similarity(base, d.spec_hashes())))
}

/// A named submission of zero or more documents (its files). Its effective
/// hash set is the union of its members'; duplicate k-grams shared between
/// a submission's own files are deliberately collapsed.
pub struct MultiDoc {
    name: String,
    docs: Vec<Doc>,
}

impl MultiDoc {
    /// The submission's name.
    pub closed spec fn name_view(&self) -> Seq<char> {
        self.name@
    }

    /// The submission's member documents.
    pub closed spec fn docs_view(&self) -> Seq<Doc> {
        self.docs@
    }

    /// The union of the members' hash sets.
    pub open spec fn spec_hashes(&self) -> Set<u64> {
        union_hashes(self.docs_view())
    }

    pub fn new(name: &str) -> (r: Self)
        ensures
            r.name_view() == name@,
            r.docs_view() == Seq::<Doc>::empty(),
    {
        Self { name: name.to_owned(), docs: Vec::new() }
    }

    pub fn name(&self) -> (r: &str)
        ensures
            r@ == self.name_view(),
    {
        self.name.as_str()
    }

    /// Append one more file's document; submissions grow one file at a
    /// time and are never mutated once comparison begins.
    pub fn add_doc(&mut self, doc: Doc)
        ensures
            final(self).name_view() == old(self).name_view(),
            final(self).docs_view() == old(self).docs_view().push(doc),
    {
        self.docs.push(doc);
    }

    pub fn docs(&self) -> (r: &Vec<Doc>)
        ensures
            r@ == self.docs_view(),
    {
        &self.docs
    }

    /// All hashes from all member documents, each kept once.
    pub fn hashes(&self) -> (r: Vec<u64>)
        ensures
            r@.no_duplicates(),
            r@.to_set() == self.spec_hashes(),
    {
        let mut all: Vec<u64> = Vec::new();
        let n = self.docs.len();
        for i in 0..n
            invariant
                n == self.docs_view().len(),
                all@.to_set() == union_hashes(self.docs_view().subrange(0, i as int)),
        {
            let ghost before = all@;
            let mut dh = self.docs[i].hashes();
            let ghost dhv = dh@;
            all.append(&mut dh);
            proof {
                seq_to_set_distributes_over_add(before, dhv);
                assert(self.docs_view().subrange(0, i + 1).drop_last() =~= self.docs_view()
                    .subrange(0, i as int));
                assert(self.docs_view().subrange(0, i + 1).last() == self.docs_view()[i as int]);
            }
        }
        proof {
            assert(self.docs_view().subrange(0, n as int) =~= self.docs_view());
        }
        crate::hash_set::unique_values(&all)
    }

    /// Compare this submission against another: the aggregate containment
    /// score of this submission's unioned hashes in the other's, plus a
    /// ranked per-file breakdown showing which of the other's files drove
    /// the aggregate.
    pub fn similarity(&self, other: &Self) -> (r: MultiDocSimilarity)
        ensures
            r.spec_base() == self.name_view(),
            r.spec_against() == other.name_view(),
            r.spec_score() == spec_similarity(self.spec_hashes(), other.spec_hashes()),
            r.spec_score().wf(),
            r.spec_sources().to_multiset() == doc_score_pairs(
                self.spec_hashes(),
                other.docs_view(),
            ).to_multiset(),
            r.sources_sorted(),
    {
        let base = self.hashes();
        let mut sources: Vec<(String, Score)> = Vec::new();
        let n = other.docs.len();
        for i in 0..n
            invariant
                n == other.docs_view().len(),
                base@.no_duplicates(),
                base@.to_set() == self.spec_hashes(),
                sources@.len() == i,
                pair_views(sources@) == doc_score_pairs(
                    self.spec_hashes(),
                    other.docs_view().subrange(0, i as int),
                ),
                scores_wf(sources@),
        {
            let doc = &other.docs[i];
            let doc_hashes = doc.hashes();
            let score = containment_score(&base, &doc_hashes);
            let ghost prev = sources@;
            sources.push((doc.name.clone(), score));
            proof {
                assert(sources@.len() == i + 1);
                assert(sources@[i as int].0@ == other.docs_view()[i as int].name_view());
                assert(sources@[i as int].1 == spec_similarity(
                    self.spec_hashes(),
                    other.docs_view()[i as int].spec_hashes(),
                ));
                assert(forall|j: int| 0 <= j < i ==> sources@[j] == prev[j]);
                let ghost lhs = pair_views(sources@);
                let ghost rhs = doc_score_pairs(self.spec_hashes(), other.docs_view().subrange(0, i + 1));
                assert(lhs.len() == rhs.len());
                assert forall|j: int| 0 <= j < lhs.len() implies lhs[j] == rhs[j] by {
                    assert(rhs[j] == (
                        other.docs_view().subrange(0, i + 1)[j].name_view(),
                        spec_similarity(
                            self.spec_hashes(),
                            other.docs_view().subrange(0, i + 1)[j].spec_hashes(),
                        ),
                    ));
                    assert(other.docs_view().subrange(0, i + 1)[j] == other.docs_view()[j]);
                    assert(lhs[j] == (sources@[j].0@, sources@[j].1));
                    if j < i {
                        assert(pair_views(prev)[j] == doc_score_pairs(
                            self.spec_hashes(),
                            other.docs_view().subrange(0, i as int),
                        )[j]);
                        assert(other.docs_view().subrange(0, i as int)[j] == other.docs_view()[j]);
                    }
                }
                assert(pair_views(sources@) =~~= doc_score_pairs(
                    self.spec_hashes(),
                    other.docs_view().subrange(0, i + 1),
                ));
            }
        }
        proof {
            assert(other.docs_view().subrange(0, n as int) =~= other.docs_view());
        }
        sort_pairs_desc(&mut sources);
        let other_hashes = other.hashes();
        let score = containment_score(&base, &other_hashes);
        MultiDocSimilarity { base: self.name.clone(), against: other.name.clone(), score, sources }
    }
}

/// A submission-level comparison result: the aggregate score plus the
/// ranked per-file breakdown, highest-scoring file first.
pub struct MultiDocSimilarity {
    base: String,
    against: String,
    score: Score,
    sources: Vec<(String, Score)>,
}

impl MultiDocSimilarity {
    pub closed spec fn spec_base(&self) -> Seq<char> {
        self.base@
    }

    pub closed spec fn spec_against(&self) -> Seq<char> {
        self.against@
    }

    pub closed spec fn spec_score(&self) -> Score {
        self.score
    }

    /// The per-file breakdown, as mathematical values.
    pub closed spec fn spec_sources(&self) -> Seq<(Seq<char>, Score)> {
        pair_views(self.sources@)
    }

    /// The breakdown is ranked by descending score.
    pub closed spec fn sources_sorted(&self) -> bool {
        scores_sorted_desc(self.sources@)
    }

    pub fn base(&self) -> (r: &str)
        ensures
            r@ == self.spec_base(),
    {
        self.base.as_str()
    }

    pub fn against(&self) -> (r: &str)
        ensures
            r@ == self.spec_against(),
    {
        self.against.as_str()
    }

    pub fn score(&self) -> (r: Score)
        ensures
            r == self.spec_score(),
    {
        self.score
    }

    /// The top `n` entries of the ranked breakdown (all of them when the
    /// breakdown is shorter).
    pub fn top_n_sources(&self, n: usize) -> (r: Vec<(String, Score)>)
        ensures
            pair_views(r@) == self.spec_sources().subrange(
                0,
                if n <= self.spec_sources().len() {
                    n as int
                } else {
                    self.spec_sources().len() as int
                },
            ),
    {
        let take = if n <= self.sources.len() {
            n
        } else {
            self.sources.len()
        };
        let mut out: Vec<(String, Score)> = Vec::new();
        for i in 0..take
            invariant
                take <= self.sources@.len(),
                out@.len() == i,
                pair_views(out@) == pair_views(self.sources@).subrange(0, i as int),
        {
            let name = self.sources[i].0.clone();
            let score = self.sources[i].1;
            let ghost prev = out@;
            out.push((name, score));
            proof {
                assert(out@.len() == i + 1);
                assert(out@[i as int].0@ == self.sources@[i as int].0@);
                assert(out@[i as int].1 == self.sources@[i as int].1);
                assert(forall|j: int| 0 <= j < i ==> out@[j] == prev[j]);
                assert(forall|j: int|
                    0 <= j < i ==> pair_views(prev)[j] == pair_views(self.sources@).subrange(
                        0,
                        i as int,
                    )[j]);
                assert(pair_views(out@) =~~= pair_views(self.sources@).subrange(0, i + 1));
            }
        }
        proof {
            assert(pair_views(out@) =~= self.spec_sources().subrange(
                0,
                if n <= self.spec_sources().len() {
                    n as int
                } else {
                    self.spec_sources().len() as int
                },
            ));
        }
        out
    }
}

} // verus!
