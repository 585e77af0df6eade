//! Events and the aggregation context.
//!
//! A `Context` tallies per-feature counts and one counter per discard
//! category, plus a total-processed counter. Its invariant — the total
//! equals the sum of every bucket — is the conservation law of a run.

use vstd::prelude::*;

verus! {

/// The disposition of one record or pair.
#[derive(Clone, Copy, PartialEq, Eq, Structural, Debug)]
pub enum Event {
    /// The record (or both mates) carried the unmapped flag.
    Unmapped,
    /// A secondary or supplementary alignment excluded by configuration.
    Skip,
    /// The multi-hit tag reported more than one hit and nonunique records
    /// are disallowed.
    Nonunique,
    /// Mapping quality below the configured threshold.
    LowQuality,
    /// No feature overlaps the alignment span under the active strand rule.
    NoFeature,
    /// Two or more distinct features overlap under the active strand rule.
    Ambiguous,
    /// Exactly one distinct feature overlaps: the read counts toward it.
    Assigned(usize),
}

/// The mathematical value of a context: unbounded integers.
#[verifier::ext_equal]
pub struct ContextModel {
    /// Per-feature assigned counts, indexed like the feature table.
    pub counts: Seq<int>,
    /// Records discarded as unmapped.
    pub unmapped: int,
    /// Records discarded as excluded secondary/supplementary alignments.
    pub skip: int,
    /// Records discarded as nonunique.
    pub nonunique: int,
    /// Records discarded for low mapping quality.
    pub low_quality: int,
    /// Records overlapping no feature.
    pub no_feature: int,
    /// Records overlapping several distinct features.
    pub ambiguous: int,
    /// Every record processed, whatever its outcome.
    pub total: int,
}

/// Sum of a sequence of integers.
pub open spec fn seq_sum(s: Seq<int>) -> int
    decreases s.len(),
{
    if s.len() == 0 {
        0
    } else {
        seq_sum(s.drop_last()) + s.last()
    }
}

/// In a sequence of non-negative integers, each element bounds below the sum.
pub proof fn lemma_seq_sum_element_bound(s: Seq<int>, k: int)
    requires
        forall|i: int| 0 <= i < s.len() ==> s[i] >= 0,
        0 <= k < s.len(),
    ensures
        s[k] <= seq_sum(s),
        seq_sum(s) >= 0,
    decreases s.len(),
{
    if s.len() > 0 {
        if k == s.len() - 1 {
            lemma_seq_sum_nonneg(s.drop_last());
        } else {
            lemma_seq_sum_element_bound(s.drop_last(), k);
        }
    }
}

/// A sum of non-negative integers is non-negative.
pub proof fn lemma_seq_sum_nonneg(s: Seq<int>)
    requires
        forall|i: int| 0 <= i < s.len() ==> s[i] >= 0,
    ensures
        seq_sum(s) >= 0,
    decreases s.len(),
{
    if s.len() > 0 {
        lemma_seq_sum_nonneg(s.drop_last());
    }
}

/// Updating one element changes the sum by the difference.
pub proof fn lemma_seq_sum_update(s: Seq<int>, k: int, v: int)
    requires
        0 <= k < s.len(),
    ensures
        seq_sum(s.update(k, v)) == seq_sum(s) - s[k] + v,
    decreases s.len(),
{
    if k == s.len() - 1 {
        assert(s.update(k, v).drop_last() =~= s.drop_last());
        assert(s.update(k, v).last() == v);
    } else {
        assert(s.update(k, v).drop_last() =~= s.drop_last().update(k, v));
        lemma_seq_sum_update(s.drop_last(), k, v);
    }
}

/// The sum of a pointwise sum of two sequences is the sum of their sums.
pub proof fn lemma_seq_sum_pointwise_add(a: Seq<int>, b: Seq<int>)
    requires
        a.len() == b.len(),
    ensures
        seq_sum(Seq::new(a.len(), |i: int| a[i] + b[i])) == seq_sum(a) + seq_sum(b),
    decreases a.len(),
{
    if a.len() > 0 {
        let c = Seq::new(a.len(), |i: int| a[i] + b[i]);
        assert(c.drop_last() =~= Seq::new(
            a.drop_last().len(),
            |i: int| a.drop_last()[i] + b.drop_last()[i],
        ));
        lemma_seq_sum_pointwise_add(a.drop_last(), b.drop_last());
    }
}

/// A sequence of zeros sums to zero.
pub proof fn lemma_seq_sum_zeros(s: Seq<int>)
    requires
        forall|i: int| 0 <= i < s.len() ==> s[i] == 0,
    ensures
        seq_sum(s) == 0,
    decreases s.len(),
{
    if s.len() > 0 {
        lemma_seq_sum_zeros(s.drop_last());
    }
}

impl ContextModel {
    /// A fresh model over `feature_count` features.
    pub open spec fn empty(feature_count: nat) -> ContextModel {
        ContextModel {
            counts: Seq::new(feature_count, |i: int| 0),
            unmapped: 0,
            skip: 0,
            nonunique: 0,
            low_quality: 0,
            no_feature: 0,
            ambiguous: 0,
            total: 0,
        }
    }

    /// Every bucket is non-negative.
    pub open spec fn nonneg(self) -> bool {
        &&& forall|i: int| 0 <= i < self.counts.len() ==> self.counts[i] >= 0
        &&& self.unmapped >= 0
        &&& self.skip >= 0
        &&& self.nonunique >= 0
        &&& self.low_quality >= 0
        &&& self.no_feature >= 0
        &&& self.ambiguous >= 0
    }

    /// Conservation: the total-processed counter equals the sum of the
    /// assigned counts and every discard counter.
    pub open spec fn conserved(self) -> bool {
        self.total == seq_sum(self.counts) + self.unmapped + self.skip + self.nonunique
            + self.low_quality + self.no_feature + self.ambiguous
    }

    /// The model after recording one event.
    pub open spec fn record(self, e: Event) -> ContextModel {
        let bumped = ContextModel { total: self.total + 1, ..self };
        match e {
            Event::Unmapped => ContextModel { unmapped: self.unmapped + 1, ..bumped },
            Event::Skip => ContextModel { skip: self.skip + 1, ..bumped },
            Event::Nonunique => ContextModel { nonunique: self.nonunique + 1, ..bumped },
            Event::LowQuality => ContextModel { low_quality: self.low_quality + 1, ..bumped },
            Event::NoFeature => ContextModel { no_feature: self.no_feature + 1, ..bumped },
            Event::Ambiguous => ContextModel { ambiguous: self.ambiguous + 1, ..bumped },
            Event::Assigned(f) => ContextModel {
                counts: self.counts.update(f as int, self.counts[f as int] + 1),
                ..bumped
            },
        }
    }

    /// Pointwise sum of two models over the same feature table.
    pub open spec fn merged(self, other: ContextModel) -> ContextModel {
        ContextModel {
            counts: Seq::new(self.counts.len(), |i: int| self.counts[i] + other.counts[i]),
            unmapped: self.unmapped + other.unmapped,
            skip: self.skip + other.skip,
            nonunique: self.nonunique + other.nonunique,
            low_quality: self.low_quality + other.low_quality,
            no_feature: self.no_feature + other.no_feature,
            ambiguous: self.ambiguous + other.ambiguous,
            total: self.total + other.total,
        }
    }
}

/// Recording preserves conservation and non-negativity.
pub proof fn lemma_record_conserved(c: ContextModel, e: Event)
    requires
        c.conserved(),
        c.nonneg(),
        e matches Event::Assigned(f) ==> 0 <= f < c.counts.len(),
    ensures
        c.record(e).conserved(),
        c.record(e).nonneg(),
        c.record(e).counts.len() == c.counts.len(),
        c.record(e).total == c.total + 1,
{
    match e {
        Event::Assigned(f) => {
            lemma_seq_sum_update(c.counts, f as int, c.counts[f as int] + 1);
        },
        _ => {},
    }
}

/// Merging preserves conservation and non-negativity, and adds the totals.
pub proof fn lemma_merged_conserved(a: ContextModel, b: ContextModel)
    requires
        a.conserved(),
        b.conserved(),
        a.nonneg(),
        b.nonneg(),
        a.counts.len() == b.counts.len(),
    ensures
        a.merged(b).conserved(),
        a.merged(b).nonneg(),
        a.merged(b).counts.len() == a.counts.len(),
        a.merged(b).total == a.total + b.total,
{
    lemma_seq_sum_pointwise_add(a.counts, b.counts);
}

/// The aggregation target of a counting run.
///
/// `counts` is indexed like the feature table the run was made over.
#[derive(Clone, Debug)]
pub struct Context {
    /// Per-feature assigned counts.
    pub counts: Vec<u64>,
    /// Records discarded as unmapped.
    pub unmapped: u64,
    /// Records discarded as excluded secondary/supplementary alignments.
    pub skip: u64,
    /// Records discarded as nonunique.
    pub nonunique: u64,
    /// Records discarded for low mapping quality.
    pub low_quality: u64,
    /// Records overlapping no feature.
    pub no_feature: u64,
    /// Records overlapping several distinct features.
    pub ambiguous: u64,
    /// Every record processed, whatever its outcome.
    pub total: u64,
}

impl View for Context {
    type V = ContextModel;

    open spec fn view(&self) -> ContextModel {
        ContextModel {
            counts: self.counts@.map_values(|v: u64| v as int),
            unmapped: self.unmapped as int,
            skip: self.skip as int,
            nonunique: self.nonunique as int,
            low_quality: self.low_quality as int,
            no_feature: self.no_feature as int,
            ambiguous: self.ambiguous as int,
            total: self.total as int,
        }
    }
}

impl Context {
    /// A context is well formed when it is conserved; non-negativity holds
    /// by construction of the machine integers.
    pub open spec fn wf(self) -> bool {
        self@.conserved()
    }

    /// A fresh context over `feature_count` features: all buckets zero.
    pub fn new(feature_count: usize) -> (c: Context)
        ensures
            c@ == ContextModel::empty(feature_count as nat),
            c.wf(),
    {
        let mut counts: Vec<u64> = Vec::new();
        let mut i: usize = 0;
        while i < feature_count
            invariant
                i <= feature_count,
                counts@.len() == i,
                forall|j: int| 0 <= j < i ==> counts@[j] == 0,
            decreases feature_count - i,
        {
            counts.push(0);
            i += 1;
        }
        let c = Context {
            counts,
            unmapped: 0,
            skip: 0,
            nonunique: 0,
            low_quality: 0,
            no_feature: 0,
            ambiguous: 0,
            total: 0,
        };
        proof {
            assert(c@.counts =~= ContextModel::empty(feature_count as nat).counts);
            lemma_seq_sum_zeros(c@.counts);
        }
        c
    }

    /// Records one event: bumps its bucket and the total.
    pub fn add_event(&mut self, e: Event)
        requires
            old(self).wf(),
            old(self)@.total < u64::MAX,
            e matches Event::Assigned(f) ==> 0 <= f < old(self).counts@.len(),
        ensures
            final(self).wf(),
            final(self)@ == old(self)@.record(e),
    {
        proof {
            if let Event::Assigned(f) = e {
                lemma_seq_sum_element_bound(self@.counts, f as int);
            }
            lemma_seq_sum_nonneg(self@.counts);
        }
        match e {
            Event::Unmapped => {
                self.unmapped = self.unmapped + 1;
            },
            Event::Skip => {
                self.skip = self.skip + 1;
            },
            Event::Nonunique => {
                self.nonunique = self.nonunique + 1;
            },
            Event::LowQuality => {
                self.low_quality = self.low_quality + 1;
            },
            Event::NoFeature => {
                self.no_feature = self.no_feature + 1;
            },
            Event::Ambiguous => {
                self.ambiguous = self.ambiguous + 1;
            },
            Event::Assigned(f) => {
                let c: u64 = self.counts[f];
                self.counts.set(f, c + 1);
            },
        }
        self.total = self.total + 1;
        proof {
            if let Event::Assigned(f) = e {
                assert(self@.counts =~= old(self)@.counts.update(
                    f as int,
                    old(self)@.counts[f as int] + 1,
                ));
                lemma_seq_sum_update(old(self)@.counts, f as int, old(self)@.counts[f as int] + 1);
            } else {
                assert(self@.counts =~= old(self)@.counts);
            }
            assert(self@ =~= old(self)@.record(e));
        }
    }

    /// Merges another context into this one by pointwise summation.
    pub fn merge(&mut self, other: &Context)
        requires
            old(self).wf(),
            other.wf(),
            old(self).counts@.len() == other.counts@.len(),
            old(self)@.total + other@.total <= u64::MAX,
        ensures
            final(self).wf(),
            final(self)@ == old(self)@.merged(other@),
    {
        proof {
            lemma_seq_sum_nonneg(self@.counts);
            lemma_seq_sum_nonneg(other@.counts);
        }
        let n: usize = self.counts.len();
        let mut i: usize = 0;
        while i < n
            invariant
                i <= n,
                n == self.counts@.len(),
                n == other.counts@.len(),
                n == old(self).counts@.len(),
                self.unmapped == old(self).unmapped,
                self.skip == old(self).skip,
                self.nonunique == old(self).nonunique,
                self.low_quality == old(self).low_quality,
                self.no_feature == old(self).no_feature,
                self.ambiguous == old(self).ambiguous,
                self.total == old(self).total,
                forall|j: int| 0 <= j < i ==> self.counts@[j]
                    == old(self).counts@[j] + other.counts@[j],
                forall|j: int| i <= j < n ==> self.counts@[j] == old(self).counts@[j],
                old(self)@.total + other@.total <= u64::MAX,
                old(self)@.conserved(),
                other@.conserved(),
            decreases n - i,
        {
            proof {
                lemma_seq_sum_element_bound(old(self)@.counts, i as int);
                lemma_seq_sum_element_bound(other@.counts, i as int);
                lemma_seq_sum_nonneg(old(self)@.counts);
                lemma_seq_sum_nonneg(other@.counts);
            }
            let a: u64 = self.counts[i];
            let b: u64 = other.counts[i];
            self.counts.set(i, a + b);
            i += 1;
        }
        proof {
            lemma_merge_counters_bounded(old(self)@, other@);
        }
        self.unmapped = self.unmapped + other.unmapped;
        self.skip = self.skip + other.skip;
        self.nonunique = self.nonunique + other.nonunique;
        self.low_quality = self.low_quality + other.low_quality;
        self.no_feature = self.no_feature + other.no_feature;
        self.ambiguous = self.ambiguous + other.ambiguous;
        self.total = self.total + other.total;
        proof {
            assert(self@.counts =~= old(self)@.merged(other@).counts);
            lemma_merged_conserved(old(self)@, other@);
            assert(self@ =~= old(self)@.merged(other@));
        }
    }
}

/// The counts of a context in a caller-chosen feature order, as the rows of
/// the counts output are laid out.
pub fn ordered_counts(ctx: &Context, order: &Vec<usize>) -> (rows: Vec<u64>)
    requires
        forall|i: int| 0 <= i < order@.len() ==> (#[trigger] order@[i]) < ctx.counts@.len(),
    ensures
        rows@.len() == order@.len(),
        forall|i: int| 0 <= i < order@.len() ==> (#[trigger] rows@[i]) == ctx.counts@[order@[
            i
        ] as int],
{
    let mut rows: Vec<u64> = Vec::new();
    let mut i: usize = 0;
    while i < order.len()
        invariant
            i <= order@.len(),
            rows@.len() == i,
            forall|j: int| 0 <= j < order@.len() ==> (#[trigger] order@[j]) < ctx.counts@.len(),
            forall|j: int| 0 <= j < i ==> (#[trigger] rows@[j]) == ctx.counts@[order@[j] as int],
        decreases order@.len() - i,
    {
        rows.push(ctx.counts[order[i]]);
        i += 1;
    }
    rows
}

/// Each scalar counter of a conserved, non-negative model is bounded by its
/// total, so merging two contexts whose totals fit in a machine word is safe.
proof fn lemma_merge_counters_bounded(a: ContextModel, b: ContextModel)
    requires
        a.conserved(),
        b.conserved(),
        a.nonneg(),
        b.nonneg(),
    ensures
        a.unmapped + b.unmapped <= a.total + b.total,
        a.skip + b.skip <= a.total + b.total,
        a.nonunique + b.nonunique <= a.total + b.total,
        a.low_quality + b.low_quality <= a.total + b.total,
        a.no_feature + b.no_feature <= a.total + b.total,
        a.ambiguous + b.ambiguous <= a.total + b.total,
{
    lemma_seq_sum_nonneg(a.counts);
    lemma_seq_sum_nonneg(b.counts);
}

} // verus!
