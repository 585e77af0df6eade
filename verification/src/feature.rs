//! Features and the feature interval index.
//!
//! The index holds, per reference sequence, the intervals of every feature,
//! and answers which features overlap a half-open query interval under the
//! active strand rule.

use vstd::prelude::*;

use crate::strand::{spec_opposite, Strand, StrandSpecification};

verus! {

/// One half-open interval `[start, end)` of a feature (for instance an exon).
#[derive(Clone, Copy, PartialEq, Eq, Structural, Debug)]
pub struct Interval {
    /// Inclusive 0-based start.
    pub start: u64,
    /// Exclusive end.
    pub end: u64,
}

/// An annotated genomic feature: where it lies and on which strand.
///
/// A feature may own several intervals (its exons); their disjoint union
/// length is used for normalization.
#[derive(Clone, Debug)]
pub struct Feature {
    /// Feature identifier.
    pub name: String,
    /// Index into the reference-sequence table.
    pub reference_id: u32,
    /// The annotated strand.
    pub strand: Strand,
    /// The feature's intervals.
    pub intervals: Vec<Interval>,
}

/// Sum of the widths of the first `upto` intervals.
pub open spec fn spec_length_prefix(intervals: Seq<Interval>, upto: int) -> int
    decreases upto,
{
    if upto <= 0 {
        0
    } else {
        spec_length_prefix(intervals, upto - 1) + (intervals[upto - 1].end
            - intervals[upto - 1].start)
    }
}

/// The union length of a feature's disjoint intervals: the sum of their
/// widths, used for normalization.
pub open spec fn spec_union_length(intervals: Seq<Interval>) -> int {
    spec_length_prefix(intervals, intervals.len() as int)
}

impl Feature {
    /// Every interval has its start at or before its end.
    pub open spec fn intervals_wf(self) -> bool {
        forall|i: int|
            0 <= i < self.intervals@.len() ==> (#[trigger] self.intervals@[i]).start
                <= self.intervals@[i].end
    }

    /// The union length of this feature's disjoint intervals; `None` when
    /// the sum does not fit a machine word.
    pub fn union_length(&self) -> (r: Option<u64>)
        requires
            self.intervals_wf(),
        ensures
            match r {
                Some(l) => l == spec_union_length(self.intervals@),
                None => spec_union_length(self.intervals@) > u64::MAX,
            },
    {
        let mut length: u64 = 0;
        let mut i: usize = 0;
        while i < self.intervals.len()
            invariant
                i <= self.intervals@.len(),
                self.intervals_wf(),
                length == spec_length_prefix(self.intervals@, i as int),
            decreases self.intervals@.len() - i,
        {
            let width: u64 = self.intervals[i].end - self.intervals[i].start;
            length = match length.checked_add(width) {
                Some(l) => l,
                None => {
                    proof {
                        lemma_length_prefix_mono(self.intervals@, i + 1,
                            self.intervals@.len() as int);
                    }
                    return None;
                },
            };
            i += 1;
        }
        Some(length)
    }
}

/// Prefix sums of interval widths grow with the prefix.
proof fn lemma_length_prefix_mono(intervals: Seq<Interval>, a: int, b: int)
    requires
        0 <= a <= b <= intervals.len(),
        forall|i: int|
            0 <= i < intervals.len() ==> (#[trigger] intervals[i]).start <= intervals[i].end,
    ensures
        spec_length_prefix(intervals, a) <= spec_length_prefix(intervals, b),
    decreases b - a,
{
    if a < b {
        lemma_length_prefix_mono(intervals, a, b - 1);
    }
}

/// One interval of one feature, as stored in the index.
#[derive(Clone, Copy, PartialEq, Eq, Structural, Debug)]
pub struct IndexEntry {
    /// Inclusive 0-based start.
    pub start: u64,
    /// Exclusive end.
    pub end: u64,
    /// Index of the owning feature in the feature table.
    pub feature: usize,
}

/// Two half-open intervals intersect.
pub open spec fn spec_overlaps(s1: u64, e1: u64, s2: u64, e2: u64) -> bool {
    s1 < e2 && s2 < e1
}

/// The strand rule admits a feature of strand `feature` for a read of strand
/// `read`: unstranded admits all, `Forward` demands the same strand,
/// `Reverse` demands the opposite one.
pub open spec fn spec_strand_permits(
    specification: StrandSpecification,
    read: Strand,
    feature: Strand,
) -> bool {
    match specification {
        StrandSpecification::Unstranded => true,
        StrandSpecification::Forward => feature == read,
        StrandSpecification::Reverse => feature == spec_opposite(read),
    }
}

/// Decides `spec_strand_permits`.
pub fn strand_permits(
    specification: StrandSpecification,
    read: Strand,
    feature: Strand,
) -> (r: bool)
    ensures
        r == spec_strand_permits(specification, read, feature),
{
    match specification {
        StrandSpecification::Unstranded => true,
        StrandSpecification::Forward => match (feature, read) {
            (Strand::Forward, Strand::Forward) => true,
            (Strand::Reverse, Strand::Reverse) => true,
            (Strand::Unknown, Strand::Unknown) => true,
            _ => false,
        },
        StrandSpecification::Reverse => match (feature, read) {
            (Strand::Forward, Strand::Reverse) => true,
            (Strand::Reverse, Strand::Forward) => true,
            (Strand::Unknown, Strand::Unknown) => true,
            _ => false,
        },
    }
}

/// Among the first `upto` intervals there is one equal to `[s, e)`.
pub open spec fn spec_has_interval_prefix(
    intervals: Seq<Interval>,
    upto: int,
    s: u64,
    e: u64,
) -> bool {
    exists|k: int|
        0 <= k < upto && (#[trigger] intervals[k]).start == s && intervals[k].end == e
}

/// Feature `f` of the table owns an interval equal to `[s, e)`.
pub open spec fn spec_feature_has_interval(
    features: Seq<Feature>,
    f: usize,
    s: u64,
    e: u64,
) -> bool {
    spec_has_interval_prefix(
        features[f as int].intervals@,
        features[f as int].intervals@.len() as int,
        s,
        e,
    )
}

/// Some list of `entries` holds an entry `[s, e)` for feature `f` on
/// reference `r`.
pub open spec fn spec_entries_has(
    entries: Seq<Vec<IndexEntry>>,
    r: u32,
    s: u64,
    e: u64,
    f: usize,
) -> bool {
    exists|ri: int, j: int|
        0 <= ri < entries.len() && 0 <= j < entries[ri]@.len() && (#[trigger] entries[ri]@[j]).start
            == s && entries[ri]@[j].end == e && entries[ri]@[j].feature == f && ri == r as int
}

/// The feature interval index: per reference sequence, every interval of
/// every feature, together with each feature's strand.
#[derive(Clone, Debug)]
pub struct FeatureIndex {
    /// Entry lists, indexed by reference id.
    pub entries: Vec<Vec<IndexEntry>>,
    /// Per-feature strands, indexed by feature table position.
    pub strands: Vec<Strand>,
}

impl FeatureIndex {
    /// The number of features the index was built over.
    pub open spec fn spec_feature_count(self) -> nat {
        self.strands@.len()
    }

    /// Every stored entry points into the feature table.
    pub open spec fn wf(self) -> bool {
        forall|r: int, j: int|
            0 <= r < self.entries@.len() && 0 <= j < self.entries@[r]@.len()
                ==> (#[trigger] self.entries@[r]@[j]).feature < self.strands@.len()
    }

    /// The index stores an entry `[s, e)` for feature `f` on reference `r`.
    pub open spec fn spec_has_entry(self, r: u32, s: u64, e: u64, f: usize) -> bool {
        spec_entries_has(self.entries@, r, s, e, f)
    }

    /// Some stored entry of feature `f` on reference `r` overlaps the query.
    pub open spec fn spec_entry_overlap(self, r: u32, start: u64, end: u64, f: usize) -> bool {
        exists|j: int|
            0 <= j < self.entries@[r as int]@.len() && (#[trigger] self.entries@[r as int]@[
                j
            ]).feature == f && spec_overlaps(
                self.entries@[r as int]@[j].start,
                self.entries@[r as int]@[j].end,
                start,
                end,
            )
    }

    /// Feature `f` matches the query: the reference is known to the index,
    /// some interval of `f` on it overlaps `[start, end)`, and the strand
    /// rule admits `f` for the read's strand.
    pub open spec fn spec_matches(
        self,
        reference_id: Option<u32>,
        start: u64,
        end: u64,
        read_strand: Strand,
        specification: StrandSpecification,
        f: usize,
    ) -> bool {
        match reference_id {
            Some(r) => {
                &&& (r as int) < self.entries@.len()
                &&& self.spec_entry_overlap(r, start, end, f)
                &&& f < self.strands@.len()
                &&& spec_strand_permits(specification, read_strand, self.strands@[f as int])
            },
            None => false,
        }
    }

    /// The set of features matching the query.
    pub open spec fn spec_match_set(
        self,
        reference_id: Option<u32>,
        start: u64,
        end: u64,
        read_strand: Strand,
        specification: StrandSpecification,
    ) -> Set<usize> {
        Set::new(
            |f: usize| self.spec_matches(reference_id, start, end, read_strand, specification, f),
        )
    }

    /// Builds the index: groups every interval of every feature by reference
    /// sequence and records each feature's strand.
    ///
    /// References absent from the annotation simply hold no entries; a query
    /// against them returns nothing.
    pub fn build(features: &Vec<Feature>, reference_count: usize) -> (index: FeatureIndex)
        requires
            forall|i: int| 0 <= i < features@.len()
                ==> (#[trigger] features@[i]).reference_id < reference_count,
        ensures
            index.wf(),
            index.entries@.len() == reference_count,
            index.spec_feature_count() == features@.len(),
            forall|i: int| 0 <= i < features@.len()
                ==> index.strands@[i] == (#[trigger] features@[i]).strand,
            forall|r: u32, s: u64, e: u64, f: usize|
                #[trigger] index.spec_has_entry(r, s, e, f) <==> (0 <= f < features@.len()
                    && features@[f as int].reference_id == r && spec_feature_has_interval(
                    features@,
                    f,
                    s,
                    e,
                )),
    {
        let mut entries: Vec<Vec<IndexEntry>> = Vec::new();
        let mut r: usize = 0;
        while r < reference_count
            invariant
                r <= reference_count,
                entries@.len() == r,
                forall|k: int| 0 <= k < r ==> (#[trigger] entries@[k])@.len() == 0,
            decreases reference_count - r,
        {
            entries.push(Vec::new());
            r += 1;
        }

        let mut strands: Vec<Strand> = Vec::new();
        let mut i: usize = 0;
        while i < features.len()
            invariant
                i <= features@.len(),
                strands@.len() == i,
                entries@.len() == reference_count,
                forall|k: int| 0 <= k < i ==> strands@[k] == (#[trigger] features@[k]).strand,
                forall|k: int| 0 <= k < features@.len()
                    ==> (#[trigger] features@[k]).reference_id < reference_count,
                forall|rr: int, j: int|
                    0 <= rr < entries@.len() && 0 <= j < entries@[rr]@.len()
                        ==> (#[trigger] entries@[rr]@[j]).feature < i,
                forall|rr: u32, s: u64, e: u64, f: usize|
                    #[trigger] spec_entries_has(entries@, rr, s, e, f) <==> (0 <= f < i
                        && features@[f as int].reference_id == rr && spec_feature_has_interval(
                        features@,
                        f,
                        s,
                        e,
                    )),
            decreases features@.len() - i,
        {
            let feature = &features[i];
            strands.push(feature.strand);
            let reference_id: usize = feature.reference_id as usize;

            let mut j: usize = 0;
            while j < feature.intervals.len()
                invariant
                    j <= feature.intervals@.len(),
                    i < features@.len(),
                    feature == features@[i as int],
                    entries@.len() == reference_count,
                    feature.reference_id < reference_count,
                    reference_id == feature.reference_id as int,
                    forall|rr: int, jj: int|
                        0 <= rr < entries@.len() && 0 <= jj < entries@[rr]@.len()
                            ==> (#[trigger] entries@[rr]@[jj]).feature <= i,
                    forall|rr: u32, s: u64, e: u64, f: usize|
                        #[trigger] spec_entries_has(entries@, rr, s, e, f) <==> ((0 <= f < i
                            && features@[f as int].reference_id == rr && spec_feature_has_interval(
                            features@,
                            f,
                            s,
                            e,
                        )) || (f == i && rr == feature.reference_id && spec_has_interval_prefix(
                            feature.intervals@,
                            j as int,
                            s,
                            e,
                        ))),
                decreases feature.intervals@.len() - j,
            {
                let interval = feature.intervals[j];
                let entry = IndexEntry { start: interval.start, end: interval.end, feature: i };
                let ghost before = entries@;
                entries[reference_id].push(entry);
                proof {
                    assert(entries@[reference_id as int]@ =~= before[reference_id as int]@.push(
                        entry,
                    ));
                    assert forall|rr: u32, s: u64, e: u64, f: usize|
                        #[trigger] spec_entries_has(entries@, rr, s, e, f) implies
                        spec_entries_has(before, rr, s, e, f) || (rr == feature.reference_id && s
                            == entry.start && e == entry.end && f == i) by {
                        let (ri, jj): (int, int) = choose|ri: int, jj: int|
                            0 <= ri < entries@.len() && 0 <= jj < entries@[ri]@.len()
                                && (#[trigger] entries@[ri]@[jj]).start == s
                                && entries@[ri]@[jj].end == e && entries@[ri]@[jj].feature == f
                                && ri == rr as int;
                        if ri == reference_id as int && jj == before[ri]@.len() as int {
                        } else {
                            assert(before[ri]@[jj].start == s && before[ri]@[jj].end == e
                                && before[ri]@[jj].feature == f);
                        }
                    }
                    assert forall|rr: u32, s: u64, e: u64, f: usize|
                        spec_entries_has(before, rr, s, e, f) implies #[trigger] spec_entries_has(
                        entries@,
                        rr,
                        s,
                        e,
                        f,
                    ) by {
                        let (ri, jj): (int, int) = choose|ri: int, jj: int|
                            0 <= ri < before.len() && 0 <= jj < before[ri]@.len()
                                && (#[trigger] before[ri]@[jj]).start == s && before[ri]@[jj].end
                                == e && before[ri]@[jj].feature == f && ri == rr as int;
                        assert(entries@[ri]@[jj].start == s && entries@[ri]@[jj].end == e
                            && entries@[ri]@[jj].feature == f);
                    }
                    assert(spec_entries_has(
                        entries@,
                        feature.reference_id,
                        entry.start,
                        entry.end,
                        i,
                    )) by {
                        let ri: int = reference_id as int;
                        let jj: int = before[ri]@.len() as int;
                        assert(entries@[ri]@[jj] == entry);
                    }
                    assert(spec_has_interval_prefix(feature.intervals@, j + 1, entry.start,
                        entry.end)) by {
                        assert(feature.intervals@[j as int].start == entry.start);
                    }
                }
                j += 1;
            }
            i += 1;
        }

        FeatureIndex { entries, strands }
    }

    /// An entry that overlaps the query and whose feature's strand the rule
    /// admits witnesses a match.
    proof fn lemma_entry_matches(
        self,
        reference_id: Option<u32>,
        r: u32,
        start: u64,
        end: u64,
        read_strand: Strand,
        specification: StrandSpecification,
        j: int,
    )
        requires
            self.wf(),
            reference_id == Some(r),
            (r as int) < self.entries@.len(),
            0 <= j < self.entries@[r as int]@.len(),
            spec_overlaps(
                self.entries@[r as int]@[j].start,
                self.entries@[r as int]@[j].end,
                start,
                end,
            ),
            spec_strand_permits(
                specification,
                read_strand,
                self.strands@[self.entries@[r as int]@[j].feature as int],
            ),
        ensures
            self.spec_matches(
                reference_id,
                start,
                end,
                read_strand,
                specification,
                self.entries@[r as int]@[j].feature,
            ),
    {
        let f = self.entries@[r as int]@[j].feature;
        assert(self.spec_entry_overlap(r, start, end, f)) by {
            assert(0 <= j < self.entries@[r as int]@.len() && (self.entries@[r as int]@[
                j
            ]).feature == f && spec_overlaps(
                self.entries@[r as int]@[j].start,
                self.entries@[r as int]@[j].end,
                start,
                end,
            ));
        }
    }

    /// The features overlapping `[start, end)` on the given reference, under
    /// the strand rule: each matching feature exactly once, in no promised
    /// order. An unknown or absent reference yields the empty set.
    pub fn query(
        &self,
        reference_id: Option<u32>,
        start: u64,
        end: u64,
        read_strand: Strand,
        specification: StrandSpecification,
    ) -> (matches: Vec<usize>)
        requires
            self.wf(),
        ensures
            forall|f: usize| matches@.contains(f) <==> self.spec_matches(
                reference_id,
                start,
                end,
                read_strand,
                specification,
                f,
            ),
            forall|a: int, b: int| 0 <= a < b < matches@.len() ==> matches@[a] != matches@[b],
            forall|a: int| 0 <= a < matches@.len() ==> (#[trigger] matches@[a])
                < self.strands@.len(),
    {
        let mut found: Vec<usize> = Vec::new();
        let r: u32 = match reference_id {
            Some(r) => r,
            None => {
                return found;
            },
        };
        let ri: usize = r as usize;
        if ri >= self.entries.len() {
            return found;
        }

        let list = &self.entries[ri];
        let n: usize = list.len();
        let mut j: usize = 0;
        while j < n
            invariant
                j <= n,
                n == list@.len(),
                list == self.entries@[ri as int],
                ri < self.entries@.len(),
                reference_id == Some(r),
                ri == r as int,
                self.wf(),
                forall|a: int, b: int| 0 <= a < b < found@.len() ==> found@[a] != found@[b],
                forall|a: int| 0 <= a < found@.len() ==> (#[trigger] found@[a])
                    < self.strands@.len(),
                forall|f: usize| found@.contains(f) ==> self.spec_matches(
                    reference_id,
                    start,
                    end,
                    read_strand,
                    specification,
                    f,
                ),
                forall|jj: int|
                    0 <= jj < j && spec_overlaps(
                        (#[trigger] list@[jj]).start,
                        list@[jj].end,
                        start,
                        end,
                    ) && spec_strand_permits(
                        specification,
                        read_strand,
                        self.strands@[list@[jj].feature as int],
                    ) ==> found@.contains(list@[jj].feature),
            decreases n - j,
        {
            let entry = list[j];
            if entry.start < end && start < entry.end {
                if strand_permits(specification, read_strand, self.strands[entry.feature]) {
                    if !contains_value(&found, entry.feature) {
                        let ghost pre = found@;
                        found.push(entry.feature);
                        proof {
                            assert(found@ =~= pre.push(entry.feature));
                            assert(list@ == self.entries@[r as int]@);
                            assert(self.entries@[r as int]@[j as int] == entry);
                            self.lemma_entry_matches(
                                reference_id,
                                r,
                                start,
                                end,
                                read_strand,
                                specification,
                                j as int,
                            );
                            assert(found@.contains(entry.feature)) by {
                                assert(found@[pre.len() as int] == entry.feature);
                            }
                            assert forall|f: usize| found@.contains(f) implies pre.contains(f) || f
                                == entry.feature by {
                                let k: int = choose|k: int|
                                    0 <= k < found@.len() && found@[k] == f;
                                if k < pre.len() {
                                    assert(pre[k] == f);
                                }
                            }
                            assert forall|f: usize| pre.contains(f) implies found@.contains(f) by {
                                let k: int = choose|k: int| 0 <= k < pre.len() && pre[k] == f;
                                assert(found@[k] == f);
                            }
                            assert forall|a: int| 0 <= a < pre.len() implies found@[a]
                                != entry.feature by {
                                if found@[a] == entry.feature {
                                    assert(pre[a] == entry.feature);
                                    assert(pre.contains(entry.feature));
                                }
                            }
                            assert forall|f: usize| found@.contains(f) implies self.spec_matches(
                                reference_id,
                                start,
                                end,
                                read_strand,
                                specification,
                                f,
                            ) by {
                                if f != entry.feature {
                                    assert(pre.contains(f));
                                }
                            }
                        }
                    }
                }
            }
            j += 1;
        }
        proof {
            assert forall|f: usize|
                self.spec_matches(reference_id, start, end, read_strand, specification, f)
                implies found@.contains(f) by {
                let jj: int = choose|jj: int|
                    0 <= jj < list@.len() && (#[trigger] list@[jj]).feature == f && spec_overlaps(
                        list@[jj].start,
                        list@[jj].end,
                        start,
                        end,
                    );
            }
        }
        found
    }
}

/// Linear membership test.
fn contains_value(values: &Vec<usize>, target: usize) -> (r: bool)
    ensures
        r == values@.contains(target),
{
    let mut i: usize = 0;
    while i < values.len()
        invariant
            i <= values@.len(),
            forall|k: int| 0 <= k < i ==> values@[k] != target,
        decreases values@.len() - i,
    {
        if values[i] == target {
            return true;
        }
        i += 1;
    }
    proof {
        assert(!values@.contains(target));
    }
    false
}

} // verus!
