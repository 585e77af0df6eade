//! Library-layout and strand-specification detection.
//!
//! The detector looks at a bounded sample of the alignment stream: the
//! paired flag decides the layout, and each sampled read overlapping exactly
//! one feature votes for the strand relationship its alignment shows. It
//! never fails on ambiguous data; a weak majority only lowers the reported
//! confidence.

use vstd::prelude::*;

use crate::feature::FeatureIndex;
use crate::record::{spec_read_strand, Record};
use crate::strand::{spec_opposite, LibraryLayout, Strand, StrandSpecification};

verus! {

/// The majority share a strand call must reach, as the exact fraction
/// `numerator / denominator`; a tunable constant of the caller.
#[derive(Clone, Copy, PartialEq, Eq, Structural, Debug)]
pub struct DetectionThreshold {
    /// Numerator of the deciding fraction.
    pub numerator: u64,
    /// Denominator of the deciding fraction, at least one.
    pub denominator: u64,
}

/// What detection reports: the layout, the strand call, and the vote counts
/// whose quotient `agreements / usable` is the confidence (zero when no read
/// was usable).
#[derive(Clone, Copy, PartialEq, Eq, Structural, Debug)]
pub struct Detection {
    /// Single-end or paired-end.
    pub layout: LibraryLayout,
    /// The detected strand specification.
    pub specification: StrandSpecification,
    /// Sampled reads agreeing with the majority call.
    pub agreements: u64,
    /// Sampled reads that were usable: mapped, overlapping exactly one
    /// feature, on a feature of known strand.
    pub usable: u64,
}

/// Some sampled record carries the paired flag.
pub open spec fn spec_any_paired(records: Seq<Record>) -> bool {
    exists|i: int| 0 <= i < records.len() && (#[trigger] records[i]).flags.paired
}

/// The record is mapped and overlaps exactly one feature, strand ignored.
pub open spec fn spec_single_overlap(features: FeatureIndex, r: Record) -> bool {
    let ms = features.spec_match_set(
        r.reference_id,
        r.start,
        r.end,
        spec_read_strand(r),
        StrandSpecification::Unstranded,
    );
    &&& !r.flags.unmapped
    &&& exists|f: usize|
        #[trigger] ms.contains(f) && (forall|g: usize| #[trigger] ms.contains(g) ==> g == f)
}

/// The strand of the one feature the record overlaps.
pub open spec fn spec_single_overlap_strand(features: FeatureIndex, r: Record) -> Strand {
    let ms = features.spec_match_set(
        r.reference_id,
        r.start,
        r.end,
        spec_read_strand(r),
        StrandSpecification::Unstranded,
    );
    features.strands@[ms.choose() as int]
}

/// The record votes forward: its alignment strand equals its one feature's.
pub open spec fn spec_votes_forward(features: FeatureIndex, r: Record) -> bool {
    spec_single_overlap(features, r) && spec_single_overlap_strand(features, r)
        == spec_read_strand(r)
}

/// The record votes reverse: its alignment strand opposes its one feature's.
pub open spec fn spec_votes_reverse(features: FeatureIndex, r: Record) -> bool {
    spec_single_overlap(features, r) && spec_single_overlap_strand(features, r) == spec_opposite(
        spec_read_strand(r),
    )
}

/// Forward votes among the first `upto` sampled records.
pub open spec fn spec_forward_votes(features: FeatureIndex, records: Seq<Record>, upto: int) -> int
    decreases upto,
{
    if upto <= 0 {
        0
    } else {
        spec_forward_votes(features, records, upto - 1) + (if spec_votes_forward(
            features,
            records[upto - 1],
        ) {
            1int
        } else {
            0int
        })
    }
}

/// Reverse votes among the first `upto` sampled records.
pub open spec fn spec_reverse_votes(features: FeatureIndex, records: Seq<Record>, upto: int) -> int
    decreases upto,
{
    if upto <= 0 {
        0
    } else {
        spec_reverse_votes(features, records, upto - 1) + (if spec_votes_reverse(
            features,
            records[upto - 1],
        ) {
            1int
        } else {
            0int
        })
    }
}

/// The strand call the votes and the threshold decide: a direction whose
/// share of the usable reads reaches the threshold wins, forward first;
/// otherwise the sample is called unstranded.
pub open spec fn spec_strand_call(fwd: int, rev: int, threshold: DetectionThreshold) -> StrandSpecification {
    let usable = fwd + rev;
    if usable > 0 && fwd * threshold.denominator >= threshold.numerator * usable {
        StrandSpecification::Forward
    } else if usable > 0 && rev * threshold.denominator >= threshold.numerator * usable {
        StrandSpecification::Reverse
    } else {
        StrandSpecification::Unstranded
    }
}

/// Detects library layout and strand specification from a sample of the
/// alignment stream.
///
/// The layout is paired-end exactly when some sampled record carries the
/// paired flag. Each mapped record overlapping exactly one feature of known
/// strand votes forward or reverse; the call follows `spec_strand_call`, and
/// `agreements / usable` is the confidence of the majority direction.
pub fn detect_specification(
    records: &Vec<Record>,
    features: &FeatureIndex,
    threshold: DetectionThreshold,
) -> (d: Detection)
    requires
        features.wf(),
        threshold.denominator >= 1,
    ensures
        (d.layout == LibraryLayout::PairedEnd) <==> spec_any_paired(records@),
        d.usable == spec_forward_votes(*features, records@, records@.len() as int)
            + spec_reverse_votes(*features, records@, records@.len() as int),
        d.agreements == (if spec_forward_votes(*features, records@, records@.len() as int)
            >= spec_reverse_votes(*features, records@, records@.len() as int) {
            spec_forward_votes(*features, records@, records@.len() as int)
        } else {
            spec_reverse_votes(*features, records@, records@.len() as int)
        }),
        d.specification == spec_strand_call(
            spec_forward_votes(*features, records@, records@.len() as int),
            spec_reverse_votes(*features, records@, records@.len() as int),
            threshold,
        ),
{
    let mut paired = false;
    let mut fwd: u64 = 0;
    let mut rev: u64 = 0;
    let mut i: usize = 0;
    while i < records.len()
        invariant
            i <= records@.len(),
            features.wf(),
            paired <==> spec_any_paired(records@.take(i as int)),
            fwd == spec_forward_votes(*features, records@, i as int),
            rev == spec_reverse_votes(*features, records@, i as int),
            fwd + rev <= i,
        decreases records@.len() - i,
    {
        let record = &records[i];
        if record.flags.paired {
            paired = true;
        }
        proof {
            if record.flags.paired {
                assert(records@.take(i + 1)[i as int].flags.paired);
            }
            if spec_any_paired(records@.take(i + 1)) {
                let k = choose|k: int|
                    0 <= k < records@.take(i + 1).len() && (#[trigger] records@.take(i + 1)[
                        k
                    ]).flags.paired;
                if k < i {
                    assert(records@.take(i as int)[k].flags.paired);
                }
            }
            if spec_any_paired(records@.take(i as int)) {
                let k = choose|k: int|
                    0 <= k < records@.take(i as int).len() && (#[trigger] records@.take(i as int)[
                        k
                    ]).flags.paired;
                assert(records@.take(i + 1)[k].flags.paired);
            }
        }

        let ghost ms = features.spec_match_set(
            record.reference_id,
            record.start,
            record.end,
            spec_read_strand(*record),
            StrandSpecification::Unstranded,
        );
        if !record.flags.unmapped {
            let found = features.query(
                record.reference_id,
                record.start,
                record.end,
                record.read_strand(),
                StrandSpecification::Unstranded,
            );
            proof {
                assert(forall|f: usize| #[trigger] ms.contains(f) <==> found@.contains(f));
            }
            if found.len() == 1 {
                let f0 = found[0];
                proof {
                    assert(found@.contains(f0)) by {
                        assert(found@[0] == f0);
                    }
                    assert(ms.contains(f0));
                    assert forall|g: usize| #[trigger] ms.contains(g) implies g == f0 by {
                        let k = choose|k: int| 0 <= k < found@.len() && found@[k] == g;
                        assert(k == 0);
                    }
                    assert(spec_single_overlap(*features, *record));
                    assert(ms.contains(ms.choose()));
                    assert(ms.choose() == f0);
                }
                let feature_strand = strand_of(features, f0);
                let read_strand = record.read_strand();
                match (feature_strand, read_strand) {
                    (Strand::Forward, Strand::Forward) | (Strand::Reverse, Strand::Reverse) => {
                        proof {
                            assert(spec_votes_forward(*features, *record));
                            assert(!spec_votes_reverse(*features, *record));
                        }
                        fwd = fwd + 1;
                    },
                    (Strand::Forward, Strand::Reverse) | (Strand::Reverse, Strand::Forward) => {
                        proof {
                            assert(spec_votes_reverse(*features, *record));
                            assert(!spec_votes_forward(*features, *record));
                        }
                        rev = rev + 1;
                    },
                    _ => {
                        proof {
                            assert(!spec_votes_forward(*features, *record));
                            assert(!spec_votes_reverse(*features, *record));
                        }
                    },
                }
            } else {
                proof {
                    lemma_not_single_overlap(*features, *record, found@);
                }
            }
        } else {
            proof {
                assert(!spec_votes_forward(*features, *record));
                assert(!spec_votes_reverse(*features, *record));
            }
        }
        i += 1;
    }
    proof {
        assert(records@.take(i as int) =~= records@);
    }

    let usable: u64 = fwd + rev;
    let agreements: u64 = if fwd >= rev {
        fwd
    } else {
        rev
    };
    proof {
        assert((fwd as int) * (threshold.denominator as int) <= u128::MAX
            && (rev as int) * (threshold.denominator as int) <= u128::MAX
            && (threshold.numerator as int) * (usable as int) <= u128::MAX) by (nonlinear_arith)
            requires
                0 <= fwd <= u64::MAX,
                0 <= rev <= u64::MAX,
                0 <= usable <= u64::MAX,
                0 <= threshold.numerator <= u64::MAX,
                0 <= threshold.denominator <= u64::MAX,
        ;
    }
    let specification: StrandSpecification = if usable > 0 && (fwd as u128) * (threshold.denominator
        as u128) >= (threshold.numerator as u128) * (usable as u128) {
        StrandSpecification::Forward
    } else if usable > 0 && (rev as u128) * (threshold.denominator as u128) >= (threshold.numerator
        as u128) * (usable as u128) {
        StrandSpecification::Reverse
    } else {
        StrandSpecification::Unstranded
    };
    let layout: LibraryLayout = if paired {
        LibraryLayout::PairedEnd
    } else {
        LibraryLayout::SingleEnd
    };
    Detection { layout, specification, agreements, usable }
}

/// Reads one feature's strand from the index table.
fn strand_of(features: &FeatureIndex, f: usize) -> (s: Strand)
    requires
        f < features.strands@.len(),
    ensures
        s == features.strands@[f as int],
{
    features.strands[f]
}

/// A query yielding zero or several features is not a single overlap.
proof fn lemma_not_single_overlap(features: FeatureIndex, r: Record, found: Seq<usize>)
    requires
        found.len() != 1,
        forall|a: int, b: int| 0 <= a < b < found.len() ==> found[a] != found[b],
        forall|f: usize| #[trigger] found.contains(f) <==> features.spec_match_set(
            r.reference_id,
            r.start,
            r.end,
            spec_read_strand(r),
            StrandSpecification::Unstranded,
        ).contains(f),
    ensures
        !spec_single_overlap(features, r),
        !spec_votes_forward(features, r),
        !spec_votes_reverse(features, r),
{
    let ms = features.spec_match_set(
        r.reference_id,
        r.start,
        r.end,
        spec_read_strand(r),
        StrandSpecification::Unstranded,
    );
    if found.len() == 0 {
        if spec_single_overlap(features, r) {
            let f = choose|f: usize|
                #[trigger] ms.contains(f) && (forall|g: usize| #[trigger] ms.contains(g) ==> g
                    == f);
            assert(found.contains(f));
        }
    } else {
        let a = found[0];
        let b = found[1];
        assert(found.contains(a) && found.contains(b));
        assert(a != b);
        if spec_single_overlap(features, r) {
            let f = choose|f: usize|
                #[trigger] ms.contains(f) && (forall|g: usize| #[trigger] ms.contains(g) ==> g
                    == f);
            assert(ms.contains(a) && ms.contains(b));
            assert(a == f && b == f);
        }
    }
}

} // verus!
