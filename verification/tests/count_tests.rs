use squab::context::ordered_counts;
use squab::count::{count_paired_end_records, count_single_end_records};
use squab::feature::{Feature, FeatureIndex, Interval};
use squab::filter::{Filter, FilterError};
use squab::record::{Flags, HitCount, Record, RecordPair};
use squab::strand::{Strand, StrandSpecification};

fn feature(name: &str, reference_id: u32, strand: Strand, intervals: Vec<(u64, u64)>) -> Feature {
    Feature {
        name: String::from(name),
        reference_id,
        strand,
        intervals: intervals.into_iter().map(|(start, end)| Interval { start, end }).collect(),
    }
}

fn read(reference_id: u32, start: u64, end: u64, reverse: bool) -> Record {
    Record {
        reference_id: Some(reference_id),
        start,
        end,
        flags: Flags {
            paired: false,
            unmapped: false,
            secondary: false,
            supplementary: false,
            reverse,
        },
        mapping_quality: Some(60),
        hit_count: HitCount::Absent,
    }
}

fn strict_filter() -> Filter {
    Filter::new(10, false, false, false)
}

#[test]
fn forward_read_over_opposite_strand_feature_is_no_feature() {
    // With `Forward` selected, a read overlapping only an opposite-strand
    // feature yields `NoFeature`, not `Ambiguous` or an assignment.
    let features = vec![feature("gene_r", 0, Strand::Reverse, vec![(0, 1000)])];
    let index = FeatureIndex::build(&features, 1);
    let records = vec![read(0, 100, 200, false)];
    let ctx =
        count_single_end_records(&records, &index, &strict_filter(), StrandSpecification::Forward, 1)
            .unwrap();
    assert_eq!(ctx.no_feature, 1);
    assert_eq!(ctx.counts, vec![0]);
    assert_eq!(ctx.ambiguous, 0);
    assert_eq!(ctx.total, 1);
}

#[test]
fn read_over_two_features_is_ambiguous() {
    let features = vec![
        feature("gene_a", 0, Strand::Forward, vec![(0, 1000)]),
        feature("gene_b", 0, Strand::Forward, vec![(500, 1500)]),
    ];
    let index = FeatureIndex::build(&features, 1);
    let records = vec![read(0, 600, 700, false)];
    let ctx = count_single_end_records(
        &records,
        &index,
        &strict_filter(),
        StrandSpecification::Unstranded,
        1,
    )
    .unwrap();
    assert_eq!(ctx.ambiguous, 1);
    assert_eq!(ctx.counts, vec![0, 0]);
}

#[test]
fn read_over_two_exons_of_one_feature_is_assigned() {
    // Duplicate matches from several exons of one feature collapse to one.
    let features = vec![feature("gene_a", 0, Strand::Forward, vec![(0, 300), (250, 600)])];
    let index = FeatureIndex::build(&features, 1);
    let records = vec![read(0, 200, 400, false)];
    let ctx = count_single_end_records(
        &records,
        &index,
        &strict_filter(),
        StrandSpecification::Unstranded,
        1,
    )
    .unwrap();
    assert_eq!(ctx.counts, vec![1]);
    assert_eq!(ctx.ambiguous, 0);
    assert_eq!(ctx.no_feature, 0);
}

#[test]
fn reverse_specification_keeps_opposite_strand_features() {
    let features = vec![feature("gene_r", 0, Strand::Reverse, vec![(0, 1000)])];
    let index = FeatureIndex::build(&features, 1);
    let records = vec![read(0, 100, 200, false)];
    let ctx =
        count_single_end_records(&records, &index, &strict_filter(), StrandSpecification::Reverse, 1)
            .unwrap();
    assert_eq!(ctx.counts, vec![1]);
}

#[test]
fn unknown_reference_is_no_feature() {
    let features = vec![feature("gene_a", 0, Strand::Forward, vec![(0, 1000)])];
    let index = FeatureIndex::build(&features, 1);
    let records = vec![read(7, 100, 200, false)];
    let ctx = count_single_end_records(
        &records,
        &index,
        &strict_filter(),
        StrandSpecification::Unstranded,
        1,
    )
    .unwrap();
    assert_eq!(ctx.no_feature, 1);
}

#[test]
fn totals_conserve_across_categories() {
    // The total-processed counter equals the sum of every bucket.
    let features = vec![
        feature("gene_a", 0, Strand::Forward, vec![(0, 1000)]),
        feature("gene_b", 0, Strand::Forward, vec![(500, 1500)]),
    ];
    let index = FeatureIndex::build(&features, 1);
    let mut unmapped = read(0, 0, 0, false);
    unmapped.flags.unmapped = true;
    let mut secondary = read(0, 100, 200, false);
    secondary.flags.secondary = true;
    let mut low_quality = read(0, 100, 200, false);
    low_quality.mapping_quality = Some(1);
    let mut nonunique = read(0, 100, 200, false);
    nonunique.hit_count = HitCount::Hits(3);
    let records = vec![
        read(0, 100, 200, false),     // assigned to gene_a
        read(0, 600, 700, false),     // ambiguous
        read(0, 2000, 2100, false),   // no feature
        unmapped,
        secondary,
        low_quality,
        nonunique,
    ];
    let ctx = count_single_end_records(
        &records,
        &index,
        &strict_filter(),
        StrandSpecification::Unstranded,
        1,
    )
    .unwrap();
    let assigned: u64 = ctx.counts.iter().sum();
    assert_eq!(assigned, 1);
    assert_eq!(
        ctx.total,
        assigned + ctx.unmapped + ctx.skip + ctx.nonunique + ctx.low_quality + ctx.no_feature
            + ctx.ambiguous
    );
    assert_eq!(ctx.total, 7);
}

#[test]
fn worker_count_does_not_change_the_result() {
    let features = vec![
        feature("gene_a", 0, Strand::Forward, vec![(0, 1000)]),
        feature("gene_b", 1, Strand::Reverse, vec![(0, 500)]),
    ];
    let index = FeatureIndex::build(&features, 2);
    let mut records = Vec::new();
    for i in 0u64..50 {
        records.push(read((i % 3) as u32, (i * 37) % 1200, (i * 37) % 1200 + 50, i % 2 == 0));
    }
    let one = count_single_end_records(
        &records,
        &index,
        &strict_filter(),
        StrandSpecification::Unstranded,
        1,
    )
    .unwrap();
    for workers in [2usize, 3, 7, 64] {
        let many = count_single_end_records(
            &records,
            &index,
            &strict_filter(),
            StrandSpecification::Unstranded,
            workers,
        )
        .unwrap();
        assert_eq!(one.counts, many.counts);
        assert_eq!(one.unmapped, many.unmapped);
        assert_eq!(one.skip, many.skip);
        assert_eq!(one.nonunique, many.nonunique);
        assert_eq!(one.low_quality, many.low_quality);
        assert_eq!(one.no_feature, many.no_feature);
        assert_eq!(one.ambiguous, many.ambiguous);
        assert_eq!(one.total, many.total);
    }
}

#[test]
fn malformed_tag_fails_the_run() {
    let features = vec![feature("gene_a", 0, Strand::Forward, vec![(0, 1000)])];
    let index = FeatureIndex::build(&features, 1);
    let mut bad = read(0, 100, 200, false);
    bad.hit_count = HitCount::Invalid;
    let records = vec![read(0, 100, 200, false), bad];
    let r = count_single_end_records(
        &records,
        &index,
        &strict_filter(),
        StrandSpecification::Unstranded,
        1,
    );
    assert!(matches!(r, Err(FilterError::InvalidHitCountType)));
}

#[test]
fn pair_envelope_spans_both_mates() {
    let features = vec![feature("gene_a", 0, Strand::Forward, vec![(400, 600)])];
    let index = FeatureIndex::build(&features, 1);
    // Neither mate alone overlaps the feature; their envelope does.
    let pair = RecordPair { first: read(0, 0, 100, false), second: read(0, 700, 800, true) };
    let ctx = count_paired_end_records(
        &vec![pair],
        &index,
        &strict_filter(),
        StrandSpecification::Unstranded,
        1,
    )
    .unwrap();
    assert_eq!(ctx.counts, vec![1]);
}

#[test]
fn pair_on_different_references_is_no_feature() {
    let features = vec![
        feature("gene_a", 0, Strand::Forward, vec![(0, 1000)]),
        feature("gene_b", 1, Strand::Forward, vec![(0, 1000)]),
    ];
    let index = FeatureIndex::build(&features, 2);
    let pair = RecordPair { first: read(0, 100, 200, false), second: read(1, 100, 200, true) };
    let ctx = count_paired_end_records(
        &vec![pair],
        &index,
        &strict_filter(),
        StrandSpecification::Unstranded,
        1,
    )
    .unwrap();
    assert_eq!(ctx.no_feature, 1);
    assert_eq!(ctx.counts, vec![0, 0]);
}

#[test]
fn ordered_counts_follow_the_caller_order() {
    let features = vec![
        feature("gene_a", 0, Strand::Forward, vec![(0, 100)]),
        feature("gene_b", 0, Strand::Forward, vec![(200, 300)]),
    ];
    let index = FeatureIndex::build(&features, 1);
    let records = vec![read(0, 10, 20, false), read(0, 210, 220, false), read(0, 220, 230, false)];
    let ctx = count_single_end_records(
        &records,
        &index,
        &strict_filter(),
        StrandSpecification::Unstranded,
        1,
    )
    .unwrap();
    let rows = ordered_counts(&ctx, &vec![1, 0]);
    assert_eq!(rows, vec![2, 1]);
}
