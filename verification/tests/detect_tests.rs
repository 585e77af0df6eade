use squab::detect::{detect_specification, DetectionThreshold};
use squab::feature::{Feature, FeatureIndex, Interval};
use squab::record::{Flags, HitCount, Record};
use squab::strand::{
    resolve_strand_specification, LibraryLayout, Strand, StrandSpecification,
    StrandSpecificationOption,
};

fn read(start: u64, end: u64, reverse: bool, paired: bool) -> Record {
    Record {
        reference_id: Some(0),
        start,
        end,
        flags: Flags { paired, unmapped: false, secondary: false, supplementary: false, reverse },
        mapping_quality: Some(60),
        hit_count: HitCount::Absent,
    }
}

fn forward_gene_index() -> FeatureIndex {
    let features = vec![Feature {
        name: String::from("gene_a"),
        reference_id: 0,
        strand: Strand::Forward,
        intervals: vec![Interval { start: 0, end: 10000 }],
    }];
    FeatureIndex::build(&features, 1)
}

fn three_quarters() -> DetectionThreshold {
    DetectionThreshold { numerator: 3, denominator: 4 }
}

#[test]
fn dominant_forward_sample_detects_forward() {
    // 19 of 20 usable reads align with the feature's strand: the call is
    // `Forward` with confidence 19/20 = 0.95.
    let index = forward_gene_index();
    let mut records = Vec::new();
    for i in 0..19 {
        records.push(read(i * 100, i * 100 + 50, false, false));
    }
    records.push(read(500, 550, true, false));
    let d = detect_specification(&records, &index, three_quarters());
    assert_eq!(d.specification, StrandSpecification::Forward);
    assert_eq!(d.layout, LibraryLayout::SingleEnd);
    assert_eq!(d.agreements, 19);
    assert_eq!(d.usable, 20);
    let confidence = d.agreements as f64 / d.usable as f64;
    assert!((confidence - 0.95).abs() < 1e-9);
}

#[test]
fn dominant_reverse_sample_detects_reverse() {
    let index = forward_gene_index();
    let mut records = Vec::new();
    for i in 0..20 {
        records.push(read(i * 100, i * 100 + 50, true, false));
    }
    let d = detect_specification(&records, &index, three_quarters());
    assert_eq!(d.specification, StrandSpecification::Reverse);
    assert_eq!(d.agreements, 20);
    assert_eq!(d.usable, 20);
}

#[test]
fn balanced_sample_is_unstranded_with_weak_majority() {
    let index = forward_gene_index();
    let mut records = Vec::new();
    for i in 0..10 {
        records.push(read(i * 100, i * 100 + 50, false, false));
        records.push(read(i * 100, i * 100 + 50, true, false));
    }
    let d = detect_specification(&records, &index, three_quarters());
    assert_eq!(d.specification, StrandSpecification::Unstranded);
    assert_eq!(d.agreements, 10);
    assert_eq!(d.usable, 20);
}

#[test]
fn empty_sample_degrades_to_zero_confidence() {
    // Detection never fails on poor data: no usable read means an
    // unstranded call with confidence zero.
    let index = forward_gene_index();
    let d = detect_specification(&Vec::new(), &index, three_quarters());
    assert_eq!(d.specification, StrandSpecification::Unstranded);
    assert_eq!(d.usable, 0);
    assert_eq!(d.agreements, 0);
}

#[test]
fn paired_flag_detects_paired_layout() {
    let index = forward_gene_index();
    let records = vec![read(0, 50, false, false), read(100, 150, false, true)];
    let d = detect_specification(&records, &index, three_quarters());
    assert_eq!(d.layout, LibraryLayout::PairedEnd);
}

#[test]
fn unmapped_reads_are_not_usable() {
    let index = forward_gene_index();
    let mut r = read(0, 50, false, false);
    r.flags.unmapped = true;
    let d = detect_specification(&vec![r], &index, three_quarters());
    assert_eq!(d.usable, 0);
}

#[test]
fn explicit_option_overrides_detection() {
    assert_eq!(
        resolve_strand_specification(
            StrandSpecificationOption::Reverse,
            StrandSpecification::Forward
        ),
        StrandSpecification::Reverse
    );
    assert_eq!(
        resolve_strand_specification(StrandSpecificationOption::Auto, StrandSpecification::Forward),
        StrandSpecification::Forward
    );
    assert_eq!(
        resolve_strand_specification(
            StrandSpecificationOption::Unstranded,
            StrandSpecification::Reverse
        ),
        StrandSpecification::Unstranded
    );
}

#[test]
fn union_length_sums_disjoint_intervals() {
    let f = Feature {
        name: String::from("gene_a"),
        reference_id: 0,
        strand: Strand::Forward,
        intervals: vec![Interval { start: 0, end: 300 }, Interval { start: 400, end: 600 }],
    };
    assert_eq!(f.union_length(), Some(500));
}
