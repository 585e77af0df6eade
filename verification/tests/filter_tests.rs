use squab::context::Event;
use squab::filter::{Filter, FilterError};
use squab::record::{Flags, HitCount, Record};

fn plain_flags() -> Flags {
    Flags { paired: false, unmapped: false, secondary: false, supplementary: false, reverse: false }
}

fn plain_record() -> Record {
    Record {
        reference_id: Some(0),
        start: 0,
        end: 100,
        flags: plain_flags(),
        mapping_quality: Some(60),
        hit_count: HitCount::Absent,
    }
}

fn strict_filter() -> Filter {
    Filter::new(10, false, false, false)
}

#[test]
fn passing_record_is_unfiltered() {
    let f = strict_filter();
    assert_eq!(f.filter(&plain_record()), Ok(None));
}

#[test]
fn unmapped_record_is_reported() {
    let f = strict_filter();
    let mut r = plain_record();
    r.flags.unmapped = true;
    assert_eq!(f.filter(&r), Ok(Some(Event::Unmapped)));
}

#[test]
fn unmapped_wins_over_low_quality() {
    // Flag checks precede the quality check.
    let f = strict_filter();
    let mut r = plain_record();
    r.flags.unmapped = true;
    r.mapping_quality = Some(0);
    assert_eq!(f.filter(&r), Ok(Some(Event::Unmapped)));
}

#[test]
fn secondary_record_is_skipped_when_disallowed() {
    let f = strict_filter();
    let mut r = plain_record();
    r.flags.secondary = true;
    assert_eq!(f.filter(&r), Ok(Some(Event::Skip)));
}

#[test]
fn secondary_record_passes_when_allowed() {
    let f = Filter::new(10, true, false, false);
    let mut r = plain_record();
    r.flags.secondary = true;
    assert_eq!(f.filter(&r), Ok(None));
}

#[test]
fn supplementary_record_is_skipped_when_disallowed() {
    let f = strict_filter();
    let mut r = plain_record();
    r.flags.supplementary = true;
    assert_eq!(f.filter(&r), Ok(Some(Event::Skip)));
}

#[test]
fn multi_hit_record_is_nonunique_when_disallowed() {
    let f = strict_filter();
    let mut r = plain_record();
    r.hit_count = HitCount::Hits(5);
    assert_eq!(f.filter(&r), Ok(Some(Event::Nonunique)));
}

#[test]
fn single_hit_record_passes() {
    let f = strict_filter();
    let mut r = plain_record();
    r.hit_count = HitCount::Hits(1);
    assert_eq!(f.filter(&r), Ok(None));
}

#[test]
fn multi_hit_record_passes_when_nonunique_allowed() {
    let f = Filter::new(10, false, false, true);
    let mut r = plain_record();
    r.hit_count = HitCount::Hits(5);
    assert_eq!(f.filter(&r), Ok(None));
}

#[test]
fn malformed_hit_count_tag_is_a_hard_error() {
    let f = strict_filter();
    let mut r = plain_record();
    r.hit_count = HitCount::Invalid;
    assert_eq!(f.filter(&r), Err(FilterError::InvalidHitCountType));
}

#[test]
fn malformed_hit_count_tag_is_not_read_when_nonunique_allowed() {
    let f = Filter::new(10, false, false, true);
    let mut r = plain_record();
    r.hit_count = HitCount::Invalid;
    assert_eq!(f.filter(&r), Ok(None));
}

#[test]
fn low_quality_record_is_reported() {
    let f = strict_filter();
    let mut r = plain_record();
    r.mapping_quality = Some(9);
    assert_eq!(f.filter(&r), Ok(Some(Event::LowQuality)));
}

#[test]
fn missing_mapping_quality_passes() {
    let f = strict_filter();
    let mut r = plain_record();
    r.mapping_quality = None;
    assert_eq!(f.filter(&r), Ok(None));
}

#[test]
fn pair_with_secondary_mate_is_skipped() {
    // Mate 1 passes every check; mate 2 is secondary and secondary records
    // are disallowed: the pair is skipped.
    let f = strict_filter();
    let r1 = plain_record();
    let mut r2 = plain_record();
    r2.flags.secondary = true;
    assert_eq!(f.filter_pair(&r1, &r2), Ok(Some(Event::Skip)));
}

#[test]
fn pair_with_one_unmapped_mate_is_unmapped() {
    let f = strict_filter();
    let r1 = plain_record();
    let mut r2 = plain_record();
    r2.flags.unmapped = true;
    assert_eq!(f.filter_pair(&r1, &r2), Ok(Some(Event::Unmapped)));
}

#[test]
fn pair_with_low_quality_second_mate_is_low_quality() {
    let f = strict_filter();
    let r1 = plain_record();
    let mut r2 = plain_record();
    r2.mapping_quality = Some(3);
    assert_eq!(f.filter_pair(&r1, &r2), Ok(Some(Event::LowQuality)));
}

#[test]
fn clean_pair_passes() {
    let f = strict_filter();
    assert_eq!(f.filter_pair(&plain_record(), &plain_record()), Ok(None));
}

#[test]
fn filter_getters_report_configuration() {
    let f = Filter::new(7, true, false, true);
    assert_eq!(f.min_mapping_quality(), 7);
    assert!(f.with_secondary_records());
    assert!(!f.with_supplementary_records());
    assert!(f.with_nonunique_records());
}
