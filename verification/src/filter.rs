//! The event classifier: decides whether a record (or pair) is countable
//! and, if not, which discard category it falls into.

use vstd::prelude::*;

use crate::context::Event;
use crate::record::{HitCount, Record};

verus! {

/// The classifier's fatal error: the alignment-hit-count tag is present but
/// its value has the wrong type, which indicates data corruption.
#[derive(Clone, Copy, PartialEq, Eq, Structural, Debug)]
pub enum FilterError {
    InvalidHitCountType,
}

/// Filter configuration: minimum mapping quality and which otherwise
/// excluded record classes are permitted.
#[derive(Clone, Copy, PartialEq, Eq, Structural, Debug)]
pub struct Filter {
    /// Minimum mapping quality a record must reach.
    pub min_mapping_quality: u8,
    /// Secondary alignments are permitted.
    pub with_secondary_records: bool,
    /// Supplementary alignments are permitted.
    pub with_supplementary_records: bool,
    /// Nonunique records are permitted.
    pub with_nonunique_records: bool,
}

/// The hit-count tag reports more than one hit.
pub open spec fn spec_is_nonunique(h: HitCount) -> bool {
    h matches HitCount::Hits(n) && n > 1
}

impl Filter {
    /// The minimum mapping quality this filter demands.
    pub open spec fn spec_min_mapping_quality(self) -> u8 {
        self.min_mapping_quality
    }

    /// Secondary alignments are permitted.
    pub open spec fn spec_with_secondary_records(self) -> bool {
        self.with_secondary_records
    }

    /// Supplementary alignments are permitted.
    pub open spec fn spec_with_supplementary_records(self) -> bool {
        self.with_supplementary_records
    }

    /// Nonunique records are permitted.
    pub open spec fn spec_with_nonunique_records(self) -> bool {
        self.with_nonunique_records
    }

    /// The record is a secondary or supplementary alignment that the
    /// configuration excludes.
    pub open spec fn spec_flags_skip(self, r: Record) -> bool {
        (!self.with_secondary_records && r.flags.secondary)
            || (!self.with_supplementary_records && r.flags.supplementary)
    }

    /// The record's mapping quality is reported and below the threshold.
    pub open spec fn spec_low_quality(self, r: Record) -> bool {
        r.mapping_quality matches Some(q) && q < self.min_mapping_quality
    }

    /// What `filter` returns: the first matching rule wins.
    ///
    /// Order: unmapped flag, excluded secondary/supplementary, nonunique
    /// hit-count tag (whose malformed value is a hard error), mapping
    /// quality; a record clearing every check passes (`None`).
    pub open spec fn spec_filter(self, r: Record) -> Result<Option<Event>, FilterError> {
        if r.flags.unmapped {
            Ok(Some(Event::Unmapped))
        } else if self.spec_flags_skip(r) {
            Ok(Some(Event::Skip))
        } else if !self.with_nonunique_records && r.hit_count is Invalid {
            Err(FilterError::InvalidHitCountType)
        } else if !self.with_nonunique_records && spec_is_nonunique(r.hit_count) {
            Ok(Some(Event::Nonunique))
        } else if self.spec_low_quality(r) {
            Ok(Some(Event::LowQuality))
        } else {
            Ok(None)
        }
    }

    /// What `filter_pair` returns: the same rules with OR semantics across
    /// the mates — either mate triggering a condition discards the pair —
    /// and the quality check applied to each mate in turn.
    pub open spec fn spec_filter_pair(self, r1: Record, r2: Record) -> Result<
        Option<Event>,
        FilterError,
    > {
        if r1.flags.unmapped || r2.flags.unmapped {
            Ok(Some(Event::Unmapped))
        } else if self.spec_flags_skip(r1) || self.spec_flags_skip(r2) {
            Ok(Some(Event::Skip))
        } else if !self.with_nonunique_records && r1.hit_count is Invalid {
            Err(FilterError::InvalidHitCountType)
        } else if !self.with_nonunique_records && spec_is_nonunique(r1.hit_count) {
            Ok(Some(Event::Nonunique))
        } else if !self.with_nonunique_records && r2.hit_count is Invalid {
            Err(FilterError::InvalidHitCountType)
        } else if !self.with_nonunique_records && spec_is_nonunique(r2.hit_count) {
            Ok(Some(Event::Nonunique))
        } else if self.spec_low_quality(r1) || self.spec_low_quality(r2) {
            Ok(Some(Event::LowQuality))
        } else {
            Ok(None)
        }
    }

    /// Builds a filter from its four settings.
    pub fn new(
        min_mapping_quality: u8,
        with_secondary_records: bool,
        with_supplementary_records: bool,
        with_nonunique_records: bool,
    ) -> (f: Filter)
        ensures
            f.spec_min_mapping_quality() == min_mapping_quality,
            f.spec_with_secondary_records() == with_secondary_records,
            f.spec_with_supplementary_records() == with_supplementary_records,
            f.spec_with_nonunique_records() == with_nonunique_records,
    {
        Filter { min_mapping_quality, with_secondary_records, with_supplementary_records, with_nonunique_records }
    }

    /// The minimum mapping quality this filter demands.
    pub fn min_mapping_quality(&self) -> (q: u8)
        ensures
            q == self.spec_min_mapping_quality(),
    {
        self.min_mapping_quality
    }

    /// Secondary alignments are permitted.
    pub fn with_secondary_records(&self) -> (b: bool)
        ensures
            b == self.spec_with_secondary_records(),
    {
        self.with_secondary_records
    }

    /// Supplementary alignments are permitted.
    pub fn with_supplementary_records(&self) -> (b: bool)
        ensures
            b == self.spec_with_supplementary_records(),
    {
        self.with_supplementary_records
    }

    /// Nonunique records are permitted.
    pub fn with_nonunique_records(&self) -> (b: bool)
        ensures
            b == self.spec_with_nonunique_records(),
    {
        self.with_nonunique_records
    }

    /// Classifies one record: `Ok(None)` when it is eligible for feature
    /// intersection, `Ok(Some(event))` naming the discard reason otherwise,
    /// `Err` on a malformed hit-count tag.
    pub fn filter(&self, record: &Record) -> (r: Result<Option<Event>, FilterError>)
        ensures
            r == self.spec_filter(*record),
    {
        if record.flags.unmapped {
            return Ok(Some(Event::Unmapped));
        }

        if (!self.with_secondary_records && record.flags.secondary)
            || (!self.with_supplementary_records && record.flags.supplementary) {
            return Ok(Some(Event::Skip));
        }

        if !self.with_nonunique_records {
            match is_nonunique_record(record) {
                Err(e) => {
                    return Err(e);
                },
                Ok(true) => {
                    return Ok(Some(Event::Nonunique));
                },
                Ok(false) => {},
            }
        }

        if let Some(mapping_quality) = record.mapping_quality {
            if mapping_quality < self.min_mapping_quality {
                return Ok(Some(Event::LowQuality));
            }
        }

        Ok(None)
    }

    /// Classifies a pair: both mates must individually clear every check for
    /// the pair to pass, and either mate triggering a condition discards it.
    pub fn filter_pair(&self, r1: &Record, r2: &Record) -> (r: Result<
        Option<Event>,
        FilterError,
    >)
        ensures
            r == self.spec_filter_pair(*r1, *r2),
    {
        if r1.flags.unmapped || r2.flags.unmapped {
            return Ok(Some(Event::Unmapped));
        }

        if (!self.with_secondary_records && (r1.flags.secondary || r2.flags.secondary))
            || (!self.with_supplementary_records
                && (r1.flags.supplementary || r2.flags.supplementary)) {
            return Ok(Some(Event::Skip));
        }

        if !self.with_nonunique_records {
            match is_nonunique_record(r1) {
                Err(e) => {
                    return Err(e);
                },
                Ok(true) => {
                    return Ok(Some(Event::Nonunique));
                },
                Ok(false) => {},
            }

            match is_nonunique_record(r2) {
                Err(e) => {
                    return Err(e);
                },
                Ok(true) => {
                    return Ok(Some(Event::Nonunique));
                },
                Ok(false) => {},
            }
        }

        if let Some(mapping_quality) = r1.mapping_quality {
            if mapping_quality < self.min_mapping_quality {
                return Ok(Some(Event::LowQuality));
            }
        }

        if let Some(mapping_quality) = r2.mapping_quality {
            if mapping_quality < self.min_mapping_quality {
                return Ok(Some(Event::LowQuality));
            }
        }

        Ok(None)
    }
}

/// Reads the hit-count tag: absence means unique; a present integer reports
/// the number of hits; a present value of another type is a hard error.
fn is_nonunique_record(record: &Record) -> (r: Result<bool, FilterError>)
    ensures
        record.hit_count is Invalid <==> r is Err,
        r matches Ok(b) ==> b == spec_is_nonunique(record.hit_count),
{
    match record.hit_count {
        HitCount::Absent => Ok(false),
        HitCount::Hits(hits) => Ok(hits > 1),
        HitCount::Invalid => Err(FilterError::InvalidHitCountType),
    }
}

} // verus!
