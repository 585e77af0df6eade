//! A plain-value model of an alignment record.
//!
//! The binary alignment container is decoded outside this crate; the fields
//! the counting core reads are handed in as ordinary values.

use vstd::prelude::*;

use crate::strand::Strand;

verus! {

/// The record flags the counting core inspects.
#[derive(Clone, Copy, PartialEq, Eq, Structural, Debug)]
pub struct Flags {
    /// The read comes from a paired-end template.
    pub paired: bool,
    /// The read is not mapped to any reference sequence.
    pub unmapped: bool,
    /// The alignment is a secondary alignment.
    pub secondary: bool,
    /// The alignment is a supplementary alignment.
    pub supplementary: bool,
    /// The read aligns to the reverse strand.
    pub reverse: bool,
}

/// The alignment-hit-count tag of a record: absent, an integer number of
/// hits, or present with a value of the wrong type.
#[derive(Clone, Copy, PartialEq, Eq, Structural, Debug)]
pub enum HitCount {
    Absent,
    Hits(i64),
    Invalid,
}

/// One alignment record, reduced to the fields the counting core reads.
///
/// `start` and `end` delimit the alignment span as a half-open interval.
#[derive(Clone, Copy, PartialEq, Eq, Structural, Debug)]
pub struct Record {
    /// Index into the reference-sequence table, if the record names one.
    pub reference_id: Option<u32>,
    /// 0-based start of the alignment span (inclusive).
    pub start: u64,
    /// End of the alignment span (exclusive).
    pub end: u64,
    /// The record flags.
    pub flags: Flags,
    /// Mapping quality, if reported.
    pub mapping_quality: Option<u8>,
    /// The alignment-hit-count tag.
    pub hit_count: HitCount,
}

/// Two mapped records sharing one query name.
#[derive(Clone, Copy, PartialEq, Eq, Structural, Debug)]
pub struct RecordPair {
    /// The first mate.
    pub first: Record,
    /// The second mate.
    pub second: Record,
}

/// The alignment strand a record's flags imply.
pub open spec fn spec_read_strand(r: Record) -> Strand {
    if r.flags.reverse {
        Strand::Reverse
    } else {
        Strand::Forward
    }
}

impl Record {
    /// The alignment strand this record's flags imply.
    pub fn read_strand(&self) -> (s: Strand)
        ensures
            s == spec_read_strand(*self),
    {
        if self.flags.reverse {
            Strand::Reverse
        } else {
            Strand::Forward
        }
    }
}

} // verus!
