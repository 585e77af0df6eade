//! Strands, strand specifications, and library layout.

use vstd::prelude::*;

verus! {

/// Orientation of a read or an annotated feature on the genome.
#[derive(Clone, Copy, PartialEq, Eq, Structural, Debug)]
pub enum Strand {
    Forward,
    Reverse,
    Unknown,
}

/// The protocol-dependent relationship between a read's alignment strand
/// and its originating feature's strand.
#[derive(Clone, Copy, PartialEq, Eq, Structural, Debug)]
pub enum StrandSpecification {
    Unstranded,
    Forward,
    Reverse,
}

/// A caller's choice of strand specification, possibly deferring to detection.
#[derive(Clone, Copy, PartialEq, Eq, Structural, Debug)]
pub enum StrandSpecificationOption {
    Unstranded,
    Forward,
    Reverse,
    Auto,
}

/// Whether sequencing reads are single-end or paired-end.
#[derive(Clone, Copy, PartialEq, Eq, Structural, Debug)]
pub enum LibraryLayout {
    SingleEnd,
    PairedEnd,
}

/// The strand opposite to `s`; `Unknown` has no opposite.
pub open spec fn spec_opposite(s: Strand) -> Strand {
    match s {
        Strand::Forward => Strand::Reverse,
        Strand::Reverse => Strand::Forward,
        Strand::Unknown => Strand::Unknown,
    }
}

/// The specification a counting run uses, given the caller's option and the
/// detector's result: an explicit choice wins, `Auto` takes the detected one.
pub open spec fn spec_resolve(
    option: StrandSpecificationOption,
    detected: StrandSpecification,
) -> StrandSpecification {
    match option {
        StrandSpecificationOption::Unstranded => StrandSpecification::Unstranded,
        StrandSpecificationOption::Forward => StrandSpecification::Forward,
        StrandSpecificationOption::Reverse => StrandSpecification::Reverse,
        StrandSpecificationOption::Auto => detected,
    }
}

/// Resolves the caller's strand-specification option against the detected one.
pub fn resolve_strand_specification(
    option: StrandSpecificationOption,
    detected: StrandSpecification,
) -> (r: StrandSpecification)
    ensures
        r == spec_resolve(option, detected),
{
    match option {
        StrandSpecificationOption::Unstranded => StrandSpecification::Unstranded,
        StrandSpecificationOption::Forward => StrandSpecification::Forward,
        StrandSpecificationOption::Reverse => StrandSpecification::Reverse,
        StrandSpecificationOption::Auto => detected,
    }
}

} // verus!
