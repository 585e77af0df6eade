//! The counting engine: classifies each record (or pair), intersects passing
//! ones with the feature index, and accumulates a `Context`.
//!
//! The engine's algebra is a fold: one event per record, recorded into a
//! context. Folding disjoint chunks and merging the per-chunk contexts gives
//! the same result as one pass over the whole stream, so the outcome does not
//! depend on how work was partitioned across workers.

use vstd::prelude::*;

use crate::context::{
    lemma_record_conserved, lemma_seq_sum_zeros, Context, ContextModel, Event,
};
use crate::feature::FeatureIndex;
use crate::filter::{Filter, FilterError};
use crate::record::{spec_read_strand, Record, RecordPair};
use crate::strand::{Strand, StrandSpecification};

verus! {

/// The event an intersection outcome yields: no match is `NoFeature`, one
/// distinct feature is an assignment, several are `Ambiguous`.
pub open spec fn assignment_event(ms: Set<usize>) -> Event {
    if forall|f: usize| !(#[trigger] ms.contains(f)) {
        Event::NoFeature
    } else if exists|f: usize|
        #[trigger] ms.contains(f) && (forall|g: usize| #[trigger] ms.contains(g) ==> g == f) {
        Event::Assigned(ms.choose())
    } else {
        Event::Ambiguous
    }
}

/// An event's feature index, if any, points into a table of `n` features.
pub open spec fn valid_event(ev: Result<Event, FilterError>, n: nat) -> bool {
    ev matches Ok(Event::Assigned(f)) ==> 0 <= f < n
}

/// The event one single-end record yields: its classification when the
/// filter discards it, otherwise the outcome of intersecting its alignment
/// span with the index under the strand rule.
pub open spec fn spec_record_event(
    filter: Filter,
    features: FeatureIndex,
    specification: StrandSpecification,
    r: Record,
) -> Result<Event, FilterError> {
    match filter.spec_filter(r) {
        Err(e) => Err(e),
        Ok(Some(ev)) => Ok(ev),
        Ok(None) => Ok(
            assignment_event(
                features.spec_match_set(
                    r.reference_id,
                    r.start,
                    r.end,
                    spec_read_strand(r),
                    specification,
                ),
            ),
        ),
    }
}

/// The reference a pair's envelope lies on: the mates' common reference, or
/// none when they disagree or either is missing.
pub open spec fn spec_pair_reference(p: RecordPair) -> Option<u32> {
    match (p.first.reference_id, p.second.reference_id) {
        (Some(a), Some(b)) => if a == b {
            Some(a)
        } else {
            None
        },
        _ => None,
    }
}

/// Start of the envelope spanning both mates.
pub open spec fn spec_pair_start(p: RecordPair) -> u64 {
    if p.first.start <= p.second.start {
        p.first.start
    } else {
        p.second.start
    }
}

/// End of the envelope spanning both mates.
pub open spec fn spec_pair_end(p: RecordPair) -> u64 {
    if p.first.end >= p.second.end {
        p.first.end
    } else {
        p.second.end
    }
}

/// The event one pair yields: its classification when the filter discards
/// it, otherwise the outcome of intersecting the envelope spanning both
/// mates — on their common reference, with the first mate's strand — with
/// the index. Mates on different references overlap nothing.
pub open spec fn spec_pair_event(
    filter: Filter,
    features: FeatureIndex,
    specification: StrandSpecification,
    p: RecordPair,
) -> Result<Event, FilterError> {
    match filter.spec_filter_pair(p.first, p.second) {
        Err(e) => Err(e),
        Ok(Some(ev)) => Ok(ev),
        Ok(None) => Ok(
            assignment_event(
                features.spec_match_set(
                    spec_pair_reference(p),
                    spec_pair_start(p),
                    spec_pair_end(p),
                    spec_read_strand(p.first),
                    specification,
                ),
            ),
        ),
    }
}

/// Folds a sequence of per-item events into a context model over `n`
/// features; any malformed-record error fails the whole fold.
pub open spec fn apply_events(n: nat, evs: Seq<Result<Event, FilterError>>) -> Result<
    ContextModel,
    FilterError,
>
    decreases evs.len(),
{
    if evs.len() == 0 {
        Ok(ContextModel::empty(n))
    } else {
        match apply_events(n, evs.drop_last()) {
            Err(e) => Err(e),
            Ok(c) => match evs.last() {
                Err(e) => Err(e),
                Ok(ev) => Ok(c.record(ev)),
            },
        }
    }
}

/// The per-record events of a single-end stream.
pub open spec fn spec_record_events(
    filter: Filter,
    features: FeatureIndex,
    specification: StrandSpecification,
    records: Seq<Record>,
) -> Seq<Result<Event, FilterError>> {
    records.map_values(|r: Record| spec_record_event(filter, features, specification, r))
}

/// The per-pair events of a paired-end stream.
pub open spec fn spec_pair_events(
    filter: Filter,
    features: FeatureIndex,
    specification: StrandSpecification,
    pairs: Seq<RecordPair>,
) -> Seq<Result<Event, FilterError>> {
    pairs.map_values(|p: RecordPair| spec_pair_event(filter, features, specification, p))
}

/// What counting a single-end stream returns.
pub open spec fn spec_count_single(
    filter: Filter,
    features: FeatureIndex,
    specification: StrandSpecification,
    records: Seq<Record>,
) -> Result<ContextModel, FilterError> {
    apply_events(
        features.spec_feature_count(),
        spec_record_events(filter, features, specification, records),
    )
}

/// What counting a paired-end stream returns.
pub open spec fn spec_count_paired(
    filter: Filter,
    features: FeatureIndex,
    specification: StrandSpecification,
    pairs: Seq<RecordPair>,
) -> Result<ContextModel, FilterError> {
    apply_events(
        features.spec_feature_count(),
        spec_pair_events(filter, features, specification, pairs),
    )
}

/// Any two classifier errors are the same error.
pub proof fn lemma_filter_error_unique(a: FilterError, b: FilterError)
    ensures
        a == b,
{
    match (a, b) {
        (FilterError::InvalidHitCountType, FilterError::InvalidHitCountType) => {},
    }
}

/// A failed fold fails with the classifier's error.
pub proof fn lemma_apply_events_err_value(
    n: nat,
    evs: Seq<Result<Event, FilterError>>,
    e: FilterError,
)
    requires
        apply_events(n, evs) is Err,
    ensures
        apply_events(n, evs) == Err::<ContextModel, FilterError>(e),
{
    match apply_events(n, evs) {
        Err(e2) => {
            lemma_filter_error_unique(e2, e);
        },
        Ok(_) => {},
    }
}

/// An intersection outcome's event points into the feature table.
pub proof fn lemma_assignment_event_valid(ms: Set<usize>, n: nat)
    requires
        forall|f: usize| #[trigger] ms.contains(f) ==> 0 <= f < n,
    ensures
        valid_event(Ok(assignment_event(ms)), n),
{
    if exists|f: usize|
        #[trigger] ms.contains(f) && (forall|g: usize| #[trigger] ms.contains(g) ==> g == f) {
        assert(ms.contains(ms.choose()));
    }
}

/// Every event of a single-end stream is valid for the index's table.
pub proof fn lemma_record_events_valid(
    filter: Filter,
    features: FeatureIndex,
    specification: StrandSpecification,
    records: Seq<Record>,
)
    ensures
        forall|i: int|
            0 <= i < records.len() ==> valid_event(
                #[trigger] spec_record_events(filter, features, specification, records)[i],
                features.spec_feature_count(),
            ),
{
    assert forall|i: int| 0 <= i < records.len() implies valid_event(
        #[trigger] spec_record_events(filter, features, specification, records)[i],
        features.spec_feature_count(),
    ) by {
        let r = records[i];
        let ms = features.spec_match_set(
            r.reference_id,
            r.start,
            r.end,
            spec_read_strand(r),
            specification,
        );
        assert forall|f: usize| #[trigger] ms.contains(f) implies 0 <= f
            < features.spec_feature_count() by {}
        lemma_assignment_event_valid(ms, features.spec_feature_count());
    }
}

/// Every event of a paired-end stream is valid for the index's table.
pub proof fn lemma_pair_events_valid(
    filter: Filter,
    features: FeatureIndex,
    specification: StrandSpecification,
    pairs: Seq<RecordPair>,
)
    ensures
        forall|i: int|
            0 <= i < pairs.len() ==> valid_event(
                #[trigger] spec_pair_events(filter, features, specification, pairs)[i],
                features.spec_feature_count(),
            ),
{
    assert forall|i: int| 0 <= i < pairs.len() implies valid_event(
        #[trigger] spec_pair_events(filter, features, specification, pairs)[i],
        features.spec_feature_count(),
    ) by {
        let p = pairs[i];
        let ms = features.spec_match_set(
            spec_pair_reference(p),
            spec_pair_start(p),
            spec_pair_end(p),
            spec_read_strand(p.first),
            specification,
        );
        assert forall|f: usize| #[trigger] ms.contains(f) implies 0 <= f
            < features.spec_feature_count() by {}
        lemma_assignment_event_valid(ms, features.spec_feature_count());
    }
}

/// A successful fold yields a conserved, non-negative context over `n`
/// features whose total equals the number of items folded.
///
/// This is the conservation law: the total-processed counter equals the sum
/// of the assigned counts and every discard counter, for every run.
pub proof fn lemma_apply_events_conserved(n: nat, evs: Seq<Result<Event, FilterError>>)
    requires
        forall|i: int| 0 <= i < evs.len() ==> valid_event(#[trigger] evs[i], n),
    ensures
        apply_events(n, evs) matches Ok(c) ==> c.conserved() && c.nonneg() && c.counts.len() == n
            && c.total == evs.len(),
    decreases evs.len(),
{
    if evs.len() == 0 {
        lemma_seq_sum_zeros(ContextModel::empty(n).counts);
    } else {
        lemma_apply_events_conserved(n, evs.drop_last());
        match apply_events(n, evs.drop_last()) {
            Ok(c) => {
                match evs.last() {
                    Ok(ev) => {
                        assert(valid_event(evs[evs.len() - 1], n));
                        lemma_record_conserved(c, ev);
                    },
                    _ => {},
                }
            },
            _ => {},
        }
    }
}

/// A fold fails exactly when some item's event is an error.
pub proof fn lemma_apply_events_err(n: nat, evs: Seq<Result<Event, FilterError>>)
    ensures
        (apply_events(n, evs) is Err) <==> exists|i: int| 0 <= i < evs.len() && evs[i] is Err,
    decreases evs.len(),
{
    if evs.len() > 0 {
        lemma_apply_events_err(n, evs.drop_last());
        if apply_events(n, evs) is Err {
            if apply_events(n, evs.drop_last()) is Err {
                let i = choose|i: int| 0 <= i < evs.drop_last().len() && evs.drop_last()[i] is Err;
                assert(evs[i] is Err);
            } else {
                assert(evs[evs.len() - 1] is Err);
            }
        }
        if exists|i: int| 0 <= i < evs.len() && evs[i] is Err {
            let i = choose|i: int| 0 <= i < evs.len() && evs[i] is Err;
            if i < evs.len() - 1 {
                assert(evs.drop_last()[i] is Err);
            }
        }
    }
}

/// Recording an event commutes with merging: recording into the right
/// summand of a merge is recording into the merge.
proof fn lemma_record_merged(a: ContextModel, b: ContextModel, ev: Event)
    requires
        a.counts.len() == b.counts.len(),
        valid_event(Ok(ev), b.counts.len()),
    ensures
        a.merged(b.record(ev)) == a.merged(b).record(ev),
{
    match ev {
        Event::Assigned(f) => {
            assert(a.merged(b.record(ev)).counts =~= a.merged(b).record(ev).counts);
        },
        _ => {
            assert(a.merged(b.record(ev)).counts =~= a.merged(b).record(ev).counts);
        },
    }
    assert(a.merged(b.record(ev)) =~= a.merged(b).record(ev));
}

/// Merging with the empty context is the identity.
proof fn lemma_merged_empty(c: ContextModel, n: nat)
    requires
        c.counts.len() == n,
    ensures
        c.merged(ContextModel::empty(n)) == c,
{
    assert(c.merged(ContextModel::empty(n)).counts =~= c.counts);
    assert(c.merged(ContextModel::empty(n)) =~= c);
}

/// Folding a concatenation equals folding the parts and merging: the fold is
/// a monoid homomorphism, so chunked counting is order- and
/// partition-independent.
pub proof fn lemma_apply_events_append(
    n: nat,
    evs1: Seq<Result<Event, FilterError>>,
    evs2: Seq<Result<Event, FilterError>>,
)
    requires
        forall|i: int| 0 <= i < evs1.len() ==> valid_event(#[trigger] evs1[i], n),
        forall|i: int| 0 <= i < evs2.len() ==> valid_event(#[trigger] evs2[i], n),
    ensures
        apply_events(n, evs1 + evs2) == match (apply_events(n, evs1), apply_events(n, evs2)) {
            (Ok(a), Ok(b)) => Ok::<ContextModel, FilterError>(a.merged(b)),
            (Err(e), _) => Err::<ContextModel, FilterError>(e),
            (_, Err(e)) => Err::<ContextModel, FilterError>(e),
        },
    decreases evs2.len(),
{
    lemma_apply_events_conserved(n, evs1);
    if evs2.len() == 0 {
        assert(evs1 + evs2 =~= evs1);
        match apply_events(n, evs1) {
            Ok(a) => {
                lemma_merged_empty(a, n);
            },
            _ => {},
        }
    } else {
        let prefix = evs2.drop_last();
        assert(forall|i: int| 0 <= i < prefix.len() ==> valid_event(#[trigger] prefix[i], n));
        lemma_apply_events_append(n, evs1, prefix);
        lemma_apply_events_conserved(n, evs1 + prefix);
        lemma_apply_events_conserved(n, prefix);
        assert((evs1 + evs2).drop_last() =~= evs1 + prefix);
        assert((evs1 + evs2).last() == evs2.last());
        match (apply_events(n, evs1), apply_events(n, prefix)) {
            (Ok(a), Ok(b)) => {
                match evs2.last() {
                    Ok(ev) => {
                        assert(valid_event(evs2[evs2.len() - 1], n));
                        lemma_record_merged(a, b, ev);
                    },
                    _ => {},
                }
            },
            _ => {},
        }
    }
}

/// Determinism of chunked counting: folding each chunk separately and
/// merging the chunk contexts in order equals one fold over the
/// concatenation of all chunks. Counting is therefore independent of how the
/// stream was partitioned across workers.
pub proof fn lemma_apply_events_chunked(n: nat, chunks: Seq<Seq<Result<Event, FilterError>>>)
    requires
        forall|c: int, i: int|
            0 <= c < chunks.len() && 0 <= i < chunks[c].len() ==> valid_event(
                #[trigger] chunks[c][i],
                n,
            ),
    ensures
        apply_events_chunked(n, chunks) == apply_events(n, chunks.flatten()),
    decreases chunks.len(),
{
    if chunks.len() == 0 {
        assert(chunks.flatten() =~= Seq::<Result<Event, FilterError>>::empty());
    } else {
        let prefix = chunks.drop_last();
        lemma_apply_events_chunked(n, prefix);
        prefix.lemma_flatten_push(chunks.last());
        assert(prefix.push(chunks.last()) =~= chunks);
        assert(chunks.flatten() == prefix.flatten() + chunks.last());
        assert(forall|i: int|
            0 <= i < prefix.flatten().len() ==> valid_event(#[trigger] prefix.flatten()[i], n))
            by {
            lemma_flatten_valid(n, prefix);
        }
        lemma_apply_events_append(n, prefix.flatten(), chunks.last());
    }
}

/// Flattening valid chunks yields valid events.
proof fn lemma_flatten_valid(n: nat, chunks: Seq<Seq<Result<Event, FilterError>>>)
    requires
        forall|c: int, i: int|
            0 <= c < chunks.len() && 0 <= i < chunks[c].len() ==> valid_event(
                #[trigger] chunks[c][i],
                n,
            ),
    ensures
        forall|i: int|
            0 <= i < chunks.flatten().len() ==> valid_event(#[trigger] chunks.flatten()[i], n),
    decreases chunks.len(),
{
    if chunks.len() > 0 {
        let prefix = chunks.drop_last();
        lemma_flatten_valid(n, prefix);
        prefix.lemma_flatten_push(chunks.last());
        assert(prefix.push(chunks.last()) =~= chunks);
        assert(chunks.flatten() == prefix.flatten() + chunks.last());
    }
}

/// The context models a merge-in-order of the per-chunk folds; any chunk's
/// error fails the whole.
pub open spec fn apply_events_chunked(
    n: nat,
    chunks: Seq<Seq<Result<Event, FilterError>>>,
) -> Result<ContextModel, FilterError>
    decreases chunks.len(),
{
    if chunks.len() == 0 {
        Ok(ContextModel::empty(n))
    } else {
        match (apply_events_chunked(n, chunks.drop_last()), apply_events(n, chunks.last())) {
            (Ok(a), Ok(b)) => Ok(a.merged(b)),
            (Err(e), _) => Err(e),
            (_, Err(e)) => Err(e),
        }
    }
}

/// Determinism for single-end counting, stated over the records themselves:
/// splitting the stream into any chunks, counting each chunk and merging the
/// chunk contexts in order yields exactly what one pass over the whole
/// stream yields. Final counts are therefore identical for every worker
/// count and every partitioning.
pub proof fn lemma_count_single_deterministic(
    filter: Filter,
    features: FeatureIndex,
    specification: StrandSpecification,
    chunks: Seq<Seq<Record>>,
)
    ensures
        apply_events_chunked(
            features.spec_feature_count(),
            chunks.map_values(
                |c: Seq<Record>| spec_record_events(filter, features, specification, c),
            ),
        ) == spec_count_single(filter, features, specification, chunks.flatten()),
{
    let n = features.spec_feature_count();
    let ev = |c: Seq<Record>| spec_record_events(filter, features, specification, c);
    let evchunks = chunks.map_values(ev);
    assert forall|c: int, i: int|
        0 <= c < evchunks.len() && 0 <= i < evchunks[c].len() implies valid_event(
        #[trigger] evchunks[c][i],
        n,
    ) by {
        lemma_record_events_valid(filter, features, specification, chunks[c]);
    }
    lemma_apply_events_chunked(n, evchunks);
    lemma_record_events_flatten(filter, features, specification, chunks);
}

/// Per-chunk events flatten to the events of the flattened stream.
proof fn lemma_record_events_flatten(
    filter: Filter,
    features: FeatureIndex,
    specification: StrandSpecification,
    chunks: Seq<Seq<Record>>,
)
    ensures
        chunks.map_values(
            |c: Seq<Record>| spec_record_events(filter, features, specification, c),
        ).flatten() == spec_record_events(filter, features, specification, chunks.flatten()),
    decreases chunks.len(),
{
    let ev = |c: Seq<Record>| spec_record_events(filter, features, specification, c);
    if chunks.len() == 0 {
        assert(chunks.map_values(ev) =~= Seq::<Seq<Result<Event, FilterError>>>::empty());
        assert(chunks.flatten() =~= Seq::<Record>::empty());
        assert(chunks.map_values(ev).flatten() =~= spec_record_events(filter, features,
            specification, chunks.flatten()));
    } else {
        let prefix = chunks.drop_last();
        lemma_record_events_flatten(filter, features, specification, prefix);
        prefix.lemma_flatten_push(chunks.last());
        assert(prefix.push(chunks.last()) =~= chunks);
        assert(chunks.flatten() == prefix.flatten() + chunks.last());
        prefix.map_values(ev).lemma_flatten_push(ev(chunks.last()));
        assert(prefix.map_values(ev).push(ev(chunks.last())) =~= chunks.map_values(ev));
        assert(chunks.map_values(ev).flatten() == prefix.map_values(ev).flatten() + ev(
            chunks.last(),
        ));
        assert(spec_record_events(filter, features, specification, prefix.flatten())
            + spec_record_events(filter, features, specification, chunks.last())
            =~= spec_record_events(filter, features, specification,
            prefix.flatten() + chunks.last()));
    }
}

/// Intersects one query with the index and names the outcome.
fn resolve_assignment(
    features: &FeatureIndex,
    reference_id: Option<u32>,
    start: u64,
    end: u64,
    read_strand: Strand,
    specification: StrandSpecification,
) -> (ev: Event)
    requires
        features.wf(),
    ensures
        ev == assignment_event(
            features.spec_match_set(reference_id, start, end, read_strand, specification),
        ),
        valid_event(Ok(ev), features.spec_feature_count()),
{
    let ghost ms = features.spec_match_set(reference_id, start, end, read_strand, specification);
    let found = features.query(reference_id, start, end, read_strand, specification);
    proof {
        assert(forall|f: usize| #[trigger] ms.contains(f) <==> found@.contains(f));
    }
    if found.len() == 0 {
        proof {
            assert forall|f: usize| !(#[trigger] ms.contains(f)) by {
                if ms.contains(f) {
                    let k = choose|k: int| 0 <= k < found@.len() && found@[k] == f;
                }
            }
        }
        Event::NoFeature
    } else if found.len() == 1 {
        let f0 = found[0];
        proof {
            assert(found@.contains(f0)) by {
                assert(found@[0] == f0);
            }
            assert(ms.contains(f0));
            assert forall|g: usize| #[trigger] ms.contains(g) implies g == f0 by {
                let k = choose|k: int| 0 <= k < found@.len() && found@[k] == g;
                assert(k == 0);
            }
            assert(ms.contains(ms.choose()));
            assert(assignment_event(ms) == Event::Assigned(f0));
        }
        Event::Assigned(f0)
    } else {
        proof {
            let a = found@[0];
            let b = found@[1];
            assert(found@.contains(a) && found@.contains(b));
            assert(a != b);
            assert(ms.contains(a) && ms.contains(b));
            assert(!(forall|f: usize| !(#[trigger] ms.contains(f))));
            assert forall|f: usize|
                !(#[trigger] ms.contains(f) && (forall|g: usize|
                    #[trigger] ms.contains(g) ==> g == f)) by {
                if ms.contains(f) && (forall|g: usize| #[trigger] ms.contains(g) ==> g == f) {
                    assert(a == f && b == f);
                }
            }
            assert(assignment_event(ms) == Event::Ambiguous);
        }
        Event::Ambiguous
    }
}

/// Counts the single-end records of `records[lo..hi]` into one context.
fn count_single_range(
    records: &Vec<Record>,
    lo: usize,
    hi: usize,
    features: &FeatureIndex,
    filter: &Filter,
    specification: StrandSpecification,
) -> (r: Result<Context, FilterError>)
    requires
        features.wf(),
        lo <= hi <= records@.len(),
    ensures
        ({
            let folded = apply_events(
                features.spec_feature_count(),
                spec_record_events(*filter, *features, specification, records@.subrange(
                    lo as int,
                    hi as int,
                )),
            );
            match r {
                Ok(c) => folded == Ok::<ContextModel, FilterError>(c@) && c.wf() && c@.counts.len()
                    == features.spec_feature_count() && c@.total == hi - lo,
                Err(e) => folded == Err::<ContextModel, FilterError>(e),
            }
        }),
{
    let mut ctx = Context::new(features.strands.len());
    let mut i: usize = lo;
    proof {
        assert(spec_record_events(*filter, *features, specification, records@.subrange(
            lo as int,
            lo as int,
        )) =~= Seq::<Result<Event, FilterError>>::empty());
    }
    while i < hi
        invariant
            lo <= i <= hi <= records@.len(),
            features.wf(),
            ctx.wf(),
            ctx@.counts.len() == features.spec_feature_count(),
            ctx@.total == i - lo,
            apply_events(
                features.spec_feature_count(),
                spec_record_events(*filter, *features, specification, records@.subrange(
                    lo as int,
                    i as int,
                )),
            ) == Ok::<ContextModel, FilterError>(ctx@),
        decreases hi - i,
    {
        let record = &records[i];
        let ghost evs_pre = spec_record_events(*filter, *features, specification,
            records@.subrange(lo as int, i as int));
        let ghost evs_post = spec_record_events(*filter, *features, specification,
            records@.subrange(lo as int, i + 1));
        proof {
            assert(evs_post.drop_last() =~= evs_pre);
            assert(records@.subrange(lo as int, i + 1).last() == records@[i as int]);
            assert(evs_post.last() == spec_record_event(*filter, *features, specification,
                records@[i as int]));
        }
        let ev: Event = match filter.filter(record) {
            Err(e) => {
                proof {
                    let full = spec_record_events(*filter, *features, specification,
                        records@.subrange(lo as int, hi as int));
                    assert(records@.subrange(lo as int, hi as int)[i - lo]
                        == records@[i as int]);
                    assert(full[i - lo] is Err);
                    lemma_apply_events_err(features.spec_feature_count(), full);
                    lemma_apply_events_err_value(features.spec_feature_count(), full, e);
                }
                return Err(e);
            },
            Ok(Some(ev)) => ev,
            Ok(None) => resolve_assignment(
                features,
                record.reference_id,
                record.start,
                record.end,
                record.read_strand(),
                specification,
            ),
        };
        proof {
            assert(Ok::<Event, FilterError>(ev) == spec_record_event(*filter, *features,
                specification, records@[i as int]));
            assert(usize::MAX <= u64::MAX);
        }
        ctx.add_event(ev);
        i += 1;
    }
    proof {
        assert(records@.subrange(lo as int, i as int) =~= records@.subrange(lo as int, hi as int));
    }
    Ok(ctx)
}

/// Counts a single-end record stream.
///
/// The stream is split into `worker_count` contiguous chunks, each counted
/// into its own context, and the chunk contexts are merged in order; the
/// contract states the result purely over the whole stream, so the outcome
/// is identical for every worker count — determinism under partitioning.
#[verifier::rlimit(50)]
pub fn count_single_end_records(
    records: &Vec<Record>,
    features: &FeatureIndex,
    filter: &Filter,
    specification: StrandSpecification,
    worker_count: usize,
) -> (r: Result<Context, FilterError>)
    requires
        features.wf(),
        worker_count >= 1,
    ensures
        ({
            let folded = spec_count_single(*filter, *features, specification, records@);
            match r {
                Ok(c) => folded == Ok::<ContextModel, FilterError>(c@) && c.wf() && c@.counts.len()
                    == features.spec_feature_count() && c@.total == records@.len(),
                Err(e) => folded == Err::<ContextModel, FilterError>(e),
            }
        }),
{
    let len: usize = records.len();
    let chunk: usize = if len / worker_count == 0 {
        1
    } else {
        len / worker_count
    };
    let mut acc = Context::new(features.strands.len());
    let mut lo: usize = 0;
    proof {
        assert(spec_record_events(*filter, *features, specification, records@.subrange(0, 0))
            =~= Seq::<Result<Event, FilterError>>::empty());
    }
    while lo < len
        invariant
            lo <= len,
            len == records@.len(),
            features.wf(),
            worker_count >= 1,
            chunk >= 1,
            acc.wf(),
            acc@.counts.len() == features.spec_feature_count(),
            acc@.total == lo,
            apply_events(
                features.spec_feature_count(),
                spec_record_events(*filter, *features, specification, records@.subrange(
                    0,
                    lo as int,
                )),
            ) == Ok::<ContextModel, FilterError>(acc@),
        decreases len - lo,
    {
        let hi: usize = if len - lo < chunk {
            len
        } else {
            lo + chunk
        };
        let part = match count_single_range(records, lo, hi, features, filter, specification) {
            Ok(part) => part,
            Err(e) => {
                proof {
                    let sub = spec_record_events(*filter, *features, specification,
                        records@.subrange(lo as int, hi as int));
                    let full = spec_record_events(*filter, *features, specification, records@);
                    lemma_apply_events_err(features.spec_feature_count(), sub);
                    let k = choose|k: int| 0 <= k < sub.len() && sub[k] is Err;
                    assert(records@.subrange(lo as int, hi as int)[k] == records@[lo + k]);
                    assert(full[lo + k] == spec_record_event(*filter, *features, specification,
                        records@[lo + k]));
                    assert(full[lo + k] is Err);
                    lemma_apply_events_err(features.spec_feature_count(), full);
                    lemma_apply_events_err_value(features.spec_feature_count(), full, e);
                }
                return Err(e);
            },
        };
        proof {
            let pre = spec_record_events(*filter, *features, specification, records@.subrange(
                0,
                lo as int,
            ));
            let mid = spec_record_events(*filter, *features, specification, records@.subrange(
                lo as int,
                hi as int,
            ));
            let post = spec_record_events(*filter, *features, specification, records@.subrange(
                0,
                hi as int,
            ));
            lemma_record_events_valid(*filter, *features, specification, records@.subrange(
                0,
                lo as int,
            ));
            lemma_record_events_valid(*filter, *features, specification, records@.subrange(
                lo as int,
                hi as int,
            ));
            lemma_apply_events_append(features.spec_feature_count(), pre, mid);
            assert(pre + mid =~= post);
            assert(usize::MAX <= u64::MAX);
        }
        acc.merge(&part);
        lo = hi;
    }
    proof {
        assert(records@.subrange(0, lo as int) =~= records@);
    }
    Ok(acc)
}

/// Counts the pairs of `pairs[lo..hi]` into one context.
fn count_paired_range(
    pairs: &Vec<RecordPair>,
    lo: usize,
    hi: usize,
    features: &FeatureIndex,
    filter: &Filter,
    specification: StrandSpecification,
) -> (r: Result<Context, FilterError>)
    requires
        features.wf(),
        lo <= hi <= pairs@.len(),
    ensures
        ({
            let folded = apply_events(
                features.spec_feature_count(),
                spec_pair_events(*filter, *features, specification, pairs@.subrange(
                    lo as int,
                    hi as int,
                )),
            );
            match r {
                Ok(c) => folded == Ok::<ContextModel, FilterError>(c@) && c.wf() && c@.counts.len()
                    == features.spec_feature_count() && c@.total == hi - lo,
                Err(e) => folded == Err::<ContextModel, FilterError>(e),
            }
        }),
{
    let mut ctx = Context::new(features.strands.len());
    let mut i: usize = lo;
    proof {
        assert(spec_pair_events(*filter, *features, specification, pairs@.subrange(
            lo as int,
            lo as int,
        )) =~= Seq::<Result<Event, FilterError>>::empty());
    }
    while i < hi
        invariant
            lo <= i <= hi <= pairs@.len(),
            features.wf(),
            ctx.wf(),
            ctx@.counts.len() == features.spec_feature_count(),
            ctx@.total == i - lo,
            apply_events(
                features.spec_feature_count(),
                spec_pair_events(*filter, *features, specification, pairs@.subrange(
                    lo as int,
                    i as int,
                )),
            ) == Ok::<ContextModel, FilterError>(ctx@),
        decreases hi - i,
    {
        let pair = &pairs[i];
        let ghost evs_pre = spec_pair_events(*filter, *features, specification, pairs@.subrange(
            lo as int,
            i as int,
        ));
        let ghost evs_post = spec_pair_events(*filter, *features, specification, pairs@.subrange(
            lo as int,
            i + 1,
        ));
        proof {
            assert(evs_post.drop_last() =~= evs_pre);
            assert(pairs@.subrange(lo as int, i + 1).last() == pairs@[i as int]);
            assert(evs_post.last() == spec_pair_event(*filter, *features, specification,
                pairs@[i as int]));
        }
        let ev: Event = match filter.filter_pair(&pair.first, &pair.second) {
            Err(e) => {
                proof {
                    let full = spec_pair_events(*filter, *features, specification,
                        pairs@.subrange(lo as int, hi as int));
                    assert(pairs@.subrange(lo as int, hi as int)[i - lo] == pairs@[i as int]);
                    assert(full[i - lo] is Err);
                    lemma_apply_events_err(features.spec_feature_count(), full);
                    lemma_apply_events_err_value(features.spec_feature_count(), full, e);
                }
                return Err(e);
            },
            Ok(Some(ev)) => ev,
            Ok(None) => {
                let reference_id: Option<u32> = match (pair.first.reference_id,
                    pair.second.reference_id) {
                    (Some(a), Some(b)) => if a == b {
                        Some(a)
                    } else {
                        None
                    },
                    _ => None,
                };
                let start: u64 = if pair.first.start <= pair.second.start {
                    pair.first.start
                } else {
                    pair.second.start
                };
                let end: u64 = if pair.first.end >= pair.second.end {
                    pair.first.end
                } else {
                    pair.second.end
                };
                resolve_assignment(
                    features,
                    reference_id,
                    start,
                    end,
                    pair.first.read_strand(),
                    specification,
                )
            },
        };
        proof {
            assert(Ok::<Event, FilterError>(ev) == spec_pair_event(*filter, *features,
                specification, pairs@[i as int]));
            assert(usize::MAX <= u64::MAX);
        }
        ctx.add_event(ev);
        i += 1;
    }
    proof {
        assert(pairs@.subrange(lo as int, i as int) =~= pairs@.subrange(lo as int, hi as int));
    }
    Ok(ctx)
}

/// Counts a paired-end stream of mate pairs, chunked like
/// `count_single_end_records`; the result is likewise independent of the
/// worker count.
#[verifier::rlimit(50)]
pub fn count_paired_end_records(
    pairs: &Vec<RecordPair>,
    features: &FeatureIndex,
    filter: &Filter,
    specification: StrandSpecification,
    worker_count: usize,
) -> (r: Result<Context, FilterError>)
    requires
        features.wf(),
        worker_count >= 1,
    ensures
        ({
            let folded = spec_count_paired(*filter, *features, specification, pairs@);
            match r {
                Ok(c) => folded == Ok::<ContextModel, FilterError>(c@) && c.wf() && c@.counts.len()
                    == features.spec_feature_count() && c@.total == pairs@.len(),
                Err(e) => folded == Err::<ContextModel, FilterError>(e),
            }
        }),
{
    let len: usize = pairs.len();
    let chunk: usize = if len / worker_count == 0 {
        1
    } else {
        len / worker_count
    };
    let mut acc = Context::new(features.strands.len());
    let mut lo: usize = 0;
    proof {
        assert(spec_pair_events(*filter, *features, specification, pairs@.subrange(0, 0))
            =~= Seq::<Result<Event, FilterError>>::empty());
    }
    while lo < len
        invariant
            lo <= len,
            len == pairs@.len(),
            features.wf(),
            worker_count >= 1,
            chunk >= 1,
            acc.wf(),
            acc@.counts.len() == features.spec_feature_count(),
            acc@.total == lo,
            apply_events(
                features.spec_feature_count(),
                spec_pair_events(*filter, *features, specification, pairs@.subrange(0, lo as int)),
            ) == Ok::<ContextModel, FilterError>(acc@),
        decreases len - lo,
    {
        let hi: usize = if len - lo < chunk {
            len
        } else {
            lo + chunk
        };
        let part = match count_paired_range(pairs, lo, hi, features, filter, specification) {
            Ok(part) => part,
            Err(e) => {
                proof {
                    let sub = spec_pair_events(*filter, *features, specification, pairs@.subrange(
                        lo as int,
                        hi as int,
                    ));
                    let full = spec_pair_events(*filter, *features, specification, pairs@);
                    lemma_apply_events_err(features.spec_feature_count(), sub);
                    let k = choose|k: int| 0 <= k < sub.len() && sub[k] is Err;
                    assert(pairs@.subrange(lo as int, hi as int)[k] == pairs@[lo + k]);
                    assert(full[lo + k] == spec_pair_event(*filter, *features, specification,
                        pairs@[lo + k]));
                    assert(full[lo + k] is Err);
                    lemma_apply_events_err(features.spec_feature_count(), full);
                    lemma_apply_events_err_value(features.spec_feature_count(), full, e);
                }
                return Err(e);
            },
        };
        proof {
            let pre = spec_pair_events(*filter, *features, specification, pairs@.subrange(
                0,
                lo as int,
            ));
            let mid = spec_pair_events(*filter, *features, specification, pairs@.subrange(
                lo as int,
                hi as int,
            ));
            let post = spec_pair_events(*filter, *features, specification, pairs@.subrange(
                0,
                hi as int,
            ));
            lemma_pair_events_valid(*filter, *features, specification, pairs@.subrange(
                0,
                lo as int,
            ));
            lemma_pair_events_valid(*filter, *features, specification, pairs@.subrange(
                lo as int,
                hi as int,
            ));
            lemma_apply_events_append(features.spec_feature_count(), pre, mid);
            assert(pre + mid =~= post);
            assert(usize::MAX <= u64::MAX);
        }
        acc.merge(&part);
        lo = hi;
    }
    proof {
        assert(pairs@.subrange(0, lo as int) =~= pairs@);
    }
    Ok(acc)
}

} // verus!
