//! FPKM/TPM normalization over exact rational values.
//!
//! The quotients the two measures call for are kept as numerator/denominator
//! pairs of machine integers, so every contract is exact; turning a pair
//! into a floating-point number is the caller's final step.

use vstd::prelude::*;

use crate::context::seq_sum;

verus! {

/// The normalization method a caller selects.
#[derive(Clone, Copy, PartialEq, Eq, Structural, Debug)]
pub enum Method {
    Fpkm,
    Tpm,
}

/// Why a normalization run failed.
#[derive(Clone, Copy, PartialEq, Eq, Structural, Debug)]
pub enum NormalizeError {
    /// The feature at this table position has union length zero, which would
    /// make its rate undefined.
    ZeroLengthFeature(usize),
    /// An exact value does not fit the machine integers.
    Overflow,
}

/// One normalized value as an exact quotient; a zero value is `0 / 1`.
#[derive(Clone, Copy, PartialEq, Eq, Structural, Debug)]
pub struct NormalizedValue {
    /// Numerator.
    pub numerator: u128,
    /// Denominator, at least one.
    pub denominator: u128,
}

/// Scale factor applied to TPM rates before integer division, fixing the
/// precision of the one rounding step the integer computation takes.
pub const RATE_SCALE: u128 = 1048576;

/// Sum of the first `upto` counts.
pub open spec fn spec_total_prefix(counts: Seq<u64>, upto: int) -> int {
    seq_sum(counts.take(upto).map_values(|c: u64| c as int))
}

/// Total assigned reads: the sum of all counts.
pub open spec fn spec_total(counts: Seq<u64>) -> int {
    spec_total_prefix(counts, counts.len() as int)
}

/// The scaled TPM rate of one feature: `count * 1000 * RATE_SCALE / length`,
/// rounded down once by the integer division.
pub open spec fn spec_rate(count: u64, length: u64) -> int {
    (count * 1000 * RATE_SCALE) / (length as int)
}

/// Sum of the scaled rates of the first `upto` features.
pub open spec fn spec_rate_sum_prefix(counts: Seq<u64>, lengths: Seq<u64>, upto: int) -> int
    decreases upto,
{
    if upto <= 0 {
        0
    } else {
        spec_rate_sum_prefix(counts, lengths, upto - 1) + spec_rate(
            counts[upto - 1],
            lengths[upto - 1],
        )
    }
}

/// Sum of the scaled rates of all features.
pub open spec fn spec_rate_sum(counts: Seq<u64>, lengths: Seq<u64>) -> int {
    spec_rate_sum_prefix(counts, lengths, counts.len() as int)
}

/// Appending one count grows the prefix total by it.
proof fn lemma_total_prefix_step(counts: Seq<u64>, i: int)
    requires
        0 <= i < counts.len(),
    ensures
        spec_total_prefix(counts, i + 1) == spec_total_prefix(counts, i) + counts[i],
{
    let a = counts.take(i).map_values(|c: u64| c as int);
    let b = counts.take(i + 1).map_values(|c: u64| c as int);
    assert(b.drop_last() =~= a);
    assert(b.last() == counts[i] as int);
}

/// Computes the total of all counts.
fn total_count(counts: &Vec<u64>) -> (total: u128)
    ensures
        total == spec_total(counts@),
{
    let n: usize = counts.len();
    proof {
        assert(usize::MAX <= u64::MAX);
        assert(counts@.len() * (u64::MAX as int) <= u128::MAX) by (nonlinear_arith)
            requires
                0 <= counts@.len() <= u64::MAX,
        ;
    }
    let mut total: u128 = 0;
    let mut i: usize = 0;
    proof {
        assert(counts@.take(0).map_values(|c: u64| c as int) =~= Seq::<int>::empty());
    }
    while i < counts.len()
        invariant
            i <= counts@.len(),
            counts@.len() * (u64::MAX as int) <= u128::MAX,
            total == spec_total_prefix(counts@, i as int),
            total <= i * (u64::MAX as int),
        decreases counts@.len() - i,
    {
        proof {
            lemma_total_prefix_step(counts@, i as int);
            assert((i + 1) * (u64::MAX as int) == i * (u64::MAX as int) + u64::MAX) by (
            nonlinear_arith);
            assert(counts@.len() * (u64::MAX as int) >= (i + 1) * (u64::MAX as int)) by (
            nonlinear_arith)
                requires
                    i + 1 <= counts@.len(),
            ;
        }
        total = total + (counts[i] as u128);
        i += 1;
    }
    proof {
        assert(counts@.take(i as int) =~= counts@);
    }
    total
}

/// Scans for a zero-length feature; reports the first one.
fn find_zero_length(lengths: &Vec<u64>) -> (r: Option<usize>)
    ensures
        match r {
            Some(i) => i < lengths@.len() && lengths@[i as int] == 0 && forall|j: int|
                0 <= j < i ==> lengths@[j] != 0,
            None => forall|j: int| 0 <= j < lengths@.len() ==> lengths@[j] != 0,
        },
{
    let mut i: usize = 0;
    while i < lengths.len()
        invariant
            i <= lengths@.len(),
            forall|j: int| 0 <= j < i ==> lengths@[j] != 0,
        decreases lengths@.len() - i,
    {
        if lengths[i] == 0 {
            return Some(i);
        }
        i += 1;
    }
    None
}

/// Computes FPKM — fragments per kilobase of feature length per million
/// assigned fragments — for every feature, as the exact quotient
/// `count * 10^9 / (length * total)`.
///
/// A zero-length feature fails the whole computation with its position; a
/// run with zero assigned reads yields value zero for every feature.
pub fn calculate_fpkms(counts: &Vec<u64>, lengths: &Vec<u64>) -> (r: Result<
    Vec<NormalizedValue>,
    NormalizeError,
>)
    requires
        counts@.len() == lengths@.len(),
    ensures
        match r {
            Ok(values) => {
                &&& forall|j: int| 0 <= j < lengths@.len() ==> lengths@[j] != 0
                &&& values@.len() == counts@.len()
                &&& spec_total(counts@) == 0 ==> forall|i: int|
                    0 <= i < values@.len() ==> (#[trigger] values@[i]) == (NormalizedValue {
                        numerator: 0,
                        denominator: 1,
                    })
                &&& spec_total(counts@) > 0 ==> forall|i: int|
                    0 <= i < values@.len() ==> (#[trigger] values@[i]).numerator == counts@[i]
                        * 1000000000 && values@[i].denominator == lengths@[i] * spec_total(counts@)
                &&& forall|i: int| 0 <= i < values@.len() ==> (#[trigger] values@[i]).denominator
                    >= 1
            },
            Err(NormalizeError::ZeroLengthFeature(i)) => i < lengths@.len() && lengths@[i as int]
                == 0 && forall|j: int| 0 <= j < i ==> lengths@[j] != 0,
            Err(NormalizeError::Overflow) => (forall|j: int|
                0 <= j < lengths@.len() ==> lengths@[j] != 0) && exists|i: int|
                0 <= i < lengths@.len() && lengths@[i] * spec_total(counts@) > u128::MAX,
        },
        r is Err <==> ((exists|j: int| 0 <= j < lengths@.len() && lengths@[j] == 0) || (exists|
            i: int,
        |
            0 <= i < lengths@.len() && lengths@[i] * spec_total(counts@) > u128::MAX)),
{
    if let Some(i) = find_zero_length(lengths) {
        return Err(NormalizeError::ZeroLengthFeature(i));
    }

    let total: u128 = total_count(counts);
    let mut values: Vec<NormalizedValue> = Vec::new();
    let mut i: usize = 0;
    while i < counts.len()
        invariant
            i <= counts@.len(),
            counts@.len() == lengths@.len(),
            values@.len() == i,
            total == spec_total(counts@),
            forall|j: int| 0 <= j < lengths@.len() ==> lengths@[j] != 0,
            total == 0 ==> forall|k: int|
                0 <= k < i ==> (#[trigger] values@[k]) == (NormalizedValue {
                    numerator: 0,
                    denominator: 1,
                }),
            total > 0 ==> forall|k: int|
                0 <= k < i ==> (#[trigger] values@[k]).numerator == counts@[k] * 1000000000
                    && values@[k].denominator == lengths@[k] * spec_total(counts@),
            forall|k: int| 0 <= k < i ==> (#[trigger] values@[k]).denominator >= 1,
            forall|k: int| 0 <= k < i ==> lengths@[k] * spec_total(counts@) <= u128::MAX,
        decreases counts@.len() - i,
    {
        if total == 0 {
            values.push(NormalizedValue { numerator: 0, denominator: 1 });
        } else {
            let numerator: u128 = (counts[i] as u128) * 1000000000;
            proof {
                assert(lengths@[i as int] * spec_total(counts@) >= 1) by (nonlinear_arith)
                    requires
                        lengths@[i as int] >= 1,
                        spec_total(counts@) >= 1,
                ;
            }
            let denominator: u128 = match (lengths[i] as u128).checked_mul(total) {
                Some(d) => d,
                None => {
                    proof {
                        assert(lengths@[i as int] * spec_total(counts@) > u128::MAX);
                    }
                    return Err(NormalizeError::Overflow);
                },
            };
            values.push(NormalizedValue { numerator, denominator });
        }
        i += 1;
    }
    Ok(values)
}

/// Computes the scaled TPM rate of one feature.
fn rate_of(count: u64, length: u64) -> (rate: u128)
    requires
        length != 0,
    ensures
        rate == spec_rate(count, length),
        rate <= (u64::MAX as int) * 1000 * RATE_SCALE,
{
    let scaled: u128 = (count as u128) * 1000 * RATE_SCALE;
    proof {
        assert(scaled / (length as u128) <= scaled) by (nonlinear_arith)
            requires
                length >= 1,
        ;
        assert(scaled / (length as u128) == spec_rate(count, length));
    }
    scaled / (length as u128)
}

/// Computes TPM — transcripts per million — for every feature, as the exact
/// quotient `rate * 10^6 / sum_of_rates` over the scaled integer rates.
///
/// A zero-length feature fails the whole computation with its position; when
/// every rate is zero (no assigned reads) every value is zero.
pub fn calculate_tpms(counts: &Vec<u64>, lengths: &Vec<u64>) -> (r: Result<
    Vec<NormalizedValue>,
    NormalizeError,
>)
    requires
        counts@.len() == lengths@.len(),
    ensures
        match r {
            Ok(values) => {
                &&& forall|j: int| 0 <= j < lengths@.len() ==> lengths@[j] != 0
                &&& values@.len() == counts@.len()
                &&& spec_rate_sum(counts@, lengths@) == 0 ==> forall|i: int|
                    0 <= i < values@.len() ==> (#[trigger] values@[i]) == (NormalizedValue {
                        numerator: 0,
                        denominator: 1,
                    })
                &&& spec_rate_sum(counts@, lengths@) > 0 ==> forall|i: int|
                    0 <= i < values@.len() ==> (#[trigger] values@[i]).numerator == spec_rate(
                        counts@[i],
                        lengths@[i],
                    ) * 1000000 && values@[i].denominator == spec_rate_sum(counts@, lengths@)
                &&& forall|i: int| 0 <= i < values@.len() ==> (#[trigger] values@[i]).denominator
                    >= 1
            },
            Err(NormalizeError::ZeroLengthFeature(i)) => i < lengths@.len() && lengths@[i as int]
                == 0 && forall|j: int| 0 <= j < i ==> lengths@[j] != 0,
            Err(NormalizeError::Overflow) => (forall|j: int|
                0 <= j < lengths@.len() ==> lengths@[j] != 0) && spec_rate_sum(counts@, lengths@)
                > u128::MAX,
        },
        r is Err <==> ((exists|j: int| 0 <= j < lengths@.len() && lengths@[j] == 0)
            || spec_rate_sum(counts@, lengths@) > u128::MAX),
{
    if let Some(i) = find_zero_length(lengths) {
        return Err(NormalizeError::ZeroLengthFeature(i));
    }

    let mut sum: u128 = 0;
    let mut i: usize = 0;
    while i < counts.len()
        invariant
            i <= counts@.len(),
            counts@.len() == lengths@.len(),
            forall|j: int| 0 <= j < lengths@.len() ==> lengths@[j] != 0,
            sum == spec_rate_sum_prefix(counts@, lengths@, i as int),
        decreases counts@.len() - i,
    {
        proof {
            lemma_rate_sum_prefix_nonneg(counts@, lengths@, i as int);
            lemma_rate_nonneg(counts@[i as int], lengths@[i as int]);
        }
        let rate: u128 = rate_of(counts[i], lengths[i]);
        sum = match sum.checked_add(rate) {
            Some(s) => s,
            None => {
                proof {
                    lemma_rate_sum_prefix_mono(counts@, lengths@, i + 1, counts@.len() as int);
                }
                return Err(NormalizeError::Overflow);
            },
        };
        i += 1;
    }

    let mut values: Vec<NormalizedValue> = Vec::new();
    let mut k: usize = 0;
    while k < counts.len()
        invariant
            k <= counts@.len(),
            counts@.len() == lengths@.len(),
            values@.len() == k,
            forall|j: int| 0 <= j < lengths@.len() ==> lengths@[j] != 0,
            sum == spec_rate_sum(counts@, lengths@),
            sum == 0 ==> forall|j: int|
                0 <= j < k ==> (#[trigger] values@[j]) == (NormalizedValue {
                    numerator: 0,
                    denominator: 1,
                }),
            sum > 0 ==> forall|j: int|
                0 <= j < k ==> (#[trigger] values@[j]).numerator == spec_rate(
                    counts@[j],
                    lengths@[j],
                ) * 1000000 && values@[j].denominator == spec_rate_sum(counts@, lengths@),
            forall|j: int| 0 <= j < k ==> (#[trigger] values@[j]).denominator >= 1,
        decreases counts@.len() - k,
    {
        if sum == 0 {
            values.push(NormalizedValue { numerator: 0, denominator: 1 });
        } else {
            let rate: u128 = rate_of(counts[k], lengths[k]);
            proof {
                assert(rate * 1000000 <= ((u64::MAX as int) * 1000 * RATE_SCALE) * 1000000) by (
                nonlinear_arith)
                    requires
                        0 <= rate <= (u64::MAX as int) * 1000 * RATE_SCALE,
                ;
            }
            let numerator: u128 = rate * 1000000;
            values.push(NormalizedValue { numerator, denominator: sum });
        }
        k += 1;
    }
    Ok(values)
}

/// A scaled rate is non-negative.
proof fn lemma_rate_nonneg(count: u64, length: u64)
    requires
        length != 0,
    ensures
        spec_rate(count, length) >= 0,
{
    assert(spec_rate(count, length) >= 0) by (nonlinear_arith)
        requires
            length >= 1,
            count >= 0,
    ;
}

/// A prefix sum of rates is non-negative.
proof fn lemma_rate_sum_prefix_nonneg(counts: Seq<u64>, lengths: Seq<u64>, upto: int)
    requires
        counts.len() == lengths.len(),
        0 <= upto <= counts.len(),
        forall|j: int| 0 <= j < lengths.len() ==> lengths[j] != 0,
    ensures
        spec_rate_sum_prefix(counts, lengths, upto) >= 0,
    decreases upto,
{
    if upto > 0 {
        lemma_rate_sum_prefix_nonneg(counts, lengths, upto - 1);
        lemma_rate_nonneg(counts[upto - 1], lengths[upto - 1]);
    }
}

/// Prefix sums of rates grow with the prefix.
proof fn lemma_rate_sum_prefix_mono(counts: Seq<u64>, lengths: Seq<u64>, a: int, b: int)
    requires
        counts.len() == lengths.len(),
        0 <= a <= b <= counts.len(),
        forall|j: int| 0 <= j < lengths.len() ==> lengths[j] != 0,
    ensures
        spec_rate_sum_prefix(counts, lengths, a) <= spec_rate_sum_prefix(counts, lengths, b),
    decreases b - a,
{
    if a < b {
        lemma_rate_sum_prefix_mono(counts, lengths, a, b - 1);
        lemma_rate_nonneg(counts[b - 1], lengths[b - 1]);
    }
}

} // verus!
