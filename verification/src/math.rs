//! Matrix transposition and the error aggregation.
//!
//! The aggregation reduces a map of per-team standings differences to one
//! scalar: a root-mean-square error, regularised by the logarithm of the
//! standard deviation when the spread is small, with fixed sentinel
//! values for degenerate spreads. All branching is decided by verified
//! bit-level predicates on the arithmetic's answers, so which value comes
//! back is an exact function of the recorded exchanges.

use vstd::prelude::*;
use crate::bits::{is_nan_bits, is_infinite_bits, lt_bits, f64_bits_of_u64, f64_bits_of_i64,
    f64_from_u64, f64_from_i64, f64_is_nan, f64_is_infinite, f64_lt};
use crate::errors::EloError;
use crate::run_config::{RatingSystem, BITS_1};

verus! {

/// Bit pattern of the largest finite double, returned when a squared
/// difference is no longer finite.
pub const F64_MAX_BITS: u64 = 0x7FEFFFFFFFFFFFFF;

/// Bit pattern of the double 10000.0, the sentinel for a degenerate
/// (NaN or near-zero) spread.
pub const BITS_10000: u64 = 0x40C3880000000000;

/// Bit pattern of the double 1000.0, the sentinel for a degenerate
/// logarithm.
pub const BITS_1000: u64 = 0x408F400000000000;

/// Bit pattern of the double 0.2, the spread floor.
pub const BITS_0_2: u64 = 0x3FC999999999999A;

/// Bit pattern of the double 2.0, the logarithm's base.
pub const BITS_2: u64 = 0x4000000000000000;

/// Turns the rows of a non-empty rectangular matrix into columns.
pub fn transpose_matrix<T>(v: Vec<Vec<T>>) -> (r: Vec<Vec<T>>)
    requires
        v@.len() > 0,
        forall|q: int| 0 <= q < v@.len() ==> (#[trigger] v@[q])@.len() == v@[0]@.len(),
    ensures
        r@.len() == v@[0]@.len(),
        forall|i: int| 0 <= i < r@.len() ==> (#[trigger] r@[i])@.len() == v@.len(),
        forall|i: int, q: int| 0 <= i < r@.len() && 0 <= q < v@.len() ==> #[trigger] r@[i]@[q]
            == v@[q]@[i],
{
    let ghost orig = v@;
    let rows = v.len();
    let cols = v[0].len();
    let mut v = v;
    let mut out: Vec<Vec<T>> = Vec::new();
    let mut i: usize = 0;
    while i < cols
        invariant
            i <= cols,
            rows == orig.len(),
            cols == orig[0]@.len(),
            forall|q: int| 0 <= q < orig.len() ==> (#[trigger] orig[q])@.len() == cols,
            v@.len() == rows,
            forall|q: int| 0 <= q < rows ==> (#[trigger] v@[q])@ == orig[q]@.skip(i as int),
            out@.len() == i,
            forall|a: int| 0 <= a < i ==> (#[trigger] out@[a])@.len() == rows,
            forall|a: int, q: int| 0 <= a < i && 0 <= q < rows ==> #[trigger] out@[a]@[q]
                == orig[q]@[a],
        decreases cols - i,
    {
        let mut new_row: Vec<T> = Vec::new();
        let mut q: usize = 0;
        while q < rows
            invariant
                q <= rows,
                i < cols,
                rows == orig.len(),
                cols == orig[0]@.len(),
                forall|k: int| 0 <= k < orig.len() ==> (#[trigger] orig[k])@.len() == cols,
                v@.len() == rows,
                forall|k: int| 0 <= k < rows - q ==> (#[trigger] v@[k])@ == orig[q + k]@.skip(
                    i as int,
                ),
                forall|k: int| rows - q <= k < rows ==> (#[trigger] v@[k])@ == orig[k - (rows
                    - q)]@.skip(i + 1),
                new_row@.len() == q,
                forall|k: int| 0 <= k < q ==> #[trigger] new_row@[k] == orig[k]@[i as int],
            decreases rows - q,
        {
            let mut row = v.remove(0);
            proof {
                assert(row@ == orig[q as int]@.skip(i as int));
                assert(orig[q as int]@.skip(i as int)[0] == orig[q as int]@[i as int]);
                assert(orig[q as int]@.skip(i as int).remove(0) =~= orig[q as int]@.skip(i + 1));
            }
            let x = row.remove(0);
            new_row.push(x);
            v.push(row);
            proof {
                assert forall|k: int| 0 <= k < rows - (q + 1) implies (#[trigger] v@[k])@ == orig[
                    (q + 1) + k
                ]@.skip(i as int) by {}
            }
            q = q + 1;
        }
        out.push(new_row);
        i = i + 1;
    }
    out
}

/// The recorded exchanges of one averaging: the values handed in, the
/// in-order chained sum answers, the exact count conversion, and the
/// quotient that came back.
pub struct MeanLog {
    /// The values averaged, as handed in.
    pub values: Seq<u64>,
    /// What `add` returned at each step of the in-order sum.
    pub sums: Seq<u64>,
    /// The count as a double, as handed to `div` — an exact conversion.
    pub count_bits: u64,
    /// What `div` returned: the mean.
    pub quotient: u64,
}

/// The arithmetic mean of a list of doubles: their sum, in order, over
/// the count. Empty lists have none. The record pins the values averaged
/// and the exact count conversion; the returned value equals the
/// recorded quotient.
pub fn mean<K: RatingSystem>(kernel: &K, numbers: &Vec<u64>) -> (r: Option<(u64, Ghost<MeanLog>)>)
    requires
        numbers@.len() < 0x20000000000000,
    ensures
        r is Some <==> numbers@.len() > 0,
        r matches Some((v, l)) ==> {
            &&& l@.values == numbers@
            &&& l@.sums.len() == numbers@.len()
            &&& l@.count_bits == f64_bits_of_u64(numbers@.len() as u64)
            &&& v == l@.quotient
        },
{
    if numbers.is_empty() {
        return None;
    }
    let mut sum: u64 = 0;
    let mut sums: Ghost<Seq<u64>> = Ghost(Seq::empty());
    let n = numbers.len();
    let mut i: usize = 0;
    while i < n
        invariant
            i <= n,
            n == numbers@.len(),
            sums@.len() == i,
        decreases n - i,
    {
        sum = kernel.add(sum, numbers[i]);
        proof {
            sums@ = sums@.push(sum);
        }
        i = i + 1;
    }
    let count_bits = f64_from_u64(n as u64);
    let quotient = kernel.div(sum, count_bits);
    let ghost l = MeanLog { values: numbers@, sums: sums@, count_bits, quotient };
    Some((quotient, Ghost(l)))
}

/// A squared difference that the aggregation cannot use.
pub open spec fn bad_square(b: u64) -> bool {
    is_infinite_bits(b) || is_nan_bits(b)
}

/// The recorded exchanges of one aggregation: the exact conversions
/// handed in, and every answer the cascade's branches read.
pub struct RmseLog {
    /// The denominator used.
    pub n: nat,
    /// Bit patterns of the differences, exact conversions.
    pub diff_bits: Seq<u64>,
    /// What `add` returned at each step of the in-order difference sum.
    pub sums: Seq<u64>,
    /// What `div` returned for that sum over the denominator: the mean.
    pub mean: u64,
    /// What `sub` returned for each centred difference.
    pub centred: Seq<u64>,
    /// What `mul` returned for each squared centred difference, cut at
    /// the first non-finite one.
    pub squares: Seq<u64>,
    /// What `add` returned at each step of the squared sum.
    pub square_sums: Seq<u64>,
    /// What `sub` returned for the variance (mean square minus squared
    /// mean).
    pub variance: u64,
    /// What `sqrt` returned for the variance.
    pub std: u64,
    /// What `log` returned for the spread.
    pub log_std: u64,
    /// What `div` returned for the mean squared error.
    pub mse: u64,
    /// What `sqrt` returned for the mean squared error.
    pub mse_root: u64,
    /// What `div` returned for the regularised error.
    pub regularised: u64,
}

/// Some recorded square is non-finite.
pub open spec fn any_bad_square(l: RmseLog) -> bool {
    exists|i: int| 0 <= i < l.squares.len() && bad_square(#[trigger] l.squares[i])
}

/// The value the cascade returns for a given record: the largest finite
/// double on a non-finite square; 10000 on a NaN or near-zero spread;
/// 1000 on a degenerate logarithm; the log-regularised root on a small
/// spread; the plain root otherwise.
pub open spec fn rmse_result(l: RmseLog) -> u64 {
    if any_bad_square(l) {
        F64_MAX_BITS
    } else if is_nan_bits(l.std) || lt_bits(l.std, BITS_0_2) {
        BITS_10000
    } else if is_nan_bits(l.log_std) || is_infinite_bits(l.log_std) {
        BITS_1000
    } else if lt_bits(l.std, BITS_1) {
        l.regularised
    } else {
        l.mse_root
    }
}

/// The denominator an aggregation uses: the explicit override, or the
/// number of entries.
pub open spec fn rmse_denominator(diff_count: nat, season_match_count: Option<u32>) -> nat {
    match season_match_count {
        Some(c) => c as nat,
        None => diff_count,
    }
}

/// Reduces the per-team differences to one error value. Rejects a zero
/// denominator, and exactly that. On success the value returned is the
/// cascade's exact outcome for the recorded exchanges, whose inputs (the
/// difference conversions and the denominator) are pinned.
pub fn calculate_rmse<K: RatingSystem>(
    kernel: &K,
    elo_diffs: &Vec<(String, i64)>,
    season_match_count: Option<u32>,
) -> (r: Result<(u64, Ghost<RmseLog>), EloError>)
    requires
        elo_diffs@.len() < 0x100000000,
        forall|i: int| 0 <= i < elo_diffs@.len() ==> -0x20000000000000 < (
        #[trigger] elo_diffs@[i]).1 < 0x20000000000000,
    ensures
        r is Err <==> rmse_denominator(elo_diffs@.len() as nat, season_match_count) == 0,
        r matches Err(e) ==> e == EloError::EmptyDenominator,
        r matches Ok((v, l)) ==> {
            &&& l@.n == rmse_denominator(elo_diffs@.len() as nat, season_match_count)
            &&& l@.diff_bits.len() == elo_diffs@.len()
            &&& forall|i: int| 0 <= i < elo_diffs@.len() ==> l@.diff_bits[i] == f64_bits_of_i64(
                (#[trigger] elo_diffs@[i]).1,
            )
            &&& l@.sums.len() == elo_diffs@.len()
            &&& l@.centred.len() == l@.squares.len()
            &&& l@.squares.len() <= elo_diffs@.len()
            &&& forall|i: int| 0 <= i < l@.squares.len() - 1 ==> !bad_square(
                #[trigger] l@.squares[i],
            )
            &&& (!any_bad_square(l@) ==> l@.squares.len() == elo_diffs@.len()
                && l@.square_sums.len() == elo_diffs@.len())
            &&& v == rmse_result(l@)
        },
{
    let n_value: u32 = match season_match_count {
        Some(c) => c,
        None => elo_diffs.len() as u32,
    };
    if n_value == 0 {
        return Err(EloError::EmptyDenominator);
    }
    let n_bits = f64_from_u64(n_value as u64);
    let count = elo_diffs.len();
    let mut diff_bits: Vec<u64> = Vec::new();
    let mut sum: u64 = 0;
    let mut sums: Ghost<Seq<u64>> = Ghost(Seq::empty());
    let mut i: usize = 0;
    while i < count
        invariant
            i <= count,
            count == elo_diffs@.len(),
            forall|j: int| 0 <= j < count ==> -0x20000000000000 < (#[trigger] elo_diffs@[j]).1
                < 0x20000000000000,
            diff_bits@.len() == i,
            sums@.len() == i,
            forall|j: int| 0 <= j < i ==> #[trigger] diff_bits@[j] == f64_bits_of_i64(
                elo_diffs@[j].1,
            ),
        decreases count - i,
    {
        let db = f64_from_i64(elo_diffs[i].1);
        diff_bits.push(db);
        sum = kernel.add(sum, db);
        proof {
            sums@ = sums@.push(sum);
        }
        i = i + 1;
    }
    let mean_bits = kernel.div(sum, n_bits);
    let mut sum_squared: u64 = 0;
    let mut centred: Ghost<Seq<u64>> = Ghost(Seq::empty());
    let mut squares: Ghost<Seq<u64>> = Ghost(Seq::empty());
    let mut square_sums: Ghost<Seq<u64>> = Ghost(Seq::empty());
    let mut k: usize = 0;
    while k < count
        invariant
            k <= count,
            count == elo_diffs@.len(),
            count < 0x100000000,
            n_value != 0,
            n_value as nat == rmse_denominator(elo_diffs@.len() as nat, season_match_count),
            sums@.len() == count,
            diff_bits@.len() == count,
            forall|j: int| 0 <= j < count ==> #[trigger] diff_bits@[j] == f64_bits_of_i64(
                elo_diffs@[j].1,
            ),
            centred@.len() == k,
            squares@.len() == k,
            square_sums@.len() == k,
            forall|j: int| 0 <= j < k ==> !bad_square(#[trigger] squares@[j]),
        decreases count - k,
    {
        let dm = kernel.sub(diff_bits[k], mean_bits);
        let sq = kernel.mul(dm, dm);
        proof {
            centred@ = centred@.push(dm);
            squares@ = squares@.push(sq);
        }
        if f64_is_infinite(sq) || f64_is_nan(sq) {
            let ghost l = RmseLog {
                n: n_value as nat,
                diff_bits: diff_bits@,
                sums: sums@,
                mean: mean_bits,
                centred: centred@,
                squares: squares@,
                square_sums: square_sums@,
                variance: 0,
                std: 0,
                log_std: 0,
                mse: 0,
                mse_root: 0,
                regularised: 0,
            };
            proof {
                assert(bad_square(l.squares[l.squares.len() - 1]));
                assert(any_bad_square(l));
            }
            return Ok((F64_MAX_BITS, Ghost(l)));
        }
        sum_squared = kernel.add(sum_squared, sq);
        proof {
            square_sums@ = square_sums@.push(sum_squared);
        }
        k = k + 1;
    }
    let variance = kernel.sub(kernel.div(sum_squared, n_bits), kernel.mul(mean_bits, mean_bits));
    let std = kernel.sqrt(variance);
    if f64_is_nan(std) || f64_lt(std, BITS_0_2) {
        let ghost l = RmseLog {
            n: n_value as nat,
            diff_bits: diff_bits@,
            sums: sums@,
            mean: mean_bits,
            centred: centred@,
            squares: squares@,
            square_sums: square_sums@,
            variance,
            std,
            log_std: 0,
            mse: 0,
            mse_root: 0,
            regularised: 0,
        };
        proof {
            assert(!any_bad_square(l));
        }
        return Ok((BITS_10000, Ghost(l)));
    }
    let log_std = kernel.log(std, BITS_2);
    if f64_is_nan(log_std) || f64_is_infinite(log_std) {
        let ghost l = RmseLog {
            n: n_value as nat,
            diff_bits: diff_bits@,
            sums: sums@,
            mean: mean_bits,
            centred: centred@,
            squares: squares@,
            square_sums: square_sums@,
            variance,
            std,
            log_std,
            mse: 0,
            mse_root: 0,
            regularised: 0,
        };
        proof {
            assert(!any_bad_square(l));
        }
        return Ok((BITS_1000, Ghost(l)));
    }
    let mse = kernel.div(sum_squared, n_bits);
    let mse_root = kernel.sqrt(mse);
    if f64_lt(std, BITS_1) {
        let regularised = kernel.div(mse_root, log_std);
        let ghost l = RmseLog {
            n: n_value as nat,
            diff_bits: diff_bits@,
            sums: sums@,
            mean: mean_bits,
            centred: centred@,
            squares: squares@,
            square_sums: square_sums@,
            variance,
            std,
            log_std,
            mse,
            mse_root,
            regularised,
        };
        proof {
            assert(!any_bad_square(l));
        }
        Ok((regularised, Ghost(l)))
    } else {
        let regularised: u64 = 0;
        let ghost l = RmseLog {
            n: n_value as nat,
            diff_bits: diff_bits@,
            sums: sums@,
            mean: mean_bits,
            centred: centred@,
            squares: squares@,
            square_sums: square_sums@,
            variance,
            std,
            log_std,
            mse,
            mse_root,
            regularised,
        };
        proof {
            assert(!any_bad_square(l));
        }
        Ok((mse_root, Ghost(l)))
    }
}

} // verus!
