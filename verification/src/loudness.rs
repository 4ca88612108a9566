use crate::decibels::Decibels;
use crate::error::FilterError;
use vstd::prelude::*;

verus! {

/// The largest square of a sample: that of -32768.
pub const MAX_SQUARE: u128 = 0x4000_0000;

/// The sum of the squares of the samples of a window. Divided by their
/// number it is the mean square, whose root is the window's RMS amplitude.
pub open spec fn sum_of_squares(window: Seq<i16>) -> nat
    decreases window.len(),
{
    if window.len() == 0 {
        0
    } else {
        sum_of_squares(window.drop_last()) + (window.last() * window.last()) as nat
    }
}

/// No square exceeds that of the most negative sample, so the sum grows by
/// at most that much with each sample.
pub proof fn lemma_sum_of_squares_is_bounded(window: Seq<i16>)
    ensures
        sum_of_squares(window) <= window.len() * MAX_SQUARE,
    decreases window.len(),
{
    if window.len() > 0 {
        lemma_sum_of_squares_is_bounded(window.drop_last());
        let s = window.last() as int;
        assert(0 <= s * s <= MAX_SQUARE) by (nonlinear_arith)
            requires
                -32768 <= s <= 32767,
        ;
    }
}

/// The sum over a window of at most 2^23 samples stays below 2^53, so that
/// a binary64 number holds it exactly, and so does every sum on the way to
/// it. The windows that [`crate::window::window_size_for_rate`] gives are
/// that short.
pub proof fn lemma_sum_of_squares_is_exact_in_binary64(window: Seq<i16>)
    requires
        window.len() <= 0x80_0000,
    ensures
        sum_of_squares(window) <= 0x20_0000_0000_0000,
{
    lemma_sum_of_squares_is_bounded(window);
}

/// The sum of squares is zero for silence and for nothing else.
pub proof fn lemma_only_silence_sums_to_zero(window: Seq<i16>)
    ensures
        sum_of_squares(window) == 0 <==> forall|i: int| 0 <= i < window.len() ==> window[i] == 0,
    decreases window.len(),
{
    if window.len() > 0 {
        let front = window.drop_last();
        lemma_only_silence_sums_to_zero(front);
        let s = window.last() as int;
        assert(s * s >= 0 && (s * s == 0 <==> s == 0)) by (nonlinear_arith);
        if sum_of_squares(window) == 0 {
            assert forall|i: int| 0 <= i < window.len() implies window[i] == 0 by {
                if i < front.len() {
                    assert(front[i] == window[i]);
                }
            }
        }
        if forall|i: int| 0 <= i < window.len() ==> window[i] == 0 {
            assert forall|i: int| 0 <= i < front.len() implies front[i] == 0 by {
                assert(front[i] == window[i]);
            }
        }
    }
}

/// The sum of the squares of the samples of `window`, exactly.
pub fn energy(window: &[i16]) -> (sum: u128)
    ensures
        sum == sum_of_squares(window@),
{
    let mut sum: u128 = 0;
    let mut i: usize = 0;
    while i < window.len()
        invariant
            i <= window@.len(),
            sum == sum_of_squares(window@.take(i as int)),
            sum <= i * MAX_SQUARE,
        decreases window@.len() - i,
    {
        let sample: i32 = window[i] as i32;
        assert(0 <= sample * sample <= MAX_SQUARE) by (nonlinear_arith)
            requires
                -32768 <= sample <= 32767,
        ;
        let square: u128 = (sample * sample) as u128;
        assert(window@.take(i + 1).drop_last() =~= window@.take(i as int));
        sum = sum + square;
        i += 1;
    }
    assert(window@.take(window@.len() as int) =~= window@);
    sum
}

/// The converter can be called on what `window` sums up to.
pub open spec fn can_rate<F: Fn(u128, usize) -> Decibels>(
    to_decibels: F,
    window: Seq<i16>,
) -> bool {
    call_requires(to_decibels, (sum_of_squares(window) as u128, window.len() as usize))
}

/// The converter may return `score` for what `window` sums up to.
pub open spec fn may_rate<F: Fn(u128, usize) -> Decibels>(
    to_decibels: F,
    window: Seq<i16>,
    score: Decibels,
) -> bool {
    call_ensures(to_decibels, (sum_of_squares(window) as u128, window.len() as usize), score)
}

/// The loudness of a window in decibels.
///
/// The window's sum of squares is taken here, exactly. `to_decibels` gets
/// that sum and the number of samples, and returns the level of their
/// quotient's root: twenty times the decimal logarithm of the RMS amplitude,
/// which is negative infinity for silence.
///
/// An empty window has no mean: it fails with `InvalidInput`, and the
/// converter is not called.
pub fn loudness<F: Fn(u128, usize) -> Decibels>(window: &[i16], to_decibels: &F) -> (r: Result<
    Decibels,
    FilterError,
>)
    requires
        window@.len() > 0 ==> can_rate(*to_decibels, window@),
    ensures
        window@.len() == 0 ==> r == Err::<Decibels, FilterError>(FilterError::InvalidInput),
        window@.len() > 0 ==> r is Ok && may_rate(*to_decibels, window@, r->Ok_0),
{
    if window.len() == 0 {
        return Err(FilterError::InvalidInput);
    }
    let sum: u128 = energy(window);
    Ok(to_decibels(sum, window.len()))
}

} // verus!
