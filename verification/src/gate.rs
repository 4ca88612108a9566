use crate::decibels::Decibels;
use crate::error::FilterError;
use crate::loudness::{can_rate, loudness, may_rate};
use crate::window::{
    count_windows, lemma_pass_advances, lemma_window_starts_inside, reached, window, window_count,
};
use vstd::prelude::*;

verus! {

/// Window `index` is admitted: its score is at least the threshold.
pub open spec fn admitted(scores: Seq<Decibels>, threshold: Decibels, index: nat) -> bool {
    scores[index as int]@.at_least(threshold@)
}

/// How many of the first `upto` windows are admitted.
pub open spec fn admitted_count(scores: Seq<Decibels>, threshold: Decibels, upto: nat) -> nat
    decreases upto,
{
    if upto == 0 {
        0
    } else {
        let before = admitted_count(scores, threshold, (upto - 1) as nat);
        if admitted(scores, threshold, (upto - 1) as nat) {
            before + 1
        } else {
            before
        }
    }
}

/// What passes of the first `upto` windows: the samples of
/// each admitted window, whole and in order.
pub open spec fn kept(
    samples: Seq<i16>,
    size: nat,
    scores: Seq<Decibels>,
    threshold: Decibels,
    upto: nat,
) -> Seq<i16>
    decreases upto,
{
    if upto == 0 {
        Seq::empty()
    } else {
        let before = kept(samples, size, scores, threshold, (upto - 1) as nat);
        if admitted(scores, threshold, (upto - 1) as nat) {
            before + window(samples, size, (upto - 1) as nat)
        } else {
            before
        }
    }
}

/// `scores` holds one score for each window of the samples.
pub open spec fn one_score_each(samples: Seq<i16>, size: nat, scores: Seq<Decibels>) -> bool {
    scores.len() == window_count(samples.len(), size)
}

/// Gates the windows of `samples` by the scores given for them.
///
/// `scores[k]` is the loudness of window `k`. The result joins, in order, the
/// windows whose score is at least `threshold`; a window is never taken in
/// part. A score or a threshold that is not a number admits nothing.
///
/// Fails with `InvalidInput` when `window_size` is zero, and with
/// `ScoreCountMismatch` when the scores are not one for each window.
pub fn gate_windows(
    samples: &[i16],
    window_size: usize,
    scores: &[Decibels],
    threshold: Decibels,
) -> (r: Result<Vec<i16>, FilterError>)
    ensures
        window_size == 0 ==> r == Err::<Vec<i16>, FilterError>(FilterError::InvalidInput),
        window_size > 0 && !one_score_each(samples@, window_size as nat, scores@) ==> r == Err::<
            Vec<i16>,
            FilterError,
        >(FilterError::ScoreCountMismatch),
        window_size > 0 && one_score_each(samples@, window_size as nat, scores@) ==> r is Ok
            && r->Ok_0@ == kept(samples@, window_size as nat, scores@, threshold, scores@.len()),
        r is Ok ==> r->Ok_0@.len() <= samples@.len(),
        r is Ok && samples@.len() == 0 ==> r->Ok_0@ == Seq::<i16>::empty(),
{
    let count: usize = match count_windows(samples.len(), window_size) {
        Ok(n) => n,
        Err(e) => {
            return Err(e);
        },
    };
    if scores.len() != count {
        return Err(FilterError::ScoreCountMismatch);
    }
    let ghost len = samples@.len();
    let ghost size = window_size as nat;
    let mut out: Vec<i16> = Vec::new();
    let mut start: usize = 0;
    let mut index: usize = 0;
    proof {
        lemma_window_starts_inside(len, size, 0);
    }
    while index < count
        invariant
            window_size > 0,
            len == samples@.len(),
            size == window_size as nat,
            count == window_count(len, size),
            scores@.len() == count,
            index <= count,
            start == reached(len, size, index as nat),
            out@ == kept(samples@, size, scores@, threshold, index as nat),
            out@.len() <= start <= len,
        decreases count - index,
    {
        proof {
            lemma_pass_advances(len, size, index as nat);
        }
        let rest: usize = samples.len() - start;
        let end: usize = if window_size <= rest {
            start + window_size
        } else {
            samples.len()
        };
        if scores[index].at_least(&threshold) {
            out.extend_from_slice(&samples[start..end]);
            assert(out@ == kept(samples@, size, scores@, threshold, index as nat) + window(
                samples@,
                size,
                index as nat,
            ));
        }
        start = end;
        index += 1;
    }
    Ok(out)
}

/// The converter can be called on what each window of the samples sums up to.
pub open spec fn rates_windows<F: Fn(u128, usize) -> Decibels>(
    to_decibels: F,
    samples: Seq<i16>,
    size: nat,
) -> bool {
    forall|k: nat|
        k < window_count(samples.len(), size) ==> can_rate(
            to_decibels,
            #[trigger] window(samples, size, k),
        )
}

/// `scores` holds, for each window of the samples, a loudness that the
/// converter may return for it.
pub open spec fn rated<F: Fn(u128, usize) -> Decibels>(
    to_decibels: F,
    samples: Seq<i16>,
    size: nat,
    scores: Seq<Decibels>,
) -> bool {
    &&& one_score_each(samples, size, scores)
    &&& forall|k: int|
        0 <= k < scores.len() ==> may_rate(
            to_decibels,
            window(samples, size, k as nat),
            #[trigger] scores[k],
        )
}

/// Removes the quiet windows from `samples`.
///
/// Goes over the samples once, window by window. Each window is appended
/// whole to the result when its loudness is at least `threshold`, and is
/// left out whole otherwise. The loudness of a window is what `to_decibels`
/// returns for its sum of squares and its number of samples (see
/// [`loudness`]); it is asked for non-empty windows only.
///
/// Fails with `InvalidInput` exactly when `window_size` is zero, before any
/// window is looked at.
pub fn filter_silence<F: Fn(u128, usize) -> Decibels>(
    samples: &[i16],
    window_size: usize,
    threshold: Decibels,
    to_decibels: F,
) -> (r: Result<Vec<i16>, FilterError>)
    requires
        window_size > 0 ==> rates_windows(to_decibels, samples@, window_size as nat),
    ensures
        window_size == 0 ==> r == Err::<Vec<i16>, FilterError>(FilterError::InvalidInput),
        window_size > 0 ==> r is Ok && exists|scores: Seq<Decibels>|
            rated(to_decibels, samples@, window_size as nat, scores) && r->Ok_0@ == kept(
                samples@,
                window_size as nat,
                scores,
                threshold,
                scores.len(),
            ),
        r is Ok ==> r->Ok_0@.len() <= samples@.len(),
        r is Ok && samples@.len() == 0 ==> r->Ok_0@ == Seq::<i16>::empty(),
{
    if window_size == 0 {
        return Err(FilterError::InvalidInput);
    }
    let ghost len = samples@.len();
    let ghost size = window_size as nat;
    let ghost mut scores: Seq<Decibels> = Seq::empty();
    let mut out: Vec<i16> = Vec::new();
    let mut start: usize = 0;
    proof {
        lemma_window_starts_inside(len, size, 0);
    }
    while start < samples.len()
        invariant
            window_size > 0,
            len == samples@.len(),
            size == window_size as nat,
            rates_windows(to_decibels, samples@, size),
            scores.len() <= window_count(len, size),
            start == reached(len, size, scores.len()),
            forall|k: int|
                0 <= k < scores.len() ==> may_rate(
                    to_decibels,
                    window(samples@, size, k as nat),
                    #[trigger] scores[k],
                ),
            out@ == kept(samples@, size, scores, threshold, scores.len()),
            out@.len() <= start <= len,
        decreases len - start,
    {
        let ghost index = scores.len();
        proof {
            lemma_window_starts_inside(len, size, index);
            lemma_pass_advances(len, size, index);
        }
        let rest: usize = samples.len() - start;
        let end: usize = if window_size <= rest {
            start + window_size
        } else {
            samples.len()
        };
        let current: &[i16] = &samples[start..end];
        assert(current@ == window(samples@, size, index));
        let score: Decibels = match loudness(current, &to_decibels) {
            Ok(score) => score,
            Err(e) => {
                return Err(e);
            },
        };
        proof {
            let ghost earlier = scores;
            scores = scores.push(score);
            assert forall|k: int| 0 <= k < scores.len() implies may_rate(
                to_decibels,
                window(samples@, size, k as nat),
                #[trigger] scores[k],
            ) by {
                if k < index {
                    assert(scores[k] == earlier[k]);
                }
            }
            lemma_kept_ignores_later(samples@, size, earlier, scores, threshold, index);
        }
        if score.at_least(&threshold) {
            out.extend_from_slice(current);
            assert(out@ == kept(samples@, size, scores, threshold, index) + window(
                samples@,
                size,
                index,
            ));
        }
        start = end;
    }
    proof {
        lemma_window_starts_inside(len, size, scores.len());
        assert(rated(to_decibels, samples@, size, scores));
    }
    Ok(out)
}

/// What is kept of the first `upto` windows depends on their scores alone.
pub proof fn lemma_kept_ignores_later(
    samples: Seq<i16>,
    size: nat,
    first: Seq<Decibels>,
    second: Seq<Decibels>,
    threshold: Decibels,
    upto: nat,
)
    requires
        upto <= first.len(),
        upto <= second.len(),
        forall|k: int| 0 <= k < upto ==> first[k] == second[k],
    ensures
        kept(samples, size, first, threshold, upto) == kept(samples, size, second, threshold, upto),
    decreases upto,
{
    if upto > 0 {
        lemma_kept_ignores_later(samples, size, first, second, threshold, (upto - 1) as nat);
    }
}

} // verus!
