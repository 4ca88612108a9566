use crate::decibels::{
    lemma_at_least_transitive, lemma_negative_infinity_is_below, Decibels, Level,
};
use crate::error::FilterError;
use crate::gate::{
    admitted, admitted_count, filter_silence, gate_windows, kept, one_score_each, rated,
    rates_windows,
};
use crate::loudness::{lemma_only_silence_sums_to_zero, may_rate, sum_of_squares};
use crate::window::{
    lemma_pass_advances, lemma_window_extent, lemma_window_starts_inside, reached, window,
    window_count,
};
use vstd::prelude::*;

verus! {

/// A window whose score equals the threshold is admitted.
pub proof fn lemma_equal_score_is_admitted(
    scores: Seq<Decibels>,
    threshold: Decibels,
    index: nat,
)
    requires
        index < scores.len(),
        scores[index as int]@.equals(threshold@),
    ensures
        admitted(scores, threshold, index),
{
}

/// Raising the threshold admits no window that was not admitted before, so
/// it never raises the number of admitted windows nor the number of samples
/// kept.
pub proof fn lemma_threshold_monotone(
    samples: Seq<i16>,
    size: nat,
    scores: Seq<Decibels>,
    lower: Decibels,
    higher: Decibels,
    upto: nat,
)
    requires
        higher@.at_least(lower@),
        upto <= scores.len(),
    ensures
        forall|k: nat| k < upto && admitted(scores, higher, k) ==> admitted(scores, lower, k),
        admitted_count(scores, higher, upto) <= admitted_count(scores, lower, upto),
        kept(samples, size, scores, higher, upto).len() <= kept(
            samples,
            size,
            scores,
            lower,
            upto,
        ).len(),
    decreases upto,
{
    assert forall|k: nat| k < upto && admitted(scores, higher, k) implies admitted(
        scores,
        lower,
        k,
    ) by {
        lemma_at_least_transitive(scores[k as int]@, higher@, lower@);
    }
    if upto > 0 {
        lemma_threshold_monotone(samples, size, scores, lower, higher, (upto - 1) as nat);
    }
}

/// Where the samples of window `index` begin in the output, if the window
/// is admitted: behind everything kept of the windows before it.
pub open spec fn place(
    samples: Seq<i16>,
    size: nat,
    scores: Seq<Decibels>,
    threshold: Decibels,
    index: nat,
) -> nat {
    kept(samples, size, scores, threshold, index).len()
}

/// The output only grows: what is kept of the first `from` windows stands
/// unchanged at the front of what is kept of the first `upto`.
pub proof fn lemma_kept_grows(
    samples: Seq<i16>,
    size: nat,
    scores: Seq<Decibels>,
    threshold: Decibels,
    from: nat,
    upto: nat,
)
    requires
        from <= upto,
    ensures
        place(samples, size, scores, threshold, from) <= place(
            samples,
            size,
            scores,
            threshold,
            upto,
        ),
        kept(samples, size, scores, threshold, upto).subrange(
            0,
            place(samples, size, scores, threshold, from) as int,
        ) == kept(samples, size, scores, threshold, from),
    decreases upto,
{
    if from < upto {
        lemma_kept_grows(samples, size, scores, threshold, from, (upto - 1) as nat);
    }
}

/// An admitted window stands in the output whole and unbroken, its samples
/// in the order of the input.
pub proof fn lemma_admitted_window_is_whole(
    samples: Seq<i16>,
    size: nat,
    scores: Seq<Decibels>,
    threshold: Decibels,
    index: nat,
    upto: nat,
)
    requires
        index < upto,
        admitted(scores, threshold, index),
    ensures
        place(samples, size, scores, threshold, index) + window(samples, size, index).len()
            <= kept(samples, size, scores, threshold, upto).len(),
        kept(samples, size, scores, threshold, upto).subrange(
            place(samples, size, scores, threshold, index) as int,
            (place(samples, size, scores, threshold, index) + window(samples, size, index).len())
                as int,
        ) == window(samples, size, index),
{
    lemma_kept_grows(samples, size, scores, threshold, index + 1, upto);
    let whole = kept(samples, size, scores, threshold, upto);
    let front = kept(samples, size, scores, threshold, index + 1);
    let at = place(samples, size, scores, threshold, index) as int;
    let w = window(samples, size, index);
    assert(front == kept(samples, size, scores, threshold, index) + w);
    assert(whole.subrange(at, at + w.len()) =~= whole.subrange(0, front.len() as int).subrange(
        at,
        at + w.len(),
    ));
    assert(front.subrange(at, at + w.len()) =~= w);
}

/// Of two admitted windows, each stands whole in the output, and all samples
/// of the earlier one come before all samples of the later one.
pub proof fn lemma_order_is_preserved(
    samples: Seq<i16>,
    size: nat,
    scores: Seq<Decibels>,
    threshold: Decibels,
    earlier: nat,
    later: nat,
    upto: nat,
)
    requires
        earlier < later < upto,
        admitted(scores, threshold, earlier),
        admitted(scores, threshold, later),
    ensures
        ({
            let output = kept(samples, size, scores, threshold, upto);
            let first = place(samples, size, scores, threshold, earlier) as int;
            let first_end = first + window(samples, size, earlier).len();
            let second = place(samples, size, scores, threshold, later) as int;
            let second_end = second + window(samples, size, later).len();
            &&& 0 <= first <= first_end <= second <= second_end <= output.len()
            &&& output.subrange(first, first_end) == window(samples, size, earlier)
            &&& output.subrange(second, second_end) == window(samples, size, later)
        }),
{
    lemma_kept_grows(samples, size, scores, threshold, earlier + 1, later);
    lemma_admitted_window_is_whole(samples, size, scores, threshold, earlier, upto);
    lemma_admitted_window_is_whole(samples, size, scores, threshold, later, upto);
}

/// No window is split: every sample of the output belongs to an admitted
/// window, and stands where that window, taken whole, puts it.
pub proof fn lemma_no_window_is_split(
    samples: Seq<i16>,
    size: nat,
    scores: Seq<Decibels>,
    threshold: Decibels,
    upto: nat,
    position: nat,
) -> (index: nat)
    requires
        position < kept(samples, size, scores, threshold, upto).len(),
    ensures
        index < upto,
        admitted(scores, threshold, index),
        place(samples, size, scores, threshold, index) <= position < place(
            samples,
            size,
            scores,
            threshold,
            index,
        ) + window(samples, size, index).len(),
        kept(samples, size, scores, threshold, upto)[position as int] == window(
            samples,
            size,
            index,
        )[position - place(samples, size, scores, threshold, index)],
    decreases upto,
{
    let before = kept(samples, size, scores, threshold, (upto - 1) as nat);
    if position < before.len() {
        lemma_no_window_is_split(samples, size, scores, threshold, (upto - 1) as nat, position)
    } else {
        (upto - 1) as nat
    }
}

/// The lengths of the admitted windows among the first `upto`, added up.
pub open spec fn admitted_length(
    samples: Seq<i16>,
    size: nat,
    scores: Seq<Decibels>,
    threshold: Decibels,
    upto: nat,
) -> nat
    decreases upto,
{
    if upto == 0 {
        0
    } else {
        let before = admitted_length(samples, size, scores, threshold, (upto - 1) as nat);
        if admitted(scores, threshold, (upto - 1) as nat) {
            before + window(samples, size, (upto - 1) as nat).len()
        } else {
            before
        }
    }
}

/// The length of the output is a sum of whole window lengths: those of the
/// admitted windows.
pub proof fn lemma_kept_length_is_a_sum_of_windows(
    samples: Seq<i16>,
    size: nat,
    scores: Seq<Decibels>,
    threshold: Decibels,
    upto: nat,
)
    ensures
        kept(samples, size, scores, threshold, upto).len() == admitted_length(
            samples,
            size,
            scores,
            threshold,
            upto,
        ),
    decreases upto,
{
    if upto > 0 {
        lemma_kept_length_is_a_sum_of_windows(samples, size, scores, threshold, (upto - 1) as nat);
    }
}

/// Where the first `upto` windows are all full, the output holds `size`
/// samples for each admitted one.
pub proof fn lemma_kept_length_of_full_windows(
    samples: Seq<i16>,
    size: nat,
    scores: Seq<Decibels>,
    threshold: Decibels,
    upto: nat,
)
    requires
        size > 0,
        upto * size <= samples.len(),
    ensures
        kept(samples, size, scores, threshold, upto).len() == admitted_count(
            scores,
            threshold,
            upto,
        ) * size,
    decreases upto,
{
    if upto > 0 {
        let index = (upto - 1) as nat;
        assert(index * size + size == upto * size) by (nonlinear_arith)
            requires
                index + 1 == upto,
        ;
        lemma_kept_length_of_full_windows(samples, size, scores, threshold, index);
        assert(window(samples, size, index).len() == size);
        let count = admitted_count(scores, threshold, index);
        assert((count + 1) * size == count * size + size) by (nonlinear_arith);
    } else {
        assert(admitted_count(scores, threshold, 0) * size == 0) by (nonlinear_arith)
            requires
                admitted_count(scores, threshold, 0) == 0,
        ;
    }
}

/// The output is never longer than what the pass has gone over, and so never
/// longer than the input.
pub proof fn lemma_kept_within_input(
    samples: Seq<i16>,
    size: nat,
    scores: Seq<Decibels>,
    threshold: Decibels,
    upto: nat,
)
    requires
        size > 0,
        upto <= window_count(samples.len(), size),
    ensures
        kept(samples, size, scores, threshold, upto).len() <= reached(samples.len(), size, upto),
        reached(samples.len(), size, upto) <= samples.len(),
    decreases upto,
{
    if upto > 0 {
        lemma_kept_within_input(samples, size, scores, threshold, (upto - 1) as nat);
        lemma_pass_advances(samples.len(), size, (upto - 1) as nat);
    } else {
        lemma_window_starts_inside(samples.len(), size, 0);
    }
}

/// Where every window is admitted, the output is the input.
pub proof fn lemma_all_admitted_keeps_input(
    samples: Seq<i16>,
    size: nat,
    scores: Seq<Decibels>,
    threshold: Decibels,
    upto: nat,
)
    requires
        size > 0,
        upto <= window_count(samples.len(), size),
        forall|k: nat| k < upto ==> admitted(scores, threshold, k),
    ensures
        kept(samples, size, scores, threshold, upto) == samples.subrange(
            0,
            reached(samples.len(), size, upto) as int,
        ),
        upto == window_count(samples.len(), size) ==> kept(samples, size, scores, threshold, upto)
            == samples,
    decreases upto,
{
    let len = samples.len();
    if upto > 0 {
        let index = (upto - 1) as nat;
        lemma_all_admitted_keeps_input(samples, size, scores, threshold, index);
        lemma_pass_advances(len, size, index);
        assert(admitted(scores, threshold, index));
        assert(samples.subrange(0, reached(len, size, index) as int) + window(
            samples,
            size,
            index,
        ) =~= samples.subrange(0, reached(len, size, upto) as int));
    } else {
        lemma_window_starts_inside(len, size, 0);
    }
    if upto == window_count(len, size) {
        assert(samples.subrange(0, len as int) =~= samples);
    }
}

/// Where no window is admitted, the output is empty.
pub proof fn lemma_none_admitted_keeps_nothing(
    samples: Seq<i16>,
    size: nat,
    scores: Seq<Decibels>,
    threshold: Decibels,
    upto: nat,
)
    requires
        forall|k: nat| k < upto ==> !admitted(scores, threshold, k),
    ensures
        kept(samples, size, scores, threshold, upto) == Seq::<i16>::empty(),
    decreases upto,
{
    if upto > 0 {
        lemma_none_admitted_keeps_nothing(samples, size, scores, threshold, (upto - 1) as nat);
        assert(!admitted(scores, threshold, (upto - 1) as nat));
    }
}

/// Windows that all score negative infinity, as windows of zeros do, leave
/// nothing behind under any threshold but negative infinity itself: under
/// every finite threshold in particular.
pub proof fn lemma_silence_is_dropped(
    samples: Seq<i16>,
    size: nat,
    scores: Seq<Decibels>,
    threshold: Decibels,
    upto: nat,
)
    requires
        upto <= scores.len(),
        forall|k: int| 0 <= k < upto ==> scores[k]@ == Level::NegativeInfinity,
        threshold@ != Level::NegativeInfinity,
    ensures
        kept(samples, size, scores, threshold, upto) == Seq::<i16>::empty(),
{
    assert forall|k: nat| k < upto implies !admitted(scores, threshold, k) by {
        lemma_negative_infinity_is_below(threshold@);
    }
    lemma_none_admitted_keeps_nothing(samples, size, scores, threshold, upto);
}

/// The converter gives negative infinity for a sum of squares of zero, as
/// the logarithm of a root mean square of zero is.
pub open spec fn rates_silence_lowest<F: Fn(u128, usize) -> Decibels>(to_decibels: F) -> bool {
    forall|count: usize, score: Decibels|
        count > 0 && #[trigger] call_ensures(to_decibels, (0u128, count), score) ==> score@
            == Level::NegativeInfinity
}

/// With a converter that gives negative infinity for silence, samples that
/// are all zero leave nothing behind under any finite threshold, whatever
/// the window size.
pub proof fn lemma_zero_input_is_dropped<F: Fn(u128, usize) -> Decibels>(
    to_decibels: F,
    samples: Seq<i16>,
    size: nat,
    scores: Seq<Decibels>,
    threshold: Decibels,
)
    requires
        size > 0,
        samples.len() <= usize::MAX,
        forall|i: int| 0 <= i < samples.len() ==> samples[i] == 0,
        rates_silence_lowest(to_decibels),
        rated(to_decibels, samples, size, scores),
        threshold@ is Finite,
    ensures
        kept(samples, size, scores, threshold, scores.len()) == Seq::<i16>::empty(),
{
    assert forall|k: int| 0 <= k < scores.len() implies scores[k]@
        == Level::NegativeInfinity by {
        let w = window(samples, size, k as nat);
        lemma_window_extent(samples.len(), size, k as nat);
        lemma_only_silence_sums_to_zero(w);
        assert(sum_of_squares(w) == 0);
        assert(may_rate(to_decibels, w, scores[k]));
    }
    lemma_silence_is_dropped(samples, size, scores, threshold, scores.len());
}

/// No samples, no windows: the output of an empty input is empty.
pub proof fn lemma_empty_input(
    samples: Seq<i16>,
    size: nat,
    scores: Seq<Decibels>,
    threshold: Decibels,
)
    requires
        size > 0,
        samples.len() == 0,
    ensures
        window_count(samples.len(), size) == 0,
        one_score_each(samples, size, scores) <==> scores.len() == 0,
        one_score_each(samples, size, scores) ==> kept(
            samples,
            size,
            scores,
            threshold,
            scores.len(),
        ) == Seq::<i16>::empty(),
{
    assert(0nat % size == 0 && 0nat / size == 0) by (nonlinear_arith)
        requires
            size > 0,
    ;
}

/// Samples that do not fill one window make a single window, which is all of
/// them: it is not padded, and is kept or dropped as a whole.
pub proof fn lemma_single_short_window(
    samples: Seq<i16>,
    size: nat,
    scores: Seq<Decibels>,
    threshold: Decibels,
)
    requires
        0 < samples.len() <= size,
        scores.len() == 1,
    ensures
        window_count(samples.len(), size) == 1,
        window(samples, size, 0) == samples,
        kept(samples, size, scores, threshold, 1) == if admitted(scores, threshold, 0) {
            samples
        } else {
            Seq::<i16>::empty()
        },
{
    let len = samples.len();
    lemma_window_starts_inside(len, size, 0);
    lemma_window_starts_inside(len, size, 1);
    assert(window_count(len, size) == 1) by {
        if window_count(len, size) > 1 {
            lemma_window_starts_inside(len, size, 1);
        }
    }
    assert(window(samples, size, 0) =~= samples);
    reveal_with_fuel(kept, 2);
    assert(Seq::<i16>::empty() + samples =~= samples);
}

/// A converter that takes every sum of a non-empty window takes every window
/// of the samples, since none of them is empty.
pub proof fn lemma_windows_can_be_rated<F: Fn(u128, usize) -> Decibels>(
    to_decibels: F,
    samples: Seq<i16>,
    size: nat,
)
    requires
        size > 0,
        samples.len() <= usize::MAX,
        forall|sum: u128, count: usize|
            count > 0 ==> #[trigger] call_requires(to_decibels, (sum, count)),
    ensures
        rates_windows(to_decibels, samples, size),
{
    assert forall|k: nat| k < window_count(samples.len(), size) implies crate::loudness::can_rate(
        to_decibels,
        #[trigger] window(samples, size, k),
    ) by {
        lemma_window_extent(samples.len(), size, k);
    }
}

/// Gating is a function of its arguments: two runs on the same samples,
/// window size, scores and threshold end alike, with the same error or with
/// the same output, sample for sample.
pub proof fn lemma_gate_windows_is_deterministic(
    samples: &[i16],
    window_size: usize,
    scores: &[Decibels],
    threshold: Decibels,
    first: Result<Vec<i16>, FilterError>,
    second: Result<Vec<i16>, FilterError>,
)
    requires
        call_ensures(gate_windows, (samples, window_size, scores, threshold), first),
        call_ensures(gate_windows, (samples, window_size, scores, threshold), second),
    ensures
        first is Ok <==> second is Ok,
        first is Ok ==> first->Ok_0@ == second->Ok_0@,
        first is Err ==> first->Err_0 == second->Err_0,
{
}

/// The converter returns one level for one sum and count.
pub open spec fn is_deterministic<F: Fn(u128, usize) -> Decibels>(to_decibels: F) -> bool {
    forall|sum: u128, count: usize, a: Decibels, b: Decibels|
        #[trigger] call_ensures(to_decibels, (sum, count), a) && #[trigger] call_ensures(
            to_decibels,
            (sum, count),
            b,
        ) ==> a == b
}

/// With a converter that returns one level for one sum and count, the
/// loudness of every window is determined.
pub proof fn lemma_scores_are_determined<F: Fn(u128, usize) -> Decibels>(
    to_decibels: F,
    samples: Seq<i16>,
    size: nat,
    first: Seq<Decibels>,
    second: Seq<Decibels>,
)
    requires
        is_deterministic(to_decibels),
        rated(to_decibels, samples, size, first),
        rated(to_decibels, samples, size, second),
    ensures
        first == second,
{
    assert forall|k: int| 0 <= k < first.len() implies first[k] == second[k] by {
        assert(may_rate(to_decibels, window(samples, size, k as nat), first[k]));
        assert(may_rate(to_decibels, window(samples, size, k as nat), second[k]));
    }
    assert(first =~= second);
}

/// With a converter that returns one level for one sum and count, filtering
/// is a function of its arguments: two runs on the same samples, window size
/// and threshold end alike, with the same error or with the same output,
/// sample for sample.
pub proof fn lemma_filter_silence_is_deterministic<F: Fn(u128, usize) -> Decibels>(
    samples: &[i16],
    window_size: usize,
    threshold: Decibels,
    to_decibels: F,
    first: Result<Vec<i16>, FilterError>,
    second: Result<Vec<i16>, FilterError>,
)
    requires
        is_deterministic(to_decibels),
        call_ensures(filter_silence::<F>, (samples, window_size, threshold, to_decibels), first),
        call_ensures(filter_silence::<F>, (samples, window_size, threshold, to_decibels), second),
    ensures
        first is Ok <==> second is Ok,
        first is Ok ==> first->Ok_0@ == second->Ok_0@,
        first is Err ==> first->Err_0 == second->Err_0,
{
    if window_size > 0 {
        let size = window_size as nat;
        let a = choose|scores: Seq<Decibels>|
            rated(to_decibels, samples@, size, scores) && first->Ok_0@ == kept(
                samples@,
                size,
                scores,
                threshold,
                scores.len(),
            );
        let b = choose|scores: Seq<Decibels>|
            rated(to_decibels, samples@, size, scores) && second->Ok_0@ == kept(
                samples@,
                size,
                scores,
                threshold,
                scores.len(),
            );
        lemma_scores_are_determined(to_decibels, samples@, size, a, b);
    }
}

} // verus!
