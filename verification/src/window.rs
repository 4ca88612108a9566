use crate::error::FilterError;
use vstd::prelude::*;

verus! {

/// How many windows of `size` samples cover `len` samples, the last one
/// possibly shorter.
pub open spec fn window_count(len: nat, size: nat) -> nat
    recommends
        size > 0,
{
    if len % size == 0 {
        len / size
    } else {
        len / size + 1
    }
}

/// Offset of the first sample of window `index`.
pub open spec fn window_start(size: nat, index: nat) -> nat {
    index * size
}

/// Offset just behind the last sample of window `index`: a full window where
/// that many samples are left, and the end of the samples otherwise.
pub open spec fn window_end(len: nat, size: nat, index: nat) -> nat {
    if index * size + size <= len {
        index * size + size
    } else {
        len
    }
}

/// The samples of window `index`.
pub open spec fn window(samples: Seq<i16>, size: nat, index: nat) -> Seq<i16> {
    samples.subrange(
        window_start(size, index) as int,
        window_end(samples.len(), size, index) as int,
    )
}

/// The windows are exactly those that start inside the samples.
pub proof fn lemma_window_starts_inside(len: nat, size: nat, index: nat)
    requires
        size > 0,
    ensures
        index < window_count(len, size) <==> window_start(size, index) < len,
{
    let q = len / size;
    let r = len % size;
    assert(len == size * q + r && 0 <= r < size) by (nonlinear_arith)
        requires
            size > 0,
            q == len / size,
            r == len % size,
    ;
    if index < q {
        assert(index * size < size * q) by (nonlinear_arith)
            requires
                index < q,
                size > 0,
        ;
    } else if index == q {
        assert(index * size == size * q) by (nonlinear_arith)
            requires
                index == q,
        ;
    } else {
        assert(index * size >= size * q + size) by (nonlinear_arith)
            requires
                index > q,
                size > 0,
        ;
    }
}

/// Every window is non-empty, lies inside the samples and holds at most
/// `size` of them; only the last one can hold fewer.
pub proof fn lemma_window_extent(len: nat, size: nat, index: nat)
    requires
        size > 0,
        index < window_count(len, size),
    ensures
        window_start(size, index) < window_end(len, size, index) <= len,
        window_end(len, size, index) - window_start(size, index) <= size,
        index + 1 < window_count(len, size) ==> window_end(len, size, index) == window_start(
            size,
            index,
        ) + size,
        window_end(len, size, index) == len <==> index + 1 == window_count(len, size),
{
    lemma_window_starts_inside(len, size, index);
    lemma_window_starts_inside(len, size, index + 1);
    assert((index + 1) * size == index * size + size) by (nonlinear_arith);
}

/// A window holds at least one sample and at most `size`, and exactly `size`
/// unless it is the last.
pub proof fn lemma_window_length(samples: Seq<i16>, size: nat, index: nat)
    requires
        size > 0,
        index < window_count(samples.len(), size),
    ensures
        1 <= window(samples, size, index).len() <= size,
        index + 1 < window_count(samples.len(), size) ==> window(samples, size, index).len()
            == size,
{
    lemma_window_extent(samples.len(), size, index);
}

/// A window starts where the one before it ends.
pub proof fn lemma_windows_adjoin(len: nat, size: nat, index: nat)
    requires
        size > 0,
        index + 1 < window_count(len, size),
    ensures
        window_start(size, index + 1) == window_end(len, size, index),
{
    lemma_window_extent(len, size, index);
    assert((index + 1) * size == index * size + size) by (nonlinear_arith);
}

/// The offset that the pass over the windows has reached before window
/// `index`: the start of that window, or the end of the samples behind the
/// last one.
pub open spec fn reached(len: nat, size: nat, index: nat) -> nat {
    if index < window_count(len, size) {
        window_start(size, index)
    } else {
        len
    }
}

/// Going over window `index` leads from its start to its end, which is where
/// the pass stands before the next one.
pub proof fn lemma_pass_advances(len: nat, size: nat, index: nat)
    requires
        size > 0,
        index < window_count(len, size),
    ensures
        reached(len, size, index) + size <= len ==> window_end(len, size, index) == reached(
            len,
            size,
            index,
        ) + size,
        reached(len, size, index) + size > len ==> window_end(len, size, index) == len,
        reached(len, size, index) < window_end(len, size, index) <= len,
        reached(len, size, index + 1) == window_end(len, size, index),
{
    lemma_window_extent(len, size, index);
    if index + 1 < window_count(len, size) {
        lemma_windows_adjoin(len, size, index);
    }
}

/// The number of windows that `len` samples fall into.
///
/// Fails with `InvalidInput` exactly when `window_size` is zero.
pub fn count_windows(len: usize, window_size: usize) -> (r: Result<usize, FilterError>)
    ensures
        window_size == 0 ==> r == Err::<usize, FilterError>(FilterError::InvalidInput),
        window_size > 0 ==> r == Ok::<usize, FilterError>(
            window_count(len as nat, window_size as nat) as usize,
        ),
        window_size > 0 ==> window_count(len as nat, window_size as nat) <= len,
{
    if window_size == 0 {
        return Err(FilterError::InvalidInput);
    }
    let full: usize = len / window_size;
    assert(full <= len && (len % window_size != 0 ==> full < len)) by (nonlinear_arith)
        requires
            window_size > 0,
            full == len / window_size,
    ;
    if len % window_size == 0 {
        Ok(full)
    } else {
        Ok(full + 1)
    }
}

/// Where window `index` starts and ends among `len` samples.
///
/// `None` exactly when there is no such window: when `window_size` is zero
/// or `index` is not below the number of windows.
pub fn window_bounds(len: usize, window_size: usize, index: usize) -> (r: Option<(usize, usize)>)
    ensures
        r is Some <==> window_size > 0 && index < window_count(len as nat, window_size as nat),
        r matches Some((start, end)) ==> start == window_start(window_size as nat, index as nat)
            && end == window_end(len as nat, window_size as nat, index as nat),
{
    if window_size == 0 {
        return None;
    }
    proof {
        lemma_window_starts_inside(len as nat, window_size as nat, index as nat);
    }
    match index.checked_mul(window_size) {
        Some(start) => {
            if start < len {
                let rest: usize = len - start;
                let end: usize = if window_size <= rest {
                    start + window_size
                } else {
                    len
                };
                Some((start, end))
            } else {
                None
            }
        },
        None => None,
    }
}

/// The window size that goes with a sample rate: a thousandth of it, rounded
/// down. It is zero for rates below 1000 Hz, which no window can be made of.
pub fn window_size_for_rate(sample_rate: u32) -> (size: usize)
    ensures
        size == sample_rate / 1000,
{
    (sample_rate / 1000) as usize
}

} // verus!
