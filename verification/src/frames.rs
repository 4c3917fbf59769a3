//! Framing of the audio for feature extraction: one-second analysis windows
//! and the FFT span centred in each of them.

use vstd::prelude::*;

verus! {

/// Number of windows of `window` samples needed to cover `count` samples.
pub open spec fn window_count(count: nat, window: nat) -> nat {
    if window == 0 { 0 } else { ((count + window - 1) / window as int) as nat }
}

/// Samples `[start, end)` of analysis window `k`.
pub open spec fn window_bounds(count: nat, window: nat, k: int) -> (int, int) {
    (k * window, if k * window + window <= count { k * window + window } else { count as int })
}

proof fn lemma_window_count(count: int, window: int, n: int)
    requires
        window > 0,
        count >= 0,
        n >= 0,
        n * window >= count,
        n == 0 || (n - 1) * window < count,
    ensures
        n == (count + window - 1) / window,
{
    let q = (count + window - 1) / window;
    assert(q * window <= count + window - 1 < q * window + window) by (nonlinear_arith)
        requires
            window > 0,
            q == (count + window - 1) / window,
    ;
    if n < q {
        assert(n * window + window <= q * window) by (nonlinear_arith)
            requires
                n + 1 <= q,
                window > 0,
        ;
    } else if n > q {
        assert((n - 1) * window >= q * window) by (nonlinear_arith)
            requires
                n - 1 >= q,
                window > 0,
        ;
    }
}

/// The analysis windows of a track of `count` samples: consecutive windows of
/// `window` samples from the start, the last one cut at the end of the track.
pub fn analysis_windows(count: usize, window: usize) -> (windows: Vec<(usize, usize)>)
    requires
        window > 0,
        count + window <= usize::MAX,
    ensures
        windows.len() == window_count(count as nat, window as nat),
        forall|k: int| 0 <= k < windows.len() ==> {
            &&& (#[trigger] windows@[k]).0 == window_bounds(count as nat, window as nat, k).0
            &&& windows@[k].1 == window_bounds(count as nat, window as nat, k).1
        },
{
    let mut windows: Vec<(usize, usize)> = Vec::new();
    let mut start: usize = 0;
    assert(windows.len() == 0);
    assert(0 * window == 0) by (nonlinear_arith);
    while start < count
        invariant
            window > 0,
            count + window <= usize::MAX,
            start == windows.len() * window,
            start <= count + window - 1 || windows.len() == 0,
            windows.len() == 0 || (windows.len() - 1) * window < count,
            forall|k: int| 0 <= k < windows.len() ==> {
                &&& (#[trigger] windows@[k]).0 == window_bounds(count as nat, window as nat, k).0
                &&& windows@[k].1 == window_bounds(count as nat, window as nat, k).1
            },
        decreases count + window - start,
    {
        let end = if start + window <= count { start + window } else { count };
        let ghost k = windows.len() as int;
        windows.push((start, end));
        assert((k + 1) * window == k * window + window) by (nonlinear_arith);
        start = start + window;
    }
    proof {
        lemma_window_count(count as int, window as int, windows.len() as int);
    }
    windows
}

/// Each window is a non-empty run of at most `window` samples, and the
/// windows follow each other without gaps from sample 0 to the end.
pub proof fn law_windows_tile_track(count: nat, window: nat)
    requires
        window > 0,
        count > 0,
    ensures
        window_bounds(count, window, 0).0 == 0,
        window_bounds(count, window, window_count(count, window) - 1).1 == count,
        forall|k: int| 0 <= k < window_count(count, window) ==>
            (#[trigger] window_bounds(count, window, k)).0 < window_bounds(count, window, k).1
                <= window_bounds(count, window, k).0 + window,
        forall|k: int| 0 <= k < window_count(count, window) - 1 ==>
            (#[trigger] window_bounds(count, window, k)).1 == window_bounds(count, window, k + 1).0,
{
    let n = window_count(count, window) as int;
    let c = count as int;
    let w = window as int;
    assert(n * w >= c && (n - 1) * w < c) by (nonlinear_arith)
        requires
            w > 0,
            c > 0,
            n == (c + w - 1) / w,
    ;
    assert forall|k: int| 0 <= k < n implies
        (#[trigger] window_bounds(count, window, k)).0 < window_bounds(count, window, k).1
            <= window_bounds(count, window, k).0 + window by {
        assert(k * w <= (n - 1) * w) by (nonlinear_arith)
            requires
                k <= n - 1,
                w > 0,
        ;
    }
    assert forall|k: int| 0 <= k < n - 1 implies
        (#[trigger] window_bounds(count, window, k)).1 == window_bounds(count, window, k + 1).0 by {
        assert(k * w + w <= (n - 1) * w) by (nonlinear_arith)
            requires
                k + 1 <= n - 1,
                w > 0,
        ;
        assert((k + 1) * w == k * w + w) by (nonlinear_arith);
    }
    assert((n - 1) * w + w >= c) by (nonlinear_arith)
        requires
            n * w >= c,
    ;
}

/// Start positions of the frames of `frame_len` samples taken every `hop`
/// samples from the start of `count` samples, as long as a whole frame fits.
pub fn frame_starts(count: usize, frame_len: usize, hop: usize) -> (starts: Vec<usize>)
    requires
        hop > 0,
    ensures
        forall|k: int| 0 <= k < starts.len() ==> #[trigger] starts@[k] == k * hop,
        forall|k: int| 0 <= k < starts.len() ==> #[trigger] starts@[k] + frame_len <= count,
        starts.len() * hop + frame_len > count,
{
    let mut starts: Vec<usize> = Vec::new();
    let mut pos: usize = 0;
    assert(starts.len() == 0);
    assert(0 * hop == 0) by (nonlinear_arith);
    while pos <= count && frame_len <= count - pos
        invariant
            hop > 0,
            pos == starts.len() * hop,
            forall|k: int| 0 <= k < starts.len() ==> #[trigger] starts@[k] == k * hop,
            forall|k: int| 0 <= k < starts.len() ==> #[trigger] starts@[k] + frame_len <= count,
        decreases count + 1 - starts.len(),
    {
        let ghost k = starts.len() as int;
        starts.push(pos);
        assert((k + 1) * hop == k * hop + hop) by (nonlinear_arith);
        assert(k * hop >= k) by (nonlinear_arith)
            requires
                hop > 0,
                k >= 0,
        ;
        if count - pos - frame_len < hop {
            assert((k + 1) * hop + frame_len > count);
            return starts;
        }
        pos = pos + hop;
    }
    starts
}

/// The span `[start, end)` of a window of `len` samples that goes into an FFT
/// of `fft_size` points: centred, and cut to the window.
pub fn fft_span(len: usize, fft_size: usize) -> (span: (usize, usize))
    requires
        len / 2 + fft_size <= usize::MAX,
    ensures
        span.0 == if len / 2 >= fft_size / 2 { len / 2 - fft_size / 2 } else { 0 },
        span.1 == if span.0 + fft_size <= len { span.0 + fft_size } else { len as int },
        span.0 <= span.1 <= len,
        span.1 - span.0 <= fft_size,
{
    let half = len / 2;
    let start = if half >= fft_size / 2 { half - fft_size / 2 } else { 0 };
    let end = if start + fft_size <= len { start + fft_size } else { len };
    (start, end)
}

} // verus!
