//! Index logic of section segmentation: picking change points at least a
//! minimum segment apart, the window searched for a local peak, and the
//! segments between boundaries.

use vstd::prelude::*;

verus! {

/// The change points picked by a left-to-right scan of `peaks` that starts at
/// frame `i` and stops `window` frames before the end: a peak is taken and
/// the scan jumps `window` frames ahead, otherwise it moves one frame on.
pub open spec fn boundary_scan(peaks: Seq<bool>, window: int, i: int) -> Seq<int>
    decreases peaks.len() - i,
{
    if window < 1 || i < 0 || i >= peaks.len() - window {
        Seq::empty()
    } else if peaks[i] {
        seq![i] + boundary_scan(peaks, window, i + window)
    } else {
        boundary_scan(peaks, window, i + 1)
    }
}

/// The values of a vector of indices as integers.
pub open spec fn as_ints(v: Seq<usize>) -> Seq<int> {
    v.map_values(|x: usize| x as int)
}

/// Whether `frame_count` frames leave room for change points with a window
/// of `window` frames: a window of at least one frame on each side of a
/// candidate frame.
pub open spec fn has_change_room(frame_count: int, window: int) -> bool {
    window >= 1 && frame_count >= 2 * window + 1
}

/// The candidate frames for change points, `[window, frame_count - window)`,
/// or `None` when there is no room for them (see `has_change_room`).
pub fn change_point_range(frame_count: usize, window: usize) -> (range: Option<(usize, usize)>)
    ensures
        match range {
            Some((lo, hi)) => has_change_room(frame_count as int, window as int)
                && lo == window && hi == frame_count - window,
            None => !has_change_room(frame_count as int, window as int),
        },
{
    if window >= 1 && frame_count >= 1 && window <= (frame_count - 1) / 2 {
        Some((window, frame_count - window))
    } else {
        None
    }
}

/// Picks segment boundaries from the frames that are cost peaks: the scan
/// starts `window` frames in, stops `window` frames before the end, and after
/// a boundary skips `window` frames so that segments keep a minimum length.
/// Without room for change points the list is empty.
pub fn pick_boundaries(is_peak: &Vec<bool>, window: usize) -> (bounds: Vec<usize>)
    ensures
        as_ints(bounds@) == boundary_scan(is_peak@, window as int, window as int),
        !has_change_room(is_peak.len() as int, window as int) ==> bounds.len() == 0,
{
    let n = is_peak.len();
    let mut bounds: Vec<usize> = Vec::new();
    if change_point_range(n, window).is_none() {
        assert(boundary_scan(is_peak@, window as int, window as int) =~= Seq::<int>::empty());
        assert(as_ints(bounds@) =~= Seq::<int>::empty());
        return bounds;
    }
    let mut i = window;
    while i < n - window
        invariant
            n == is_peak.len(),
            window >= 1,
            n >= 2 * window + 1,
            window <= i <= n,
            as_ints(bounds@) + boundary_scan(is_peak@, window as int, i as int)
                == boundary_scan(is_peak@, window as int, window as int),
        decreases n - i,
    {
        let ghost before = as_ints(bounds@);
        if is_peak[i] {
            bounds.push(i);
            assert(as_ints(bounds@) =~= before + seq![i as int]);
            assert(before + seq![i as int] + boundary_scan(is_peak@, window as int, i + window)
                =~= before + boundary_scan(is_peak@, window as int, i as int));
            i = i + window;
        } else {
            i = i + 1;
        }
    }
    assert(boundary_scan(is_peak@, window as int, i as int) =~= Seq::<int>::empty());
    assert(as_ints(bounds@) + Seq::<int>::empty() =~= as_ints(bounds@));
    bounds
}

/// What a scan from frame `i` picks lies in `[i, n - window)`, increases,
/// and keeps consecutive boundaries at least `window` frames apart.
pub proof fn lemma_scan_spacing(peaks: Seq<bool>, window: int, i: int)
    requires
        window >= 1,
        i >= 0,
    ensures
        forall|k: int| 0 <= k < boundary_scan(peaks, window, i).len() ==>
            i <= #[trigger] boundary_scan(peaks, window, i)[k] < peaks.len() - window,
        forall|k: int| 0 <= k < boundary_scan(peaks, window, i).len() - 1 ==>
            #[trigger] boundary_scan(peaks, window, i)[k] + window <= boundary_scan(peaks, window, i)[k + 1],
    decreases peaks.len() - i,
{
    if i >= peaks.len() - window {
        assert(boundary_scan(peaks, window, i) =~= Seq::<int>::empty());
    } else if peaks[i] {
        lemma_scan_spacing(peaks, window, i + window);
        let rest = boundary_scan(peaks, window, i + window);
        let all = boundary_scan(peaks, window, i);
        assert(all == seq![i] + rest);
        assert forall|k: int| 0 <= k < all.len() implies i <= #[trigger] all[k] < peaks.len() - window by {
            if k > 0 {
                assert(all[k] == rest[k - 1]);
            }
        }
        assert forall|k: int| 0 <= k < all.len() - 1 implies #[trigger] all[k] + window <= all[k + 1] by {
            assert(all[k + 1] == rest[k]);
            if k > 0 {
                assert(all[k] == rest[k - 1]);
            }
        }
    } else {
        lemma_scan_spacing(peaks, window, i + 1);
        assert(boundary_scan(peaks, window, i) == boundary_scan(peaks, window, i + 1));
    }
}

/// No frame in `[a, b)` is a peak.
pub open spec fn no_peak_in(peaks: Seq<bool>, a: int, b: int) -> bool {
    forall|j: int| a <= j < b && 0 <= j < peaks.len() ==> !peaks[j]
}

/// What a scan from frame `i` picks is exactly the greedy choice: every pick
/// is a peak; no peak is passed over before the first pick, between a pick
/// plus `window` and the next pick, or after the last pick plus `window`
/// (up to the end of the scan range).
pub proof fn lemma_scan_greedy(peaks: Seq<bool>, window: int, i: int)
    requires
        window >= 1,
        i >= 0,
    ensures
        forall|k: int| 0 <= k < boundary_scan(peaks, window, i).len() ==>
            peaks[#[trigger] boundary_scan(peaks, window, i)[k]],
        boundary_scan(peaks, window, i).len() == 0 ==> no_peak_in(peaks, i, peaks.len() - window),
        boundary_scan(peaks, window, i).len() > 0 ==> no_peak_in(peaks, i, boundary_scan(peaks, window, i)[0]),
        forall|k: int| 0 <= k < boundary_scan(peaks, window, i).len() - 1 ==>
            no_peak_in(peaks, #[trigger] boundary_scan(peaks, window, i)[k] + window, boundary_scan(peaks, window, i)[k + 1]),
        boundary_scan(peaks, window, i).len() > 0 ==> no_peak_in(
            peaks,
            boundary_scan(peaks, window, i)[boundary_scan(peaks, window, i).len() - 1] + window,
            peaks.len() - window,
        ),
    decreases peaks.len() - i,
{
    lemma_scan_spacing(peaks, window, i);
    let all = boundary_scan(peaks, window, i);
    if i >= peaks.len() - window {
        assert(all =~= Seq::<int>::empty());
    } else if peaks[i] {
        lemma_scan_greedy(peaks, window, i + window);
        lemma_scan_spacing(peaks, window, i + window);
        let rest = boundary_scan(peaks, window, i + window);
        assert(all == seq![i] + rest);
        assert forall|k: int| 0 <= k < all.len() implies peaks[#[trigger] all[k]] by {
            if k > 0 {
                assert(all[k] == rest[k - 1]);
            }
        }
        assert forall|k: int| 0 <= k < all.len() - 1 implies
            no_peak_in(peaks, #[trigger] all[k] + window, all[k + 1]) by {
            assert(all[k + 1] == rest[k]);
            if k > 0 {
                assert(all[k] == rest[k - 1]);
            } else {
                if rest.len() > 0 {
                    assert(no_peak_in(peaks, i + window, rest[0]));
                }
            }
        }
        if rest.len() > 0 {
            assert(all[all.len() - 1] == rest[rest.len() - 1]);
        }
    } else {
        lemma_scan_greedy(peaks, window, i + 1);
        assert(all == boundary_scan(peaks, window, i + 1));
    }
}

/// Boundaries are picked greedily from the cost peaks: each boundary is a
/// peak; the first peak of the scan range is the first boundary; after a
/// boundary `b` the scan resumes exactly at `b + window`, so the first peak
/// from there on is the next boundary (in particular `b + window` itself when
/// it is a peak in range); and no peak in range is skipped otherwise.
pub proof fn law_boundaries_are_greedy(peaks: Seq<bool>, window: int)
    requires
        window >= 1,
    ensures
        forall|k: int| 0 <= k < boundary_scan(peaks, window, window).len() ==>
            peaks[#[trigger] boundary_scan(peaks, window, window)[k]],
        boundary_scan(peaks, window, window).len() == 0 ==> no_peak_in(peaks, window, peaks.len() - window),
        boundary_scan(peaks, window, window).len() > 0 ==>
            no_peak_in(peaks, window, boundary_scan(peaks, window, window)[0]),
        forall|k: int| 0 <= k < boundary_scan(peaks, window, window).len() - 1 ==>
            no_peak_in(peaks, #[trigger] boundary_scan(peaks, window, window)[k] + window,
                boundary_scan(peaks, window, window)[k + 1]),
        boundary_scan(peaks, window, window).len() > 0 ==> no_peak_in(
            peaks,
            boundary_scan(peaks, window, window)[boundary_scan(peaks, window, window).len() - 1] + window,
            peaks.len() - window,
        ),
        forall|k: int| 0 <= k < boundary_scan(peaks, window, window).len() ==> {
            let b = #[trigger] boundary_scan(peaks, window, window)[k];
            (b + window < peaks.len() - window && peaks[b + window])
                ==> k + 1 < boundary_scan(peaks, window, window).len()
                    && boundary_scan(peaks, window, window)[k + 1] == b + window
        },
{
    lemma_scan_greedy(peaks, window, window);
    lemma_scan_spacing(peaks, window, window);
    let all = boundary_scan(peaks, window, window);
    assert forall|k: int| 0 <= k < all.len() implies {
        let b = #[trigger] all[k];
        (b + window < peaks.len() - window && peaks[b + window])
            ==> k + 1 < all.len() && all[k + 1] == b + window
    } by {
        let b = all[k];
        if b + window < peaks.len() - window && peaks[b + window] {
            if k + 1 >= all.len() {
                assert(no_peak_in(peaks, all[all.len() - 1] + window, peaks.len() - window));
            } else {
                assert(no_peak_in(peaks, b + window, all[k + 1]));
                assert(b + window <= all[k + 1]);
            }
        }
    }
}

/// Segment boundaries keep the minimum segment length: they lie in
/// `[window, n - window)`, strictly increase, and any two consecutive ones
/// are at least `window` frames apart.
pub proof fn law_boundaries_keep_minimum_length(peaks: Seq<bool>, window: int)
    requires
        window >= 1,
    ensures
        forall|k: int| 0 <= k < boundary_scan(peaks, window, window).len() ==>
            window <= #[trigger] boundary_scan(peaks, window, window)[k] < peaks.len() - window,
        forall|k: int| 0 <= k < boundary_scan(peaks, window, window).len() - 1 ==>
            #[trigger] boundary_scan(peaks, window, window)[k] + window
                <= boundary_scan(peaks, window, window)[k + 1],
{
    lemma_scan_spacing(peaks, window, window);
}

/// Radius of the neighbourhood in which a boundary must be a local peak: half
/// the window, at least one frame.
pub open spec fn peak_radius(window: int) -> int {
    if window / 2 >= 1 { window / 2 } else { 1 }
}

/// The frames `[start, end]` (inclusive) against which frame `i` must be a
/// local peak: `radius` frames on each side, cut at frame 0 and at
/// `n - window`.
pub fn peak_window(i: usize, window: usize, n: usize) -> (span: (usize, usize))
    requires
        window >= 1,
        window <= i,
        i + window < n,
    ensures
        span.0 == if i >= peak_radius(window as int) { i - peak_radius(window as int) } else { 0 },
        span.1 == if i + peak_radius(window as int) <= n - window {
            i + peak_radius(window as int)
        } else {
            n - window
        },
        span.0 <= i <= span.1 < n,
{
    let radius = if window / 2 >= 1 { window / 2 } else { 1 };
    let start = if i >= radius { i - radius } else { 0 };
    let end = if i + radius <= n - window { i + radius } else { n - window };
    (start, end)
}

/// The cut points of `n` frames at the given boundaries: `0`, the
/// boundaries, then `n`.
pub open spec fn cut_points(boundaries: Seq<int>, frame_count: int) -> Seq<int> {
    seq![0int] + boundaries + seq![frame_count]
}

/// The starts of the segments between boundaries, and the end of the last:
/// segment `k` is `[starts[k], starts[k + 1])`.
pub open spec fn segment_starts(boundaries: Seq<usize>, frame_count: int) -> Seq<int> {
    cut_points(as_ints(boundaries), frame_count)
}

/// Splits `frame_count` feature frames at the given boundaries into
/// consecutive segments (start inclusive, end exclusive).
pub fn segment_bounds(boundaries: &Vec<usize>, frame_count: usize) -> (segments: Vec<(usize, usize)>)
    requires
        boundaries.len() < usize::MAX,
    ensures
        segments.len() == boundaries.len() + 1,
        forall|k: int| 0 <= k < segments.len() ==> {
            &&& (#[trigger] segments@[k]).0 == segment_starts(boundaries@, frame_count as int)[k]
            &&& segments@[k].1 == segment_starts(boundaries@, frame_count as int)[k + 1]
        },
{
    let ghost starts = segment_starts(boundaries@, frame_count as int);
    let mut segments: Vec<(usize, usize)> = Vec::new();
    let mut prev: usize = 0;
    let mut k: usize = 0;
    while k < boundaries.len()
        invariant
            starts == segment_starts(boundaries@, frame_count as int),
            k <= boundaries.len(),
            segments.len() == k,
            prev == starts[k as int],
            forall|j: int| 0 <= j < k ==> {
                &&& (#[trigger] segments@[j]).0 == starts[j]
                &&& segments@[j].1 == starts[j + 1]
            },
        decreases boundaries.len() - k,
    {
        let b = boundaries[k];
        assert(starts[k + 1] == b);
        segments.push((prev, b));
        prev = b;
        k = k + 1;
    }
    assert(starts[k + 1] == frame_count);
    segments.push((prev, frame_count));
    segments
}

/// With increasing boundaries inside `(0, n)` and at least one frame, the
/// segments tile the frames:
/// each is non-empty and starts where the previous one ended, from frame 0 to
/// frame `n`.
pub proof fn law_segments_tile_frames(boundaries: Seq<usize>, frame_count: int)
    requires
        frame_count > 0,
        forall|k: int| 0 <= k < boundaries.len() ==> 0 < #[trigger] boundaries[k] < frame_count,
        forall|k: int| 0 <= k < boundaries.len() - 1 ==> #[trigger] boundaries[k] < boundaries[k + 1],
    ensures
        segment_starts(boundaries, frame_count)[0] == 0,
        segment_starts(boundaries, frame_count)[boundaries.len() + 1int] == frame_count,
        forall|k: int| 0 <= k <= boundaries.len() ==>
            #[trigger] segment_starts(boundaries, frame_count)[k] < segment_starts(boundaries, frame_count)[k + 1],
{
    let s = segment_starts(boundaries, frame_count);
    let b = as_ints(boundaries);
    assert(s.len() == boundaries.len() + 2);
    assert(s[0] == 0);
    assert(s[boundaries.len() + 1int] == frame_count);
    assert forall|k: int| 1 <= k <= boundaries.len() implies s[k] == boundaries[k - 1] by {
        assert(s[k] == b[k - 1]);
    }
    assert forall|k: int| 0 <= k <= boundaries.len() implies #[trigger] s[k] < s[k + 1] by {
        if k == 0 {
            if boundaries.len() > 0 {
                assert(s[1] == boundaries[0]);
            }
        } else if k == boundaries.len() {
            assert(s[k] == boundaries[k - 1]);
        } else {
            assert(s[k] == boundaries[k - 1]);
            assert(s[k + 1] == boundaries[k]);
        }
    }
}

/// Every segment between the picked boundaries, the first and the last
/// included, is at least `window` frames long (given at least `2 window + 1`
/// frames, as the change-point detector requires).
pub proof fn law_segments_have_minimum_length(peaks: Seq<bool>, window: int)
    requires
        window >= 1,
        peaks.len() >= 2 * window + 1,
    ensures
        forall|k: int| 0 <= k < boundary_scan(peaks, window, window).len() + 1 ==>
            #[trigger] cut_points(boundary_scan(peaks, window, window), peaks.len() as int)[k] + window
                <= cut_points(boundary_scan(peaks, window, window), peaks.len() as int)[k + 1],
{
    let b = boundary_scan(peaks, window, window);
    let n = peaks.len() as int;
    let c = cut_points(b, n);
    lemma_scan_spacing(peaks, window, window);
    assert(c.len() == b.len() + 2);
    assert forall|k: int| 0 <= k < b.len() + 1 implies #[trigger] c[k] + window <= c[k + 1] by {
        if k == 0 {
            if b.len() > 0 {
                assert(c[1] == b[0]);
            }
        } else if k == b.len() {
            assert(c[k] == b[k - 1]);
            assert(c[k + 1] == n);
        } else {
            assert(c[k] == b[k - 1]);
            assert(c[k + 1] == b[k]);
        }
    }
}

/// Length in bars of a section from its first and last bar numbers: the
/// difference, and at least one bar.
pub fn section_bar_count(start_bar: u32, end_bar: u32) -> (bars: u32)
    requires
        start_bar <= end_bar,
    ensures
        bars == if end_bar - start_bar >= 1 { end_bar - start_bar } else { 1 },
        bars >= 1,
{
    let d = end_bar - start_bar;
    if d >= 1 { d } else { 1 }
}

} // verus!
