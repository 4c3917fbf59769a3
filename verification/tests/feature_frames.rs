use soundfiller_studio::frames::{analysis_windows, fft_span, frame_starts};
use soundfiller_studio::segmentation::{
    change_point_range, peak_window, pick_boundaries, section_bar_count, segment_bounds,
};

#[test]
fn windows_cover_the_track() {
    assert_eq!(analysis_windows(10, 4), vec![(0, 4), (4, 8), (8, 10)]);
    assert_eq!(analysis_windows(8, 4), vec![(0, 4), (4, 8)]);
    assert_eq!(analysis_windows(0, 4), vec![]);
    assert_eq!(analysis_windows(3, 44100), vec![(0, 3)]);
    for count in 0..50usize {
        for window in 1..9usize {
            let w = analysis_windows(count, window);
            assert_eq!(w.len(), (count + window - 1) / window);
            if count > 0 {
                assert_eq!(w[0].0, 0);
                assert_eq!(w.last().unwrap().1, count);
            }
            for pair in w.windows(2) {
                assert_eq!(pair[0].1, pair[1].0);
            }
            for &(a, b) in &w {
                assert!(a < b && b - a <= window);
            }
        }
    }
}

#[test]
fn fft_span_is_centred_and_cut() {
    assert_eq!(fft_span(44100, 4096), (20002, 24098));
    assert_eq!(fft_span(3000, 4096), (0, 3000));
    assert_eq!(fft_span(4096, 4096), (0, 4096));
    assert_eq!(fft_span(5000, 4096), (452, 4548));
    assert_eq!(fft_span(0, 4096), (0, 0));
}

#[test]
fn hop_frames() {
    assert_eq!(frame_starts(1024, 256, 256), vec![0, 256, 512, 768]);
    assert_eq!(frame_starts(1023, 256, 256), vec![0, 256, 512]);
    assert_eq!(frame_starts(8192, 4096, 2048), vec![0, 2048, 4096]);
    assert_eq!(frame_starts(100, 256, 256), vec![]);
    assert_eq!(frame_starts(256, 256, 256), vec![0]);
}

#[test]
fn boundaries_skip_a_window_after_each_pick() {
    let mut peaks = vec![false; 20];
    peaks[4] = true;
    peaks[5] = true;
    peaks[7] = true;
    peaks[9] = true;
    peaks[15] = true;
    assert_eq!(pick_boundaries(&peaks, 3), vec![4, 7, 15]);
    assert_eq!(pick_boundaries(&vec![true; 7], 3), vec![3]);
    assert_eq!(pick_boundaries(&vec![false; 30], 4), vec![]);
}

#[test]
fn boundaries_keep_minimum_segment_length() {
    let peaks: Vec<bool> = (0..100).map(|i| i % 3 != 0).collect();
    for window in 1..20usize {
        let b = pick_boundaries(&peaks, window);
        let mut cuts = vec![0];
        cuts.extend(b.iter().copied());
        cuts.push(peaks.len());
        for pair in cuts.windows(2) {
            assert!(pair[0] + window <= pair[1]);
        }
    }
}

#[test]
fn peak_neighbourhood() {
    assert_eq!(peak_window(10, 6, 40), (7, 13));
    assert_eq!(peak_window(33, 6, 40), (30, 34));
    assert_eq!(peak_window(1, 1, 3), (0, 2));
    assert_eq!(peak_window(2, 3, 10), (1, 3));
}

#[test]
fn segments_between_boundaries() {
    assert_eq!(segment_bounds(&vec![30, 90], 120), vec![(0, 30), (30, 90), (90, 120)]);
    assert_eq!(segment_bounds(&vec![], 50), vec![(0, 50)]);
}

#[test]
fn sections_span_at_least_one_bar() {
    assert_eq!(section_bar_count(1, 33), 32);
    assert_eq!(section_bar_count(5, 5), 1);
}

#[test]
fn change_points_need_room() {
    assert_eq!(change_point_range(100, 30), Some((30, 70)));
    assert_eq!(change_point_range(61, 30), Some((30, 31)));
    assert_eq!(change_point_range(60, 30), None);
    assert_eq!(change_point_range(100, 0), None);
    assert_eq!(change_point_range(0, 0), None);
    assert_eq!(change_point_range(1, 0), None);
    assert_eq!(change_point_range(usize::MAX, usize::MAX), None);
    assert_eq!(pick_boundaries(&vec![true; 60], 30), vec![]);
    assert_eq!(pick_boundaries(&vec![true; 10], 0), vec![]);
    assert_eq!(pick_boundaries(&vec![], 1), vec![]);
}
