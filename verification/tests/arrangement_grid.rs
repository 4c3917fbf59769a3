use soundfiller_studio::arrangement::{
    activity_rows, analysis_title, blocks_for_bars, grid_rows, placeholder_activity, section_blocks,
    style_name, total_bars,
};

#[test]
fn block_counts_round_up() {
    assert_eq!(blocks_for_bars(0), 0);
    assert_eq!(blocks_for_bars(1), 1);
    assert_eq!(blocks_for_bars(8), 1);
    assert_eq!(blocks_for_bars(9), 2);
    assert_eq!(blocks_for_bars(32), 4);
    assert_eq!(blocks_for_bars(u32::MAX), 536870912);
    for bars in 0..200u32 {
        assert_eq!(blocks_for_bars(bars), (bars as f64 / 8.0).ceil() as usize);
    }
}

#[test]
fn section_blocks_cover_the_section() {
    assert_eq!(section_blocks(1, 20), vec![(1, 9), (9, 17), (17, 21)]);
    assert_eq!(section_blocks(33, 16), vec![(33, 41), (41, 49)]);
    assert_eq!(section_blocks(5, 0), vec![]);
    for start in [1u32, 17, 100] {
        for bars in 1..40u32 {
            let blocks = section_blocks(start, bars);
            assert_eq!(blocks[0].0, start as u64);
            assert_eq!(blocks.last().unwrap().1, start as u64 + bars as u64);
            for w in blocks.windows(2) {
                assert_eq!(w[0].1, w[1].0);
            }
            for b in &blocks {
                assert!(b.0 < b.1 && b.1 <= b.0 + 8);
            }
        }
    }
}

#[test]
fn total_bars_of_arrangement() {
    assert_eq!(total_bars(None), 16);
    assert_eq!(total_bars(Some((1, 8))), 16);
    assert_eq!(total_bars(Some((1, 16))), 16);
    assert_eq!(total_bars(Some((97, 32))), 128);
    assert_eq!(total_bars(Some((0, 1))), 16);
    assert_eq!(total_bars(Some((u32::MAX - 1, 1))), u32::MAX - 1);
}

#[test]
fn rows_per_style() {
    assert_eq!(
        grid_rows(true),
        vec!["Kick", "Sub/Bass", "Perc/Hats", "Mid/Lead", "Pads/Strings", "Vox", "FX/Risers"]
    );
    assert_eq!(
        grid_rows(false),
        vec!["Kick", "Sub/Bass", "Pluck/Arp", "Mid/Lead", "Pads/Strings", "Vox", "Perc/Hats", "FX/Risers"]
    );
    assert_eq!(
        activity_rows(),
        vec!["Kick", "Sub/Bass", "Pads/Strings", "Perc/Hats", "Mid/Lead", "FX/Risers"]
    );
    assert_eq!(style_name(true), "techno");
    assert_eq!(style_name(false), "prog_house");
}

#[test]
fn document_title_and_placeholder() {
    assert_eq!(analysis_title("track.wav"), "Analysis: track.wav");
    assert_eq!(placeholder_activity(20), vec![2, 2, 2]);
    assert_eq!(placeholder_activity(8), vec![2]);
    assert!(placeholder_activity(0).is_empty());
}
