use soundfiller_studio::key::{camelot, key_names, note, pitch_class};

const MAJOR: [&str; 12] = ["8B", "3B", "10B", "5B", "12B", "7B", "2B", "9B", "4B", "11B", "6B", "1B"];
const MINOR: [&str; 12] = ["5A", "12A", "7A", "2A", "9A", "4A", "11A", "6A", "1A", "8A", "3A", "10A"];
const NOTES: [&str; 12] = ["C", "D♭", "D", "E♭", "E", "F", "F#", "G", "A♭", "A", "B♭", "B"];

fn wheel_number(code: &str) -> u32 {
    code[..code.len() - 1].parse().unwrap()
}

#[test]
fn camelot_matches_the_wheel_table() {
    for pc in 0..12 {
        assert_eq!(camelot(pc, false), MAJOR[pc]);
        assert_eq!(camelot(pc, true), MINOR[pc]);
    }
}

#[test]
fn note_names_use_standard_key_spelling() {
    for pc in 0..12 {
        assert_eq!(note(pc), NOTES[pc]);
    }
}

#[test]
fn key_names_give_code_and_standard_name() {
    assert_eq!(key_names(9, true), ("8A".to_string(), "A minor".to_string()));
    assert_eq!(key_names(1, false), ("3B".to_string(), "D♭ major".to_string()));
    assert_eq!(key_names(3, false), ("5B".to_string(), "E♭ major".to_string()));
    assert_eq!(key_names(8, false), ("4B".to_string(), "A♭ major".to_string()));
    assert_eq!(key_names(10, false), ("6B".to_string(), "B♭ major".to_string()));
    assert_eq!(key_names(6, true), ("11A".to_string(), "F# minor".to_string()));
    assert_eq!(key_names(10, true), ("3A".to_string(), "B♭ minor".to_string()));
    assert_eq!(key_names(0, false), ("8B".to_string(), "C major".to_string()));
    assert_eq!(key_names(11, true), ("10A".to_string(), "B minor".to_string()));
}

#[test]
fn relative_minor_shares_wheel_position() {
    for pc in 0..12 {
        let major = camelot(pc, false);
        let minor = camelot((pc + 9) % 12, true);
        assert_eq!(wheel_number(major), wheel_number(minor));
        assert!(major.ends_with('B'));
        assert!(minor.ends_with('A'));
    }
}

#[test]
fn fifth_up_is_next_wheel_position() {
    for pc in 0..12 {
        for minor in [false, true] {
            let here = wheel_number(camelot(pc, minor));
            let next = wheel_number(camelot((pc + 7) % 12, minor));
            assert_eq!(next, here % 12 + 1);
        }
    }
}

#[test]
fn camelot_codes_are_distinct() {
    let mut seen = std::collections::HashSet::new();
    for pc in 0..12 {
        for minor in [false, true] {
            assert!(seen.insert(camelot(pc, minor)));
        }
    }
    assert_eq!(seen.len(), 24);
}

#[test]
fn pitch_class_folds_octaves() {
    assert_eq!(pitch_class(0), 0);
    assert_eq!(pitch_class(69), 9);
    assert_eq!(pitch_class(60), 0);
    assert_eq!(pitch_class(-1), 11);
    assert_eq!(pitch_class(-12), 0);
    assert_eq!(pitch_class(i32::MIN), 4);
    assert_eq!(pitch_class(i32::MAX), 7);
}
