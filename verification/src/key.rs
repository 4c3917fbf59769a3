//! Musical key names: pitch classes, Camelot wheel codes and standard names.

use vstd::prelude::*;

verus! {

/// The decimal digit `d` (for `d < 10`) as a character.
pub open spec fn digit_char(d: nat) -> char {
    seq!['0', '1', '2', '3', '4', '5', '6', '7', '8', '9'][d as int]
}

/// Decimal spelling of a number in `1..=12`.
pub open spec fn decimal_1_to_12(n: nat) -> Seq<char> {
    if n < 10 {
        seq![digit_char(n)]
    } else {
        seq!['1', digit_char((n - 10) as nat)]
    }
}

/// The pitch class of the relative major of a key: the key itself for a major
/// key, three semitones up for a minor key.
pub open spec fn relative_major(pc: nat, minor: bool) -> nat {
    if minor { (pc + 3) % 12 } else { pc }
}

/// Position of a key on the Camelot wheel (`1..=12`): C major is 8, and each
/// step of a fifth up moves one position clockwise.
pub open spec fn camelot_number(pc: nat, minor: bool) -> nat {
    ((7 * relative_major(pc, minor) + 7) % 12 + 1) as nat
}

/// Camelot code of a key: its wheel position followed by `A` (minor) or `B`
/// (major).
pub open spec fn camelot_code(pc: nat, minor: bool) -> Seq<char> {
    decimal_1_to_12(camelot_number(pc, minor)) + seq![if minor { 'A' } else { 'B' }]
}

/// Name of a pitch class (`0` is C) in standard key notation, as the keys of
/// the Camelot wheel are spelled: D♭, E♭, A♭ and B♭ with flats, F# with a
/// sharp.
pub open spec fn note_name(pc: nat) -> Seq<char> {
    if pc == 0 { seq!['C'] }
    else if pc == 1 { seq!['D', '♭'] }
    else if pc == 2 { seq!['D'] }
    else if pc == 3 { seq!['E', '♭'] }
    else if pc == 4 { seq!['E'] }
    else if pc == 5 { seq!['F'] }
    else if pc == 6 { seq!['F', '#'] }
    else if pc == 7 { seq!['G'] }
    else if pc == 8 { seq!['A', '♭'] }
    else if pc == 9 { seq!['A'] }
    else if pc == 10 { seq!['B', '♭'] }
    else { seq!['B'] }
}

/// Standard name of a key: note name, a space, then `minor` or `major`.
pub open spec fn key_standard_name(pc: nat, minor: bool) -> Seq<char> {
    note_name(pc) + seq![' '] + if minor {
        seq!['m', 'i', 'n', 'o', 'r']
    } else {
        seq!['m', 'a', 'j', 'o', 'r']
    }
}

/// Name of the pitch class `pc` (`0` is C) in standard key notation (see
/// `note_name`), e.g. `D♭` for pitch class 1.
pub fn note(pc: usize) -> (name: &'static str)
    requires
        pc < 12,
    ensures
        name@ == note_name(pc as nat),
{
    match pc {
        0 => { proof { reveal_strlit("C"); } "C" },
        1 => { proof { reveal_strlit("D♭"); } "D♭" },
        2 => { proof { reveal_strlit("D"); } "D" },
        3 => { proof { reveal_strlit("E♭"); } "E♭" },
        4 => { proof { reveal_strlit("E"); } "E" },
        5 => { proof { reveal_strlit("F"); } "F" },
        6 => { proof { reveal_strlit("F#"); } "F#" },
        7 => { proof { reveal_strlit("G"); } "G" },
        8 => { proof { reveal_strlit("A♭"); } "A♭" },
        9 => { proof { reveal_strlit("A"); } "A" },
        10 => { proof { reveal_strlit("B♭"); } "B♭" },
        _ => { proof { reveal_strlit("B"); } "B" },
    }
}

/// The Camelot code and the standard name of the key with tonic `pc`,
/// as the key detector reports them.
pub fn key_names(pc: usize, minor: bool) -> (names: (String, String))
    requires
        pc < 12,
    ensures
        names.0@ == camelot_code(pc as nat, minor),
        names.1@ == key_standard_name(pc as nat, minor),
{
    let code = camelot(pc, minor).to_owned();
    let mut standard = note(pc).to_owned();
    if minor {
        proof { reveal_strlit(" minor"); }
        standard.append(" minor");
    } else {
        proof { reveal_strlit(" major"); }
        standard.append(" major");
    }
    (code, standard)
}

/// Pitch class (`0..12`, `0` is C) of a semitone number counted from C,
/// folding octaves in both directions.
pub fn pitch_class(semitone: i32) -> (pc: usize)
    ensures
        pc < 12,
        pc as int == (semitone as int) % 12,
{
    match semitone.checked_rem_euclid(12) {
        Some(r) => r as usize,
        None => 0,
    }
}


/// Camelot code of the key with tonic `pc` (`0` is C), minor or major.
pub fn camelot(pc: usize, minor: bool) -> (code: &'static str)
    requires
        pc < 12,
    ensures
        code@ == camelot_code(pc as nat, minor),
{
    if minor {
        match pc {
            0 => { proof { reveal_strlit("5A"); } "5A" },
            1 => { proof { reveal_strlit("12A"); } "12A" },
            2 => { proof { reveal_strlit("7A"); } "7A" },
            3 => { proof { reveal_strlit("2A"); } "2A" },
            4 => { proof { reveal_strlit("9A"); } "9A" },
            5 => { proof { reveal_strlit("4A"); } "4A" },
            6 => { proof { reveal_strlit("11A"); } "11A" },
            7 => { proof { reveal_strlit("6A"); } "6A" },
            8 => { proof { reveal_strlit("1A"); } "1A" },
            9 => { proof { reveal_strlit("8A"); } "8A" },
            10 => { proof { reveal_strlit("3A"); } "3A" },
            _ => { proof { reveal_strlit("10A"); } "10A" },
        }
    } else {
        match pc {
            0 => { proof { reveal_strlit("8B"); } "8B" },
            1 => { proof { reveal_strlit("3B"); } "3B" },
            2 => { proof { reveal_strlit("10B"); } "10B" },
            3 => { proof { reveal_strlit("5B"); } "5B" },
            4 => { proof { reveal_strlit("12B"); } "12B" },
            5 => { proof { reveal_strlit("7B"); } "7B" },
            6 => { proof { reveal_strlit("2B"); } "2B" },
            7 => { proof { reveal_strlit("9B"); } "9B" },
            8 => { proof { reveal_strlit("4B"); } "4B" },
            9 => { proof { reveal_strlit("11B"); } "11B" },
            10 => { proof { reveal_strlit("6B"); } "6B" },
            _ => { proof { reveal_strlit("1B"); } "1B" },
        }
    }
}

/// A major key and its relative minor (three semitones below, i.e. nine
/// above) sit at the same position of the Camelot wheel.
pub proof fn law_relative_minor_shares_position(pc: nat)
    requires
        pc < 12,
    ensures
        camelot_number(pc, false) == camelot_number((pc + 9) % 12, true),
{
    assert(((pc + 9) % 12 + 3) % 12 == pc);
}

/// Moving the tonic a fifth up (seven semitones) moves the key one position
/// clockwise on the Camelot wheel, from 12 back to 1.
pub proof fn law_fifth_up_is_next_position(pc: nat, minor: bool)
    requires
        pc < 12,
    ensures
        camelot_number((pc + 7) % 12, minor) == camelot_number(pc, minor) % 12 + 1,
{
    let r = relative_major(pc, minor);
    let r2 = relative_major((pc + 7) % 12, minor);
    assert(r2 == (r + 7) % 12);
    assert((7 * r2 + 7) % 12 == ((7 * r + 7) % 12 + 1) % 12) by (nonlinear_arith)
        requires
            r2 == (r + 7) % 12,
            r < 12,
    ;
}

proof fn lemma_digit_char_injective(a: nat, b: nat)
    requires
        a < 10,
        b < 10,
        digit_char(a) == digit_char(b),
    ensures
        a == b,
{
    let ds = seq!['0', '1', '2', '3', '4', '5', '6', '7', '8', '9'];
    assert(ds[0] == '0' && ds[1] == '1' && ds[2] == '2' && ds[3] == '3' && ds[4] == '4');
    assert(ds[5] == '5' && ds[6] == '6' && ds[7] == '7' && ds[8] == '8' && ds[9] == '9');
}

proof fn lemma_decimal_injective(a: nat, b: nat)
    requires
        1 <= a <= 12,
        1 <= b <= 12,
        decimal_1_to_12(a) == decimal_1_to_12(b),
    ensures
        a == b,
{
    assert(decimal_1_to_12(a).len() == decimal_1_to_12(b).len());
    assert(a < 10 <==> decimal_1_to_12(a).len() == 1);
    assert(b < 10 <==> decimal_1_to_12(b).len() == 1);
    if a < 10 {
        assert(decimal_1_to_12(a)[0] == decimal_1_to_12(b)[0]);
        assert(seq![digit_char(a)][0] == digit_char(a));
        assert(seq![digit_char(b)][0] == digit_char(b));
        lemma_digit_char_injective(a, b);
    } else {
        assert(decimal_1_to_12(a)[1] == decimal_1_to_12(b)[1]);
        lemma_digit_char_injective((a - 10) as nat, (b - 10) as nat);
    }
}

/// Every key has a Camelot position in `1..=12`, and distinct keys have
/// distinct Camelot codes.
pub proof fn law_camelot_codes_distinct(pc1: nat, minor1: bool, pc2: nat, minor2: bool)
    requires
        pc1 < 12,
        pc2 < 12,
    ensures
        1 <= camelot_number(pc1, minor1) <= 12,
        camelot_code(pc1, minor1) == camelot_code(pc2, minor2) ==> pc1 == pc2 && minor1 == minor2,
{
    let n1 = camelot_number(pc1, minor1);
    let n2 = camelot_number(pc2, minor2);
    if camelot_code(pc1, minor1) == camelot_code(pc2, minor2) {
        let c1 = camelot_code(pc1, minor1);
        let c2 = camelot_code(pc2, minor2);
        assert(c1.last() == c2.last());
        assert(minor1 == minor2);
        assert(decimal_1_to_12(n1) == c1.drop_last());
        assert(decimal_1_to_12(n2) == c2.drop_last());
        lemma_decimal_injective(n1, n2);
        let r1 = relative_major(pc1, minor1);
        let r2 = relative_major(pc2, minor2);
        assert(r1 == r2) by (nonlinear_arith)
            requires
                (7 * r1 + 7) % 12 == (7 * r2 + 7) % 12,
                r1 < 12,
                r2 < 12,
        ;
    }
}

/// A key's standard name says its mode: it ends in ` minor` exactly for a
/// minor key and in ` major` exactly for a major key, whatever the tonic, and
/// agrees with the letter of its Camelot code (`A` minor, `B` major).
pub proof fn law_key_name_tells_mode(pc: nat, minor: bool)
    requires
        pc < 12,
    ensures
        key_standard_name(pc, minor).len() >= 7,
        key_standard_name(pc, minor).skip(key_standard_name(pc, minor).len() - 6)
            == if minor { " minor"@ } else { " major"@ },
        (key_standard_name(pc, minor).skip(key_standard_name(pc, minor).len() - 6) == " minor"@)
            <==> camelot_code(pc, minor).last() == 'A',
        (key_standard_name(pc, minor).skip(key_standard_name(pc, minor).len() - 6) == " major"@)
            <==> camelot_code(pc, minor).last() == 'B',
{
    reveal_strlit(" minor");
    reveal_strlit(" major");
    let n = key_standard_name(pc, minor);
    let note = note_name(pc);
    assert(1 <= note.len() <= 2);
    let tail = n.skip(n.len() - 6);
    if minor {
        assert(tail =~= " minor"@);
    } else {
        assert(tail =~= " major"@);
    }
    assert(" minor"@ != " major"@) by {
        assert(" minor"@[2] == 'i');
        assert(" major"@[2] == 'a');
    }
}

/// Note names follow the keyboard: a flat names the key one semitone below
/// the natural note of its letter, a sharp the key one semitone above it,
/// every name is one letter optionally followed by one accidental, distinct
/// pitch classes have distinct names, and pitch class 1 is D♭.
pub proof fn law_note_names_follow_the_keyboard(pc: nat, other: nat)
    requires
        pc < 12,
        other < 12,
    ensures
        1 <= note_name(pc).len() <= 2,
        note_name(pc).len() == 2 && note_name(pc)[1] == '♭' ==> note_name((pc + 1) % 12) == seq![note_name(pc)[0]],
        note_name(pc).len() == 2 && note_name(pc)[1] == '#' ==> pc >= 1 && note_name((pc - 1) as nat) == seq![note_name(pc)[0]],
        note_name(pc).len() == 2 ==> note_name(pc)[1] == '♭' || note_name(pc)[1] == '#',
        note_name(pc) == note_name(other) ==> pc == other,
        note_name(1) == seq!['D', '♭'],
{
    let a = note_name(pc);
    let b = note_name(other);
    if a == b && pc != other {
        assert(a.len() == b.len());
        assert(a[0] == b[0]);
        if a.len() == 2 {
            assert(a[1] == b[1]);
        }
    }
}

} // verus!
