use midi_bridge::note::{generate_note, TokenError};

fn token(s: &str) -> [char; 6] {
    let v: Vec<char> = s.chars().collect();
    [v[0], v[1], v[2], v[3], v[4], v[5]]
}

#[test]
fn note_on_c_octave_zero() {
    assert_eq!(generate_note(token("OC_000")), Ok(0x2090_0c00));
}

#[test]
fn note_on_a_sharp_octave_four() {
    // 0x20800000 + 0x100000 + 0x900 + 0x100 + 0x3c00 + 0x7f
    assert_eq!(generate_note(token("OA#47f")), Ok(0x2090_467f));
}

#[test]
fn note_off_has_no_on_bit() {
    assert_eq!(generate_note(token("XC_000")), Ok(0x2080_0c00));
}

#[test]
fn uppercase_velocity_digits() {
    assert_eq!(generate_note(token("OC_0FF")), Ok(0x2090_0cff));
}

#[test]
fn largest_fields_fit() {
    // B sharp, octave 9, velocity 0xff
    assert_eq!(generate_note(token("OB#9ff")), Ok(0x2090_84ff));
}

#[test]
fn filler_letter_is_refused() {
    assert_eq!(generate_note(token("O__000")), Err(TokenError::UnknownLetter));
}

#[test]
fn unknown_letter_is_refused() {
    assert_eq!(generate_note(token("OH_000")), Err(TokenError::UnknownLetter));
    assert_eq!(generate_note(token("Oc_000")), Err(TokenError::UnknownLetter));
}

#[test]
fn bad_octave_is_refused() {
    assert_eq!(generate_note(token("OC_a00")), Err(TokenError::BadOctave));
}

#[test]
fn bad_velocity_is_refused() {
    assert_eq!(generate_note(token("OC_0g0")), Err(TokenError::BadVelocity));
    assert_eq!(generate_note(token("OC_00 ")), Err(TokenError::BadVelocity));
}

#[test]
fn letter_checked_before_octave() {
    assert_eq!(generate_note(token("OZ_z00")), Err(TokenError::UnknownLetter));
}

#[test]
fn encoding_is_deterministic() {
    let t = token("OE#3a5");
    assert_eq!(generate_note(t), generate_note(t));
    assert_eq!(generate_note(t), Ok(0x2090_35a5));
}

#[test]
fn fields_recoverable_by_masking() {
    let hex: Vec<char> = "0123456789abcdef".chars().collect();
    for letter in ['A', 'B', 'C', 'D', 'E', 'F', 'G'] {
        for sharp in [false, true] {
            for octave in 0..9u32 {
                for velocity in 0..256usize {
                    let acc = if sharp { '#' } else { '_' };
                    let oct = char::from_digit(octave, 10).unwrap();
                    let t = ['O', letter, acc, oct, hex[velocity / 16], hex[velocity % 16]];
                    let w = generate_note(t).unwrap();
                    assert_eq!((w & 0xff) as usize, velocity);
                    assert!(w & 0x0010_0000 != 0);
                    if matches!(letter, 'C' | 'D' | 'E') {
                        assert_eq!(w & 0x100 != 0, sharp);
                    }
                    let off = generate_note(['X', letter, acc, oct, t[4], t[5]]).unwrap();
                    assert!(off & 0x0010_0000 == 0);
                }
            }
        }
    }
}

#[test]
fn odd_letter_index_sets_sharp_bit() {
    // F is index 5: the index alone sets the bit that a sharp would.
    let w = generate_note(token("OF_000")).unwrap();
    assert_eq!(w, 0x2090_1100);
    assert!(w & 0x100 != 0);
}
