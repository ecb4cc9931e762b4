//! The note token grammar and its packed 32-bit encoding.
use vstd::prelude::*;

verus! {

/// Number of characters that make up one note token.
pub const TOKEN_LEN: usize = 6;

/// Template of every packed word: MIDI 1.0 channel voice, group 0, channel 0.
pub const BASE_WORD: u32 = 0x2080_0000;

/// Set in a packed word that starts a note.
pub const NOTE_ON_BIT: u32 = 0x0010_0000;

/// Added to a packed word whose note is raised by a sharp.
pub const SHARP_BIT: u32 = 0x0000_0100;

/// Why a note token could not be encoded.
#[derive(Debug, Clone, Copy, PartialEq, Eq, Structural)]
pub enum TokenError {
    /// The letter position holds a character that the note table lacks.
    UnknownLetter,
    /// The octave position holds no decimal digit.
    BadOctave,
    /// A velocity position holds no hexadecimal digit.
    BadVelocity,
}

/// Semitone of a natural letter within the octave: C 0, D 2, E 4, F 5, G 7,
/// A 9, B 11. The black-key indices are reached only through the sharp bit,
/// so any other character names no note.
pub open spec fn letter_index(c: char) -> Option<u32> {
    if c == 'C' {
        Some(0)
    } else if c == 'D' {
        Some(2)
    } else if c == 'E' {
        Some(4)
    } else if c == 'F' {
        Some(5)
    } else if c == 'G' {
        Some(7)
    } else if c == 'A' {
        Some(9)
    } else if c == 'B' {
        Some(11)
    } else {
        None
    }
}

/// Value of a decimal digit `0`..`9`.
pub open spec fn decimal_digit(c: char) -> Option<u32> {
    if '0' <= c && c <= '9' {
        Some((c as u32 - '0' as u32) as u32)
    } else {
        None
    }
}

/// Value of a hexadecimal digit, either case.
pub open spec fn hex_digit(c: char) -> Option<u32> {
    if '0' <= c && c <= '9' {
        Some((c as u32 - '0' as u32) as u32)
    } else if 'a' <= c && c <= 'f' {
        Some((c as u32 - 'a' as u32 + 10) as u32)
    } else if 'A' <= c && c <= 'F' {
        Some((c as u32 - 'A' as u32 + 10) as u32)
    } else {
        None
    }
}

/// The packed word for the decoded fields of a token.
pub open spec fn note_word(on: bool, sharp: bool, index: u32, octave: u32, hi: u32, lo: u32) -> int {
    BASE_WORD + (if on { NOTE_ON_BIT as int } else { 0 }) + (if sharp { SHARP_BIT as int } else { 0 })
        + 0x100 * index + 0xc00 * (octave + 1) + 0x10 * hi + lo
}

/// Encoding of the first six characters of `t`: position 0 is `O` for note-on
/// (anything else is note-off), 1 the letter, 2 `#` for sharp, 3 the octave
/// digit, 4 and 5 the velocity in hexadecimal. Fields are checked in that
/// order, so the first bad one names the error.
pub open spec fn encode_token(t: Seq<char>) -> Result<u32, TokenError>
    recommends
        t.len() >= TOKEN_LEN,
{
    match letter_index(t[1]) {
        None => Err(TokenError::UnknownLetter),
        Some(index) => match decimal_digit(t[3]) {
            None => Err(TokenError::BadOctave),
            Some(octave) => match (hex_digit(t[4]), hex_digit(t[5])) {
                (Some(hi), Some(lo)) => Ok(
                    note_word(t[0] == 'O', t[2] == '#', index, octave, hi, lo) as u32,
                ),
                _ => Err(TokenError::BadVelocity),
            },
        },
    }
}

fn letter_to_index(c: char) -> (r: Option<u32>)
    ensures
        r == letter_index(c),
{
    match c {
        'C' => Some(0),
        'D' => Some(2),
        'E' => Some(4),
        'F' => Some(5),
        'G' => Some(7),
        'A' => Some(9),
        'B' => Some(11),
        _ => None,
    }
}

fn decimal_value(c: char) -> (r: Option<u32>)
    ensures
        r == decimal_digit(c),
        r matches Some(d) ==> d < 10,
{
    if '0' <= c && c <= '9' {
        Some(c as u32 - '0' as u32)
    } else {
        None
    }
}

fn hex_value(c: char) -> (r: Option<u32>)
    ensures
        r == hex_digit(c),
        r matches Some(d) ==> d < 16,
{
    if '0' <= c && c <= '9' {
        Some(c as u32 - '0' as u32)
    } else if 'a' <= c && c <= 'f' {
        Some(c as u32 - 'a' as u32 + 10)
    } else if 'A' <= c && c <= 'F' {
        Some(c as u32 - 'A' as u32 + 10)
    } else {
        None
    }
}

/// Encodes one note token into its packed word, or says which field is bad.
pub fn generate_note(text: [char; 6]) -> (r: Result<u32, TokenError>)
    ensures
        r == encode_token(text@),
{
    let mut note_value: u32 = BASE_WORD;
    if text[0] == 'O' {
        note_value = note_value + NOTE_ON_BIT;
    }
    let index = match letter_to_index(text[1]) {
        Some(i) => i,
        None => return Err(TokenError::UnknownLetter),
    };
    if text[2] == '#' {
        note_value = note_value + SHARP_BIT;
    }
    let octave = match decimal_value(text[3]) {
        Some(d) => d,
        None => return Err(TokenError::BadOctave),
    };
    let hi = match hex_value(text[4]) {
        Some(d) => d,
        None => return Err(TokenError::BadVelocity),
    };
    let lo = match hex_value(text[5]) {
        Some(d) => d,
        None => return Err(TokenError::BadVelocity),
    };
    note_value = note_value + 0x100 * index + 0xc00 * (octave + 1);
    note_value = note_value + 0x10 * hi + lo;
    Ok(note_value)
}

proof fn lemma_word_bits(w: u32, on: u32, m: u32, v: u32)
    requires
        on <= 1,
        m < 256,
        v < 256,
        w == 0x2080_0000 + on * 0x10_0000 + m * 0x100 + v,
    ensures
        w & 0xff == v,
        (w & 0x10_0000 != 0) == (on == 1),
        (w & 0x100 != 0) == (m % 2 == 1),
{
    assert(w & 0xff == v && ((w & 0x10_0000 != 0) == (on == 1)) && ((w & 0x100 != 0) == (m
        % 2 == 1))) by (bit_vector)
        requires
            on <= 1,
            m < 256,
            v < 256,
            w == 0x2080_0000 + on * 0x10_0000 + m * 0x100 + v,
    ;
}

/// Encoding is a function of the token alone: equal tokens give the same
/// result, so a valid token always yields the same word.
pub proof fn lemma_encode_deterministic(a: Seq<char>, b: Seq<char>)
    requires
        a.len() == TOKEN_LEN,
        a == b,
    ensures
        encode_token(a) == encode_token(b),
{
}

/// Masking a packed word gives back its fields: the low byte is the
/// velocity, the note-on bit is set exactly for a token that starts with
/// `O`, and for the letters whose semitone index is even (`C`, `D`, `E`)
/// the sharp bit is set exactly for a sharp. For an odd index the index
/// itself sets that bit, so it tells nothing of the accidental there.
pub proof fn lemma_fields_recoverable(t: Seq<char>)
    requires
        t.len() == TOKEN_LEN,
        encode_token(t) is Ok,
    ensures
        ({
            let w = encode_token(t)->Ok_0;
            &&& w & 0xff == 0x10 * hex_digit(t[4])->Some_0 + hex_digit(t[5])->Some_0
            &&& (w & NOTE_ON_BIT != 0) <==> t[0] == 'O'
            &&& letter_index(t[1])->Some_0 % 2 == 0 ==> ((w & SHARP_BIT != 0) <==> t[2] == '#')
        }),
{
    let w = encode_token(t)->Ok_0;
    let index = letter_index(t[1])->Some_0;
    let octave = decimal_digit(t[3])->Some_0;
    let hi = hex_digit(t[4])->Some_0;
    let lo = hex_digit(t[5])->Some_0;
    let on: u32 = if t[0] == 'O' { 1 } else { 0 };
    let s: u32 = if t[2] == '#' { 1 } else { 0 };
    let m: u32 = (s + index + 12 * (octave + 1)) as u32;
    let v: u32 = (0x10 * hi + lo) as u32;
    assert(index <= 11 && octave <= 9 && hi < 16 && lo < 16);
    lemma_word_bits(w, on, m, v);
}

} // verus!
