//! Splitting a datagram into note tokens and collecting the words to forward.
use vstd::prelude::*;
use vstd::utf8::{decode_utf8, valid_utf8};
use crate::note::{encode_token, generate_note, TokenError, TOKEN_LEN};

verus! {

/// Why a datagram forwards nothing.
#[derive(Debug, Clone, Copy, PartialEq, Eq, Structural)]
pub enum FrameError {
    /// The bytes are not UTF-8 text.
    NotText,
    /// A field that must hold a token has fewer than six characters.
    ShortToken,
    /// The text ends on a note-on token, with no terminator after it.
    MissingTerminator,
    /// A note-on token does not encode.
    BadToken(TokenError),
}

/// Character that separates the tokens of a datagram.
pub const SEPARATOR: char = '.';

/// Index just past the field that starts at `p`: the first separator at or
/// after `p`, or the end of the text.
pub open spec fn field_end(text: Seq<char>, p: int) -> int
    decreases text.len() - p,
{
    if p >= text.len() {
        text.len() as int
    } else if text[p] == SEPARATOR {
        p
    } else {
        field_end(text, p + 1)
    }
}

/// Words forwarded for the fields of `text` from the one that starts at `p`
/// on. Each field must hold six characters at least, of which the first six
/// form its token. Note-on tokens (first character `O`) are encoded in turn;
/// the first other token ends the run and is not encoded. A run that reaches
/// the end of the text without such a token is a framing error.
pub open spec fn frame_from(text: Seq<char>, p: int) -> Result<Seq<u32>, FrameError>
    decreases text.len() - p,
{
    let end = field_end(text, p);
    if end - p < TOKEN_LEN {
        Err(FrameError::ShortToken)
    } else if text[p] != 'O' {
        Ok(Seq::empty())
    } else {
        match encode_token(text.subrange(p, p + TOKEN_LEN)) {
            Err(e) => Err(FrameError::BadToken(e)),
            Ok(w) => if end >= text.len() {
                Err(FrameError::MissingTerminator)
            } else {
                match frame_from(text, end + 1) {
                    Ok(ws) => Ok(seq![w] + ws),
                    Err(e) => Err(e),
                }
            },
        }
    }
}

/// Words forwarded for a whole text.
pub open spec fn frame_chars(text: Seq<char>) -> Result<Seq<u32>, FrameError> {
    frame_from(text, 0)
}

/// Words forwarded for the bytes of a datagram read as UTF-8 text.
pub open spec fn frame_bytes(bytes: Seq<u8>) -> Result<Seq<u32>, FrameError> {
    if valid_utf8(bytes) {
        frame_chars(decode_utf8(bytes))
    } else {
        Err(FrameError::NotText)
    }
}

/// The words of an executable framing result.
pub open spec fn words_of(r: Result<Vec<u32>, FrameError>) -> Result<Seq<u32>, FrameError> {
    match r {
        Ok(v) => Ok(v@),
        Err(e) => Err(e),
    }
}

/// `done` followed by what `rest` forwards, or the error of `rest`.
pub open spec fn after(done: Seq<u32>, rest: Result<Seq<u32>, FrameError>) -> Result<
    Seq<u32>,
    FrameError,
> {
    match rest {
        Ok(ws) => Ok(done + ws),
        Err(e) => Err(e),
    }
}

proof fn lemma_field_end_bounds(text: Seq<char>, p: int)
    requires
        0 <= p <= text.len(),
    ensures
        p <= field_end(text, p) <= text.len(),
        field_end(text, p) < text.len() ==> text[field_end(text, p)] == SEPARATOR,
        forall|q: int| p <= q < field_end(text, p) ==> text[q] != SEPARATOR,
    decreases text.len() - p,
{
    if p < text.len() && text[p] != SEPARATOR {
        lemma_field_end_bounds(text, p + 1);
    }
}

/// Encodes the six characters of `text` that start at `p`.
fn encode_at(text: &[char], p: usize) -> (r: Result<u32, TokenError>)
    requires
        p + TOKEN_LEN <= text@.len(),
    ensures
        r == encode_token(text@.subrange(p as int, p + TOKEN_LEN)),
{
    let token: [char; 6] = [text[p], text[p + 1], text[p + 2], text[p + 3], text[p + 4], text[p + 5]];
    assert(token@ =~= text@.subrange(p as int, p + TOKEN_LEN));
    generate_note(token)
}

/// Splits `text` at each `.` and encodes its leading run of note-on tokens,
/// in order. The whole text is refused if any field on the way is bad.
pub fn frame_text(text: &[char]) -> (r: Result<Vec<u32>, FrameError>)
    ensures
        words_of(r) == frame_chars(text@),
{
    let mut words: Vec<u32> = Vec::new();
    let mut p: usize = 0;
    loop
        invariant
            p <= text@.len(),
            frame_chars(text@) == after(words@, frame_from(text@, p as int)),
        decreases text@.len() - p,
    {
        let mut end: usize = p;
        while end < text.len() && text[end] != SEPARATOR
            invariant
                p <= end <= text@.len(),
                field_end(text@, p as int) == field_end(text@, end as int),
            decreases text@.len() - end,
        {
            end = end + 1;
        }
        assert(field_end(text@, end as int) == end);
        proof {
            lemma_field_end_bounds(text@, p as int);
        }
        if end - p < TOKEN_LEN {
            return Err(FrameError::ShortToken);
        }
        if text[p] != 'O' {
            assert(words@ + Seq::<u32>::empty() =~= words@);
            return Ok(words);
        }
        match encode_at(text, p) {
            Err(e) => {
                return Err(FrameError::BadToken(e));
            },
            Ok(w) => {
                if end >= text.len() {
                    return Err(FrameError::MissingTerminator);
                }
                proof {
                    let rest = frame_from(text@, end + 1);
                    match rest {
                        Ok(ws) => {
                            assert(words@ + (seq![w] + ws) =~= words@.push(w) + ws);
                        },
                        Err(_) => {},
                    }
                }
                words.push(w);
                p = end + 1;
            },
        }
    }
}

/// Relies on `std::str::from_utf8`: it accepts exactly the valid UTF-8 byte
/// sequences, and `chars` then yields the characters they encode.
#[verifier::external_body]
fn decode_text(bytes: &[u8]) -> (r: Option<Vec<char>>)
    ensures
        r is Some <==> valid_utf8(bytes@),
        r matches Some(cs) ==> cs@ == decode_utf8(bytes@),
{
    std::str::from_utf8(bytes).ok().map(|s| s.chars().collect())
}

/// Reads a datagram as UTF-8 text and frames it.
pub fn frame_datagram(bytes: &[u8]) -> (r: Result<Vec<u32>, FrameError>)
    ensures
        words_of(r) == frame_bytes(bytes@),
{
    match decode_text(bytes) {
        None => Err(FrameError::NotText),
        Some(chars) => frame_text(chars.as_slice()),
    }
}

} // verus!
