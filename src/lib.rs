//! Bridge from fixed-width text note commands to packed MIDI 1.0 note words.
//!
//! [`note`] encodes one six-character token into a 32-bit word, [`frame`]
//! splits a received datagram into tokens and collects the words to forward,
//! [`buffer`] holds each datagram as received and clears it after use, and
//! [`destination`] decides which output destination the user picked.
pub mod note;
pub mod frame;
pub mod buffer;
pub mod destination;
