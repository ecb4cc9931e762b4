use midi_bridge::buffer::{DatagramBuffer, BUFFER_CAPACITY};
use midi_bridge::frame::FrameError;

#[test]
fn buffer_frames_with_trailing_zeros() {
    let mut buf = DatagramBuffer::new();
    let n = buf.receive(b"OC_0007.OD_0107.X_____");
    assert_eq!(n, 22);
    assert_eq!(buf.process(), Ok(vec![0x2090_0c00, 0x2090_0e10]));
}

#[test]
fn note_on_at_end_of_buffer_lacks_terminator() {
    let mut buf = DatagramBuffer::new();
    buf.receive(b"OC_000");
    assert_eq!(buf.process(), Err(FrameError::MissingTerminator));
}

#[test]
fn short_terminator_is_padded_by_zeros() {
    let mut buf = DatagramBuffer::new();
    buf.receive(b"OC_000.X");
    assert_eq!(buf.process(), Ok(vec![0x2090_0c00]));
}

#[test]
fn processing_clears_earlier_bytes() {
    let mut buf = DatagramBuffer::new();
    buf.receive(b"OC_000.OD_000.X_____");
    assert_eq!(buf.process(), Ok(vec![0x2090_0c00, 0x2090_0e00]));
    // Shorter than the first: without the reset it would read
    // "OE_000.OD_000.X_____" and forward two words.
    buf.receive(b"OE_000");
    assert_eq!(buf.process(), Err(FrameError::MissingTerminator));
    buf.receive(b"X_____");
    assert_eq!(buf.process(), Ok(vec![]));
}

#[test]
fn oversized_datagram_is_cut_at_capacity() {
    let mut buf = DatagramBuffer::new();
    let data = vec![b'X'; BUFFER_CAPACITY + 100];
    assert_eq!(buf.receive(&data), BUFFER_CAPACITY);
    assert_eq!(buf.process(), Ok(vec![]));
}

#[test]
fn invalid_utf8_in_buffer_is_not_text() {
    let mut buf = DatagramBuffer::new();
    buf.receive(&[0xc3]);
    assert_eq!(buf.process(), Err(FrameError::NotText));
}
