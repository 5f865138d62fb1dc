use device_tree_parser::{from_utf8_safe, MiniStream, MiniStreamReadError};

#[test]
fn read_bytes_reaching_last_byte() {
    let buf = [1u8, 2, 3, 4];
    let mut s = MiniStream::new(&buf);
    assert_eq!(s.read_bytes(4).unwrap(), &[1u8, 2, 3, 4][..]);
    assert_eq!(s.pos(), 4);
}

#[test]
fn read_bytes_past_end_moves_nothing() {
    let buf = [1u8, 2, 3];
    let mut s = MiniStream::new(&buf);
    assert_eq!(s.read_bytes(2).unwrap(), &[1u8, 2][..]);
    assert_eq!(s.read_bytes(2), Err(MiniStreamReadError::ReadPastEnd));
    assert_eq!(s.pos(), 2);
}

#[test]
fn peek_bytes_keeps_position() {
    let buf = [7u8, 8, 9];
    let s = MiniStream::new(&buf);
    assert_eq!(s.peek_bytes(3).unwrap(), &[7u8, 8, 9][..]);
    assert_eq!(s.peek_bytes(4), Err(MiniStreamReadError::ReadPastEnd));
    assert_eq!(s.pos(), 0);
}

#[test]
fn words_are_big_endian() {
    let buf = [0xd0u8, 0x0d, 0xfe, 0xed, 0x00, 0x00, 0x00, 0x11];
    let mut s = MiniStream::new(&buf);
    assert_eq!(s.peek_u32_le(), Ok(0xd00dfeed));
    assert_eq!(s.read_u32_le(), Ok(0xd00dfeed));
    assert_eq!(s.read_u32_le(), Ok(17));
    assert_eq!(s.pos(), 8);
    assert_eq!(s.read_u32_le(), Err(MiniStreamReadError::ReadPastEnd));
    assert_eq!(s.pos(), 8);
}

#[test]
fn read_string0_drops_terminator() {
    let buf = *b"ab\0cd";
    let mut s = MiniStream::new(&buf);
    assert_eq!(s.read_string0().unwrap(), &b"ab"[..]);
    assert_eq!(s.pos(), 3);
    assert_eq!(s.read_string0(), Err(MiniStreamReadError::ReadPastEnd));
    assert_eq!(s.pos(), 3);
}

#[test]
fn read_string0_at_end() {
    let buf = *b"x\0";
    let mut s = MiniStream::new(&buf);
    assert_eq!(s.read_string0().unwrap(), &b"x"[..]);
    assert_eq!(s.read_string0(), Err(MiniStreamReadError::ReadPastEnd));
}

#[test]
fn align_moves_to_multiple_of_four() {
    let buf = [0u8; 8];
    let mut s = MiniStream::new(&buf);
    assert_eq!(s.align(), Ok(()));
    assert_eq!(s.pos(), 0);
    s.read_bytes(5).unwrap();
    assert_eq!(s.align(), Ok(()));
    assert_eq!(s.pos(), 8);
}

#[test]
fn align_past_end_fails() {
    let buf = [0u8; 6];
    let mut s = MiniStream::new(&buf);
    s.read_bytes(5).unwrap();
    assert_eq!(s.align(), Err(MiniStreamReadError::ReadPastEnd));
    assert_eq!(s.pos(), 5);
}

#[test]
fn seek_inside_and_outside() {
    let buf = [0u8; 4];
    let mut s = MiniStream::new(&buf);
    assert_eq!(s.seek(3), Ok(()));
    assert_eq!(s.pos(), 3);
    assert_eq!(s.seek(4), Err(MiniStreamReadError::ReadPastEnd));
    assert_eq!(s.pos(), 3);
}

#[test]
fn utf8_text_or_marker() {
    assert_eq!(from_utf8_safe(b"compatible"), "compatible");
    assert_eq!(from_utf8_safe(&[0xffu8, 0xfe]), "utf8!invalid");
    assert_eq!(from_utf8_safe(b""), "");
}
