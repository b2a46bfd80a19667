use rmule::{ByteCursor, DecodeError};

#[test]
fn cursor_reads_each_width_in_order() {
    let data = [0x01u8, 0x02, 0x03, 0x04, 0x05, 0x06, 0x07, 0x08, 0x09, 0x0A, 0x0B];
    let mut cur = ByteCursor::new(&data);
    assert_eq!(cur.remaining(), 11);
    assert_eq!(cur.read_u8(), Ok(0x01));
    assert_eq!(cur.read_u16_le(), Ok(0x0302));
    assert_eq!(cur.read_u32_le(), Ok(0x07060504));
    assert_eq!(cur.read_u32_be(), Ok(0x08090A0B));
    assert_eq!(cur.remaining(), 0);
}

#[test]
fn cursor_reads_raw_bytes() {
    let data = [9u8, 8, 7, 6];
    let mut cur = ByteCursor::new(&data);
    assert_eq!(cur.read_u8(), Ok(9));
    assert_eq!(cur.read_bytes(2), Ok(vec![8, 7]));
    assert_eq!(cur.read_bytes(2), Err(DecodeError::Truncated));
    // The failed read consumed nothing.
    assert_eq!(cur.read_bytes(1), Ok(vec![6]));
}

#[test]
fn cursor_fails_on_truncation_without_advancing() {
    let data = [1u8, 2];
    let mut cur = ByteCursor::new(&data);
    assert_eq!(cur.read_u32_le(), Err(DecodeError::Truncated));
    assert_eq!(cur.remaining(), 2);
    assert_eq!(cur.read_u16_le(), Ok(0x0201));
}
