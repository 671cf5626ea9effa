use meteo_core::varint::{take_varint, unzigzag, varint_len, zigzag, VarintError};

#[test]
fn zigzag_and_back() {
    for (v, n) in [(0, 0), (-1, 1), (1, 2), (-2, 3), (2, 4), (i64::MAX, u64::MAX - 1), (i64::MIN, u64::MAX)] {
        assert_eq!(zigzag(v), n);
        assert_eq!(unzigzag(n), v);
    }
}

#[test]
fn varint_lengths() {
    assert_eq!(varint_len(0), 1);
    assert_eq!(varint_len(127), 1);
    assert_eq!(varint_len(128), 2);
    assert_eq!(varint_len(u64::MAX), 10);
}

#[test]
fn varint_reading() {
    assert_eq!(take_varint(&[0xAC, 0x02, 7]), Ok((300, &[7u8][..])));
    assert_eq!(take_varint(&[]), Err(VarintError::Truncated));
    assert_eq!(take_varint(&[0x80; 10]), Err(VarintError::Overflow));
    let max = [0xFF, 0xFF, 0xFF, 0xFF, 0xFF, 0xFF, 0xFF, 0xFF, 0xFF, 0x01];
    assert_eq!(take_varint(&max), Ok((u64::MAX, &[][..])));
}
