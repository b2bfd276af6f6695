use prefix_varint::{
    calc_varint_size, read_prefix, read_size_from_prefix, read_varint, write_varint,
    OverflowError, ReadError,
};

fn check_ok(bytes: &[u8], expected: u64) {
    assert_eq!(read_varint(bytes), Ok((expected, bytes.len())));

    let mut padded: Vec<u8> = vec![0; 5];
    padded.extend_from_slice(bytes);
    padded.push(0xAB);
    assert_eq!(read_varint(&padded[5..]), Ok((expected, bytes.len())));
}

fn check_eof(bytes: &[u8]) {
    assert_eq!(read_varint(bytes), Err(ReadError::UnexpectedEof));
}

fn encoded(value: u64) -> Vec<u8> {
    let mut buf = Vec::new();
    let n = write_varint(value, &mut buf);
    assert_eq!(n, buf.len());
    buf
}

#[test]
fn test_read_size_from_prefix() -> Result<(), OverflowError> {
    assert_eq!(read_size_from_prefix(0b1010_1011)?, 0);
    assert_eq!(read_size_from_prefix(0b1010_1010)?, 1);
    assert_eq!(read_size_from_prefix(0b1010_1100)?, 2);
    assert_eq!(read_size_from_prefix(0b1011_1000)?, 3);
    assert_eq!(read_size_from_prefix(0b1011_0000)?, 4);
    assert_eq!(read_size_from_prefix(0b1010_0000)?, 5);
    assert_eq!(read_size_from_prefix(0b1100_0000)?, 6);
    assert_eq!(read_size_from_prefix(0b1000_0000)?, 7);
    assert_eq!(read_size_from_prefix(0b0000_0000)?, 8);

    Ok(())
}

#[test]
fn test_read_prefix() -> Result<(), OverflowError> {
    assert_eq!(read_prefix(0b1010_1011)?, (0b101_0101, 0));
    assert_eq!(read_prefix(0b1010_1010)?, (0b10_1010, 1));
    assert_eq!(read_prefix(0b1010_1100)?, (0b1_0101, 2));
    assert_eq!(read_prefix(0b1011_1000)?, (0b1011, 3));
    assert_eq!(read_prefix(0b1011_0000)?, (0b101, 4));
    assert_eq!(read_prefix(0b1010_0000)?, (0b10, 5));
    assert_eq!(read_prefix(0b1100_0000)?, (0b1, 6));
    assert_eq!(read_prefix(0b1000_0000)?, (0b0, 7));
    assert_eq!(read_prefix(0b0000_0000)?, (0b0, 8));

    Ok(())
}

#[test]
fn test_read_varint() {
    check_ok(&[0b1010_1011], 0b101_0101);

    check_ok(&[0b1010_1010, 0b1010_1010], 0b10_1010_1010_1010);

    check_eof(&[0b1010_1010]);

    check_ok(
        &[0b1010_1100, 0b1010_1010, 0b1010_1010],
        0b1_0101_0101_0101_0101_0101,
    );
    check_eof(&[0b1010_1100, 0b1010_1010]);

    check_ok(
        &[0b1010_1000, 0b1010_1010, 0b1010_1010, 0b1010_1010],
        0b1010_1010_1010_1010_1010_1010_1010,
    );
    check_eof(&[0b1010_1000, 0b1010_1010, 0b1010_1010]);

    check_ok(
        &[
            0b1011_0000,
            0b1010_1010,
            0b1010_1010,
            0b1010_1010,
            0b1010_1010,
        ],
        0b101_0101_0101_0101_0101_0101_0101_0101_0101,
    );
    check_eof(&[0b1011_0000, 0b1010_1010, 0b1010_1010, 0b1010_1010]);

    check_ok(
        &[
            0,
            u8::MAX,
            u8::MAX,
            u8::MAX,
            u8::MAX,
            u8::MAX,
            u8::MAX,
            u8::MAX,
            u8::MAX,
        ],
        u64::MAX,
    );

    check_ok(
        &[
            0b1000_0000,
            u8::MAX,
            u8::MAX,
            u8::MAX,
            u8::MAX,
            u8::MAX,
            u8::MAX,
            u8::MAX,
        ],
        2_u64.pow(56) - 1,
    );
}

#[test]
fn test_calc_varint_size() {
    assert_eq!(calc_varint_size(u64::MIN), 1);

    assert_eq!(calc_varint_size((2_u64.pow(7)) - 1), 1);
    assert_eq!(calc_varint_size(2_u64.pow(7)), 2);

    assert_eq!(calc_varint_size(u64::MAX), std::mem::size_of::<u64>() + 1);
}

#[test]
fn test_roundtrip() {
    // A fixed xorshift sequence stands in for random values.
    let mut state: u64 = 0x9E37_79B9_7F4A_7C15;
    let mut values: Vec<u64> = vec![u64::MIN, u64::MAX];
    for _ in 0..150_000 {
        state ^= state << 13;
        state ^= state >> 7;
        state ^= state << 17;
        values.push(state >> (state % 64));
    }
    for n in values {
        let buf = encoded(n);
        assert_eq!(read_varint(&buf), Ok((n, buf.len())));
    }
}

#[test]
fn boundary_encodings() {
    assert_eq!(encoded(0), vec![0x01]);
    assert_eq!(encoded(127), vec![0xFF]);
    assert_eq!(encoded(128).len(), 2);
    assert_eq!(encoded(128), vec![0b0000_0010, 0b0000_0010]);
    let mut max = vec![0x00];
    max.extend_from_slice(&[0xFF; 8]);
    assert_eq!(encoded(u64::MAX), max);
}

#[test]
fn write_appends_after_existing_bytes() {
    let mut buf = vec![7u8, 9u8];
    assert_eq!(write_varint(300, &mut buf), 2);
    assert_eq!(buf[..2], [7, 9]);
    assert_eq!(read_varint(&buf[2..]), Ok((300, 2)));
}

#[test]
fn written_length_matches_size() {
    for shift in 0..64u32 {
        for v in [1u64 << shift, (1u64 << shift) - 1, (1u64 << shift) + 1] {
            assert_eq!(encoded(v).len(), calc_varint_size(v));
        }
    }
    for t in 1..=8usize {
        let limit = 1u64 << (7 * t);
        assert_eq!(calc_varint_size(limit - 1), t);
        assert_eq!(calc_varint_size(limit), t + 1);
    }
}

#[test]
fn truncated_input_is_eof() {
    for v in [0u64, 128, 1 << 20, 1 << 40, u64::MAX] {
        let buf = encoded(v);
        for k in 0..buf.len() {
            assert_eq!(read_varint(&buf[..k]), Err(ReadError::UnexpectedEof));
        }
    }
    assert_eq!(read_varint(&[]), Err(ReadError::UnexpectedEof));
}

#[test]
fn size_is_monotonic() {
    let mut prev = calc_varint_size(0);
    for shift in 0..64u32 {
        for v in [(1u64 << shift) - 1, 1u64 << shift] {
            let size = calc_varint_size(v);
            assert!(size >= prev);
            prev = size;
        }
    }
    assert!(calc_varint_size(u64::MAX) >= prev);
}

#[test]
fn no_prefix_byte_overflows() {
    for b in 0..=255u8 {
        let size = read_size_from_prefix(b).expect("every byte has at most eight trailing zeros");
        assert!(size <= 8);
        assert_eq!(size, b.trailing_zeros() as usize);
        assert!(read_prefix(b).is_ok());
    }
    assert_eq!(read_size_from_prefix(0), Ok(8));
}

#[test]
fn overflow_error_keeps_size() {
    let e = OverflowError::new(9);
    assert_eq!(e.size(), 9);
    assert_eq!(ReadError::Overflow(e), ReadError::Overflow(OverflowError::new(9)));
}

#[test]
fn maximal_form_is_accepted_for_small_values() {
    // A longer-than-needed form still decodes.
    assert_eq!(read_varint(&[0, 5, 0, 0, 0, 0, 0, 0, 0]), Ok((5, 9)));
    assert_eq!(read_varint(&[0b0000_0110, 0]), Ok((1, 2)));
}
