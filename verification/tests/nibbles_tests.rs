use rs_hp4x::nibbles::{next_int, next_lv, next_tlv, nibbles_to_bytes};
use rs_hp4x::{
    extract_nibbles, hexdump_nibbles, next_mandatory_offset, next_offset, pascal_string, Cursor,
    Error,
};

#[test]
fn test_extract_nibbles() {
    let input = vec![0x12, 0x34, 0x56, 0x78];
    let expected = vec![0x2, 0x1, 0x4, 0x3, 0x6, 0x5, 0x8, 0x7];
    let result = extract_nibbles(&input);
    assert_eq!(result, expected);
}

#[test]
fn test_integer5() {
    let input = vec![0x1, 0x2, 0x3, 0x4, 0x5];
    let expected = 0x54321;
    let mut c = Cursor::over(&input);
    assert_eq!(next_int(&input, &mut c, 5).unwrap(), expected);
}

#[test]
fn test_integer3_then_integer2() {
    let input = vec![0x1, 0x2, 0x3, 0x4, 0x5];
    let mut c = Cursor::over(&input);
    let expecteda = 0x21;
    let expectedb = 0x543;
    let a = next_int(&input, &mut c, 2).unwrap();
    let b = next_int(&input, &mut c, 3).unwrap();
    assert_eq!(a, expecteda);
    assert_eq!(b, expectedb);
}

#[test]
fn test_next_offset() {
    let input = vec![0x8, 0, 0, 0, 0, 0, 0, 0, 0x1, 0x2, 0x3, 0x4, 0x5];
    let mut c = Cursor::over(&input);
    let offset = next_offset(&input, &mut c).unwrap().unwrap();
    // An offset of 8 resolves to the view starting 8 - 5 = 3 nibbles past
    // the field, at absolute position 8, spanning the rest of the view.
    assert_eq!(offset.pos, 8);
    assert_eq!(offset.end, input.len());
}

#[test]
fn test_next_offset_zero_is_absent() {
    let input = vec![0, 0, 0, 0, 0, 0x1, 0x2];
    let mut c = Cursor::over(&input);
    let offset = next_offset(&input, &mut c).unwrap();
    assert!(offset.is_none());
    assert_eq!(c.pos, 5);
}

#[test]
fn test_next_offset_incomplete() {
    let input = vec![0x10, 0, 0, 0, 0, 0x2, 0x3, 0x4, 0x5];
    let mut c = Cursor::over(&input);
    let err = next_offset(&input, &mut c).unwrap_err();
    assert!(matches!(err, Error::OutOfData));
}

#[test]
fn test_next_mandatory_offset_zero_is_error() {
    let input = vec![0, 0, 0, 0, 0, 0x1, 0x2];
    let mut c = Cursor::over(&input);
    let err = next_mandatory_offset(&input, &mut c).unwrap_err();
    assert!(matches!(err, Error::Mismatch));
}

#[test]
fn test_pascal_string() {
    let input = vec![0x3, 0x0, 0x1, 0x6, 0x2, 0x6, 0x3, 0x6];
    let mut c = Cursor::over(&input);
    let s = pascal_string(&input, &mut c).unwrap();
    assert_eq!(s, "abc");
}

#[test]
fn test_pascal_string_incomplete() {
    let input = vec![0x03, 0x00, 0x01, 0x06, 0x02, 0x06, 0x03];
    let mut c = Cursor::over(&input);
    let err = pascal_string(&input, &mut c).unwrap_err();
    assert!(matches!(err, Error::OutOfData));
    // the cursor is left where it stood
    assert_eq!(c.pos, 0);
}

#[test]
fn test_hexdump_nibbles() {
    let input = vec![
        0x2, 0x6, 0xf, 0x6, 0xe, 0x6, 0xa, 0x6, 0xf, 0x6, 0x5, 0x7, 0x2, 0x7, 0x1, 0x2,
    ];
    let s = hexdump_nibbles(&input, 0, None);
    println!("{}", s);
    assert_eq!(s, "0000  2 6 f 6 e 6 a 6 f 6 5 7 2 7 1 2   bonjour!  ....V'. \n");
    // shifted with odd number, we see the ascii in the right
    let s = hexdump_nibbles(&input[3..], 3, None);
    assert_eq!(s, "0003  6 e 6 a 6 f 6 5 7 2 7 1 2         ...V'.    njour!  \n");
}

#[test]
fn test_nibble_round_trip() {
    // Re-packing the nibble expansion reproduces the bytes exactly.
    let bytes = vec![0x00, 0x7f, 0x80, 0xff, 0x12, 0xab];
    let nibs = extract_nibbles(&bytes);
    let packed = nibbles_to_bytes(&nibs, 0, nibs.len());
    assert_eq!(packed, bytes);
}

#[test]
fn test_integer_widths_decode_encoding() {
    // For every width the format uses, decoding the little-endian nibble
    // encoding of a value yields that value back.
    let cases: Vec<(u64, usize)> = vec![
        (0xd, 1),
        (0x5a, 2),
        (0x123, 3),
        (0xbeef, 4),
        (0x54321, 5),
        (0xfedcba987654, 12),
    ];
    for (value, width) in cases {
        let mut nibs: Vec<u8> = Vec::new();
        let mut v = value;
        for _ in 0..width {
            nibs.push((v & 0xf) as u8);
            v >>= 4;
        }
        let mut c = Cursor::over(&nibs);
        assert_eq!(next_int(&nibs, &mut c, width).unwrap(), value);
        assert_eq!(c.pos, width);
    }
}

#[test]
fn test_next_lv_bounds() {
    // A length-value region: the length includes the length field itself.
    let input = vec![0x8, 0, 0, 0, 0, 0xa, 0xb, 0xc, 0x9, 0x9];
    let mut c = Cursor::over(&input);
    let sub = next_lv(&input, &mut c).unwrap();
    assert_eq!(sub.pos, 5);
    assert_eq!(sub.end, 8);
    assert_eq!(c.pos, 8);
}

#[test]
fn test_next_tlv_bounds() {
    let input = vec![0x1, 0x2, 0x3, 0x4, 0x5, 0x2, 0, 0, 0, 0, 0xa, 0xb, 0x9];
    let mut c = Cursor::over(&input);
    let (tag, sub) = next_tlv(&input, &mut c).unwrap();
    assert_eq!(tag, 0x54321);
    assert_eq!(sub.pos, 10);
    assert_eq!(sub.end, 12);
    assert_eq!(c.pos, 12);
}
