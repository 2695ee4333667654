use utf8_codec::decode_slice;
use utf8_codec::UtfExt;

#[test]
fn test_encode() {
    for &(s, x) in [("A", 'A'), ("\u{2665}", '\u{2665}')].iter() {
        let mut buf = vec![0u8; 6];
        let n = x.try_encode_utf8(&mut buf);
        let ts = n.map(|n| std::str::from_utf8(&buf[..n]).unwrap());
        assert_eq!(Some(s), ts, "{:02X?}", ts.map(str::as_bytes));
    }
}

#[test]
fn test_encode_bytes() {
    let cases: [(char, &[u8]); 6] = [
        ('\u{0}', &[0x00]),
        ('A', &[0x41]),
        ('\u{7F}', &[0x7F]),
        ('\u{80}', &[0xC2, 0x80]),
        ('\u{2665}', &[0xE2, 0x99, 0xA5]),
        ('\u{1F496}', &[0xF0, 0x9F, 0x92, 0x96]),
    ];
    for &(c, bytes) in cases.iter() {
        let mut buf = vec![0u8; 6];
        let n = c.try_encode_utf8(&mut buf).unwrap();
        assert_eq!(&buf[..n], bytes, "scalar {:#X}", c as u32);
    }
}

#[test]
fn test_encode_insufficient_space() {
    let mut empty: Vec<u8> = Vec::new();
    assert_eq!('A'.try_encode_utf8(&mut empty), None);
    assert!(empty.is_empty());

    let mut short = vec![0xAAu8, 0xBB];
    assert_eq!('\u{2665}'.try_encode_utf8(&mut short), None);
    assert_eq!(short, vec![0xAA, 0xBB]);

    let mut exact = vec![0u8; 3];
    assert_eq!('\u{2665}'.try_encode_utf8(&mut exact), Some(3));
    assert_eq!(exact, vec![0xE2, 0x99, 0xA5]);
}

#[test]
fn test_encode_u32() {
    let mut buf = vec![0u8; 6];
    assert_eq!(0x41u32.try_encode_utf8(&mut buf), Some(1));
    assert_eq!(buf[0], 0x41);
    assert_eq!(0x2665u32.try_encode_utf8(&mut buf), Some(3));
    assert_eq!(&buf[..3], &[0xE2, 0x99, 0xA5]);
}

#[test]
fn test_encode_u32_extended_range() {
    // the raw encoder accepts the historical generalized range, which the
    // strict decoder then refuses
    let mut buf = vec![0u8; 6];
    assert_eq!(0xD800u32.try_encode_utf8(&mut buf), Some(3));
    assert_eq!(&buf[..3], &[0xED, 0xA0, 0x80]);
    assert_eq!(decode_slice(&buf[..3]), None);

    assert_eq!(0x110000u32.try_encode_utf8(&mut buf), Some(4));
    assert_eq!(&buf[..4], &[0xF4, 0x90, 0x80, 0x80]);
    assert_eq!(decode_slice(&buf[..4]), None);

    assert_eq!(0x200000u32.try_encode_utf8(&mut buf), Some(5));
    assert_eq!(&buf[..5], &[0xF8, 0x88, 0x80, 0x80, 0x80]);

    assert_eq!(0x7FFFFFFFu32.try_encode_utf8(&mut buf), Some(6));
    assert_eq!(&buf[..6], &[0xFD, 0xBF, 0xBF, 0xBF, 0xBF, 0xBF]);

    // and nothing of 32 bits beyond the generalized range
    assert_eq!(0x80000000u32.try_encode_utf8(&mut buf), None);
}

#[test]
fn test_round_trip_boundaries() {
    let scalars: [u32; 11] = [
        0x00, 0x41, 0x7F, 0x80, 0x7FF, 0x800, 0xD7FF, 0xE000, 0xFFFF, 0x10000, 0x10FFFF,
    ];
    let lengths: [usize; 11] = [1, 1, 1, 2, 2, 3, 3, 3, 3, 4, 4];
    for (&v, &l) in scalars.iter().zip(lengths.iter()) {
        let c = char::from_u32(v).unwrap();
        let mut buf = vec![0u8; 6];
        let n = c.try_encode_utf8(&mut buf).unwrap();
        assert_eq!(n, l, "scalar {:#X}", v);
        assert_eq!(decode_slice(&buf[..n]), Some((c, n)), "scalar {:#X}", v);
        // decoding tolerates trailing bytes after the encoding
        assert_eq!(decode_slice(&buf[..]), Some((c, n)), "scalar {:#X}", v);
    }
}
