use utf8_codec::decode_slice;
use utf8_codec::decode_slice_u32;
use utf8_codec::decode_utf8;
use utf8_codec::leading_ones;

/// Decodes all of `bs` lazily, substituting U+FFFD for each invalid sequence.
fn decoded_chars(bs: &[u8]) -> Vec<char> {
    let mut d = decode_utf8(bs.to_vec());
    let mut out = Vec::new();
    while let Some(r) = d.next() {
        out.push(r.unwrap_or('\u{FFFD}'));
    }
    out
}

/// Decodes all of `bs` lazily, keeping each outcome: `Some` for a scalar,
/// `None` for an invalid sequence.
fn decoded_outcomes(bs: &[u8]) -> Vec<Option<char>> {
    let mut d = decode_utf8(bs.to_vec());
    let mut out = Vec::new();
    while let Some(r) = d.next() {
        out.push(r.ok());
    }
    out
}

#[test]
fn test_decode() {
    for &(str, bs) in [
        ("", &[] as &[u8]),
        ("A", &[0x41u8] as &[u8]),
        ("\u{FFFD}", &[0xC1u8, 0x81u8] as &[u8]),
        ("\u{2665}", &[0xE2u8, 0x99u8, 0xA5u8]),
        ("\u{2665}A", &[0xE2u8, 0x99u8, 0xA5u8, 0x41u8] as &[u8]),
        ("\u{FFFD}", &[0xE2u8, 0x99u8] as &[u8]),
        ("\u{FFFD}A", &[0xE2u8, 0x99u8, 0x41u8] as &[u8]),
        ("\u{FFFD}", &[0xC0u8] as &[u8]),
        ("\u{FFFD}A", &[0xC0u8, 0x41u8] as &[u8]),
        ("\u{FFFD}", &[0x80u8] as &[u8]),
        ("\u{FFFD}A", &[0x80u8, 0x41u8] as &[u8]),
        ("\u{FFFD}", &[0xFEu8] as &[u8]),
        ("\u{FFFD}A", &[0xFEu8, 0x41u8] as &[u8]),
        ("\u{FFFD}", &[0xFFu8] as &[u8]),
        ("\u{FFFD}A", &[0xFFu8, 0x41u8] as &[u8]),
    ]
    .iter()
    {
        let decoded = decoded_chars(bs);
        let expected: Vec<char> = str.chars().collect();
        assert!(
            expected == decoded,
            "chars = {}, bytes = {:?}, decoded = {:?}",
            str,
            bs,
            decoded
        );
    }
}

#[test]
fn test_lazy_scenarios() {
    assert_eq!(decoded_outcomes(&[]), Vec::<Option<char>>::new());
    assert_eq!(decoded_outcomes(&[0x41]), vec![Some('A')]);
    assert_eq!(decoded_outcomes(&[0xE2, 0x99, 0xA5]), vec![Some('\u{2665}')]);
    assert_eq!(decoded_outcomes(&[0xE2, 0x99]), vec![None]);
    assert_eq!(decoded_outcomes(&[0xE2, 0x99, 0x41]), vec![None, Some('A')]);
    assert_eq!(decoded_outcomes(&[0xC1, 0x81]), vec![None]);
    assert_eq!(decoded_outcomes(&[0x80]), vec![None]);
    assert_eq!(decoded_outcomes(&[0xFF]), vec![None]);
}

#[test]
fn test_bulk_scenarios() {
    assert_eq!(decode_slice(&[]), None);
    assert_eq!(decode_slice(&[0x41]), Some(('A', 1)));
    assert_eq!(decode_slice(&[0xE2, 0x99, 0xA5]), Some(('\u{2665}', 3)));
    assert_eq!(decode_slice(&[0xE2, 0x99]), None);
    assert_eq!(decode_slice(&[0xE2, 0x99, 0x41]), None);
    assert_eq!(decode_slice(&[0xC1, 0x81]), None);
    assert_eq!(decode_slice(&[0x80]), None);
    assert_eq!(decode_slice(&[0xFF]), None);
}

#[test]
fn test_ascii_fast_path() {
    for b in 0u8..0x80 {
        assert_eq!(decode_slice(&[b]), Some(((b as char), 1)));
        assert_eq!(decoded_outcomes(&[b]), vec![Some(b as char)]);
    }
}

#[test]
fn test_overlong_rejected() {
    // two-byte forms of values below 0x80
    assert_eq!(decode_slice(&[0xC0, 0x80]), None);
    assert_eq!(decode_slice(&[0xC1, 0xBF]), None);
    // three-byte form of a value below 0x800
    assert_eq!(decode_slice(&[0xE0, 0x81, 0x81]), None);
    // four-byte form of a value below 0x10000
    assert_eq!(decode_slice(&[0xF0, 0x80, 0x81, 0x81]), None);
    assert_eq!(decoded_outcomes(&[0xE0, 0x81, 0x81]), vec![None]);
}

#[test]
fn test_surrogates_rejected() {
    // 0xD800 and 0xDFFF, the two ends of the surrogate range
    assert_eq!(decode_slice(&[0xED, 0xA0, 0x80]), None);
    assert_eq!(decode_slice(&[0xED, 0xBF, 0xBF]), None);
    // the scalars on either side of the range decode fine
    assert_eq!(decode_slice(&[0xED, 0x9F, 0xBF]), Some(('\u{D7FF}', 3)));
    assert_eq!(decode_slice(&[0xEE, 0x80, 0x80]), Some(('\u{E000}', 3)));
}

#[test]
fn test_out_of_range_rejected() {
    // 0x110000, one above the last scalar value
    assert_eq!(decode_slice(&[0xF4, 0x90, 0x80, 0x80]), None);
    assert_eq!(decode_slice(&[0xF4, 0x8F, 0xBF, 0xBF]), Some(('\u{10FFFF}', 4)));
}

#[test]
fn test_extended_lengths_rejected() {
    // five and six byte sequences are consumed whole but never decode
    assert_eq!(decoded_outcomes(&[0xF8, 0x88, 0x80, 0x80, 0x80]), vec![None]);
    assert_eq!(
        decoded_outcomes(&[0xF8, 0x88, 0x80, 0x80, 0x80, 0x41]),
        vec![None, Some('A')]
    );
    assert_eq!(
        decoded_outcomes(&[0xFC, 0x84, 0x80, 0x80, 0x80, 0x80, 0x41]),
        vec![None, Some('A')]
    );
    assert_eq!(decode_slice(&[0xF8, 0x88, 0x80, 0x80, 0x80]), None);
}

#[test]
fn test_resynchronization() {
    // a four-byte head with two continuation bytes: the error accounts for
    // those three bytes and the following scalar decodes on the next pull
    assert_eq!(
        decoded_outcomes(&[0xF0, 0x9F, 0x92, 0xE2, 0x82, 0xAC]),
        vec![None, Some('\u{20AC}')]
    );
}

#[test]
fn test_decode_slice_u32() {
    assert_eq!(decode_slice_u32(&[]), None);
    assert_eq!(decode_slice_u32(&[0x41]), Some((0x41, 1)));
    assert_eq!(decode_slice_u32(&[0xE2, 0x99, 0xA5]), Some((0x2665, 3)));
    assert_eq!(decode_slice_u32(&[0xF0, 0x9F, 0x92, 0x96]), Some((0x1F496, 4)));
    // the raw variant applies the same validation as the char variant
    assert_eq!(decode_slice_u32(&[0x80]), None);
    assert_eq!(decode_slice_u32(&[0xC1, 0x81]), None);
}

#[test]
fn test_classifier() {
    for &(b, n) in [
        (0x00u8, 0u32),
        (0x7F, 0),
        (0x80, 1),
        (0xBF, 1),
        (0xC0, 2),
        (0xDF, 2),
        (0xE0, 3),
        (0xEF, 3),
        (0xF0, 4),
        (0xF7, 4),
        (0xF8, 5),
        (0xFB, 5),
        (0xFC, 6),
        (0xFD, 6),
        (0xFE, 7),
        (0xFF, 8),
    ]
    .iter()
    {
        assert_eq!(leading_ones(b), n, "byte {:#04X}", b);
    }
}
