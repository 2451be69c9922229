use herostratus::utils::utf8_whitespace::{
    chunks_equal_ignoring_whitespace, is_equal_ignoring_whitespace, CharOrByte, Utf8Chunk,
    WhiteSpaceSkipper,
};

#[test]
fn bstr_equal_ignoring_whitespace() {
    let a = b"";
    let b = b"";
    assert!(is_equal_ignoring_whitespace(&a[..], &b[..]));

    let a = b"a";
    let b = b"a";
    assert!(is_equal_ignoring_whitespace(&a[..], &b[..]));

    let a = b"a";
    let b = b"b";
    assert!(!is_equal_ignoring_whitespace(&a[..], &b[..]));

    let s = b"\xC2\xA0\t \r\n ";
    let s = std::str::from_utf8(s).unwrap();
    assert!(s.chars().all(|c| c.is_whitespace()));

    let a = b"   a\t";
    let b = b"\xC2\xA0a\n\t \r\n "; // \u{A0} is non-breaking space
    assert!(is_equal_ignoring_whitespace(&a[..], &b[..]));

    let a = b"a\xFF b";
    let b = b"ab";
    assert!(!is_equal_ignoring_whitespace(&a[..], &b[..]));

    let a = b"a\xFF b";
    let b = b"a\xFFb";
    assert!(is_equal_ignoring_whitespace(&a[..], &b[..]));

    let a = b"a\xFF b";
    let b = b"ac\xFF b";
    assert!(!is_equal_ignoring_whitespace(&a[..], &b[..]));
}

#[test]
fn one_side_longer_is_not_equal() {
    assert!(!is_equal_ignoring_whitespace(&b"abc"[..], &b"ab"[..]));
    assert!(!is_equal_ignoring_whitespace(&b"ab"[..], &b"ab c"[..]));
    assert!(is_equal_ignoring_whitespace(&b" \n\t"[..], &b""[..]));
}

#[test]
fn invalid_bytes_compare_as_bytes() {
    // 0xFF is never valid UTF-8; 0x0C after it is ASCII whitespace
    assert!(is_equal_ignoring_whitespace(
        &b"\xFF\x0C\xFE"[..],
        &b"\xFF \xFE"[..]
    ));
    assert!(!is_equal_ignoring_whitespace(
        &b"\xFF\xFE"[..],
        &b"\xFE\xFF"[..]
    ));
    // a character and the byte of the same value are not the same
    let chunk_char = vec![Utf8Chunk {
        valid: vec!['a'],
        invalid: vec![],
    }];
    let chunk_byte = vec![Utf8Chunk {
        valid: vec![],
        invalid: vec![b'a'],
    }];
    assert!(!chunks_equal_ignoring_whitespace(chunk_char, chunk_byte));
}

#[test]
fn skipper_gives_characters_then_bytes_of_each_chunk() {
    let chunks = vec![
        Utf8Chunk {
            valid: vec!['a', ' '],
            invalid: vec![0xFF],
        },
        Utf8Chunk {
            valid: vec!['b'],
            invalid: vec![],
        },
    ];
    let mut skipper = WhiteSpaceSkipper::new(chunks);
    assert_eq!(skipper.next_any_char(), Some(CharOrByte::Char('a')));
    assert_eq!(skipper.next_any_char(), Some(CharOrByte::Char(' ')));
    assert_eq!(skipper.next_any_char(), Some(CharOrByte::Byte(0xFF)));
    assert_eq!(skipper.next_any_char(), Some(CharOrByte::Char('b')));
    assert_eq!(skipper.next_any_char(), None);
    assert_eq!(skipper.next_any_char(), None);
}

#[test]
fn skipper_passes_over_whitespace() {
    let chunks = vec![Utf8Chunk {
        valid: vec![' ', '\u{A0}', 'x', '\t'],
        invalid: vec![b' ', 0x80, b'\n'],
    }];
    let mut skipper = WhiteSpaceSkipper::new(chunks);
    assert_eq!(skipper.next_non_whitespace(), Some(CharOrByte::Char('x')));
    assert_eq!(skipper.next_non_whitespace(), Some(CharOrByte::Byte(0x80)));
    assert_eq!(skipper.next_non_whitespace(), None);
}

#[test]
fn skipper_stops_at_a_chunk_that_holds_nothing() {
    let chunks = vec![
        Utf8Chunk {
            valid: vec!['a'],
            invalid: vec![],
        },
        Utf8Chunk {
            valid: vec![],
            invalid: vec![],
        },
        Utf8Chunk {
            valid: vec!['b'],
            invalid: vec![],
        },
    ];
    let mut skipper = WhiteSpaceSkipper::new(chunks);
    assert_eq!(skipper.next_any_char(), Some(CharOrByte::Char('a')));
    assert_eq!(skipper.next_any_char(), None);
    assert_eq!(skipper.next_any_char(), Some(CharOrByte::Char('b')));
}
