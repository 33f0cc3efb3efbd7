use compact_str::repr::Repr;
use compact_str::CompactString;

#[test]
fn test_smoke() {
    let word = "hello world";
    let chunks: [&[u8]; 1] = [word.as_bytes()];

    let repr = Repr::from_utf8_buf(&chunks).unwrap();
    assert_eq!(repr.as_str(), word);
}

#[test]
fn test_heap_allocated() {
    let word = "hello, this is a long string which should be heap allocated";
    let chunks: [&[u8]; 1] = [word.as_bytes()];

    let repr = Repr::from_utf8_buf(&chunks).unwrap();
    assert_eq!(repr.as_str(), word);
}

#[test]
fn bytes_test_empty() {
    let chunks: [&[u8]; 1] = [&[]];

    let repr = Repr::from_utf8_buf(&chunks).unwrap();
    assert_eq!(repr.len(), 0);
    assert_eq!(repr.as_str(), "");
}

#[test]
fn test_packed() {
    let packed = "this string is 24 chars!";
    let chunks: [&[u8]; 1] = [packed.as_bytes()];

    let repr = Repr::from_utf8_buf(&chunks).unwrap();
    assert_eq!(repr.as_str(), packed);

    assert!(!repr.is_heap_allocated());
}

#[test]
fn test_fuzz_panic() {
    let bytes: &[u8] = &[
        255, 255, 255, 255, 255, 0, 0, 0, 3, 0, 0, 0, 0, 0, 0, 0, 0, 0, 4, 1, 12, 0, 0, 96,
    ];
    let chunks: [&[u8]; 1] = [bytes];

    assert!(Repr::from_utf8_buf(&chunks).is_err());
}

#[test]
fn test_valid_repr_but_invalid_utf8() {
    let bytes: &[u8] = &[0, 0, 0, 0, 0, 0, 0, 0, 0, 0, 0, 0, 0, 0, 0, 0, 0, 0, 0, 0, 0, 0, 0, 192];
    let chunks: [&[u8]; 1] = [bytes];

    assert!(Repr::from_utf8_buf(&chunks).is_err());
}

#[test]
fn test_fake_heap_variant() {
    let bytes: &[u8] = &[0, 0, 0, 0, 0, 0, 0, 0, 0, 0, 0, 0, 0, 0, 0, 0, 0, 0, 0, 0, 0, 0, 0, 255];
    let chunks: [&[u8]; 1] = [bytes];

    assert!(Repr::from_utf8_buf(&chunks).is_err());
}

#[test]
#[should_panic(expected = "Utf8Error")]
fn test_invalid_utf8() {
    let invalid: &[u8] = &[0, 159];
    let chunks: [&[u8]; 1] = [invalid];

    Repr::from_utf8_buf(&chunks).unwrap();
}

#[test]
fn from_utf8_buf_in_chunks() {
    let chunks: [&[u8]; 3] = ["héllo, ".as_bytes(), "this arrives ".as_bytes(), "in pieces".as_bytes()];
    let s = CompactString::from_utf8_buf(&chunks).unwrap();
    assert_eq!(s, "héllo, this arrives in pieces");
    assert!(s.is_heap_allocated());

    // a character split across two chunks is still one character
    let e = "é".as_bytes();
    let split: [&[u8]; 2] = [&e[0..1], &e[1..2]];
    assert_eq!(CompactString::from_utf8_buf(&split).unwrap(), "é");
}
