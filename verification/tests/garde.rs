use compact_str::CompactString;

fn within(n: usize, min: usize, max: usize) -> bool {
    min <= n && n <= max
}

#[test]
fn as_str_ascii_valid() {
    let value = CompactString::from("hello world!");
    assert!(value.as_str().is_ascii());
}

#[test]
fn as_str_ascii_invalid() {
    let value = CompactString::from("héllo");
    assert!(!value.as_str().is_ascii());
}

#[test]
fn has_bytes_within_limit() {
    let value = CompactString::from("hi");
    assert!(within(value.num_bytes(), 1, 4));
}

#[test]
fn has_bytes_exceeds_limit() {
    let value = CompactString::from("héllo");
    assert!(!within(value.num_bytes(), 1, 4));
}

#[test]
fn has_bytes_empty_fails() {
    let value = CompactString::new("");
    assert!(!within(value.num_bytes(), 1, 4));
}

#[test]
fn has_chars_within_limit() {
    let value = CompactString::from("héy");
    assert!(within(value.num_chars(), 1, 3));
}

#[test]
fn has_chars_exceeds_limit() {
    let value = CompactString::from("abcd");
    assert!(!within(value.num_chars(), 1, 3));
}

#[test]
fn has_chars_empty_fails() {
    let value = CompactString::new("");
    assert!(!within(value.num_chars(), 1, 3));
}

#[test]
fn has_simple_length_valid() {
    let value = CompactString::from("abc");
    assert!(within(value.length(), 2, 5));
}

#[test]
fn has_simple_length_too_short() {
    let value = CompactString::from("a");
    assert!(!within(value.length(), 2, 5));
}

#[test]
fn has_simple_length_too_long() {
    let value = CompactString::from("abcdef");
    assert!(!within(value.length(), 2, 5));
}

#[test]
fn has_utf16_bmp_char_valid() {
    let value = CompactString::from("é");
    assert!(within(value.num_code_units(), 1, 2));
}

#[test]
fn has_utf16_surrogate_pair_valid() {
    let value = CompactString::from("😀");
    assert!(within(value.num_code_units(), 1, 2));
}

#[test]
fn has_utf16_exceeds_limit() {
    let value = CompactString::from("😀😀");
    assert!(!within(value.num_code_units(), 1, 2));
}

fn string_valid(s: &str) -> bool {
    s.is_ascii()
        && within(s.len(), 1, 100)
        && within(s.chars().count(), 1, 100)
        && within(s.len(), 1, 100)
        && within(s.encode_utf16().count(), 1, 100)
}

fn compact_valid(c: &CompactString) -> bool {
    c.as_str().is_ascii()
        && within(c.num_bytes(), 1, 100)
        && within(c.num_chars(), 1, 100)
        && within(c.length(), 1, 100)
        && within(c.num_code_units(), 1, 100)
}

#[test]
fn matches_string_behavior() {
    for s in &["hello", "héllo", "😀", "a", ""] {
        let string_result = string_valid(s);
        let compact_result = compact_valid(&CompactString::from(*s));
        assert_eq!(string_result, compact_result, "mismatch for input {:?}", s);
        let c = CompactString::from(*s);
        assert_eq!(c.num_chars(), s.chars().count());
        assert_eq!(c.num_code_units(), s.encode_utf16().count());
    }
}
