use compact_str::repr::inline::InlineBuffer;
use compact_str::repr::MAX_SIZE;
use compact_str::CompactString;

#[test]
fn smoketest_zeroize() {
    let mut short = CompactString::from("hello");
    short.zeroize();
    assert_eq!(short, "\0\0\0\0\0");

    let mut long = CompactString::from("I am a long string that will be on the heap");
    long.zeroize();
    assert_eq!(long, "\0\0\0\0\0\0\0\0\0\0\0\0\0\0\0\0\0\0\0\0\0\0\0\0\0\0\0\0\0\0\0\0\0\0\0\0\0\0\0\0\0\0\0");
    assert!(long.is_heap_allocated());
}

#[test]
fn zeroize_static_becomes_empty() {
    let mut s = CompactString::const_new("a static string that is longer than inline");
    s.zeroize();
    assert_eq!(s, "");
}

#[test]
fn zeroize_wipes_inline_bytes_past_the_length() {
    let mut buffer = InlineBuffer::new("password");
    buffer.set_len(0);
    buffer.zero_content();
    assert_eq!(buffer.as_str(), "");
    assert!(buffer.0[..MAX_SIZE - 1].iter().all(|b| *b == 0));
}

#[test]
fn zeroize_full_inline_buffer_keeps_its_length() {
    let text = "abcdefghijklmnopqrstuvwx";
    let mut s = CompactString::from(text);
    assert!(!s.is_heap_allocated());
    s.zeroize();
    assert_eq!(s.len(), MAX_SIZE);
    assert!(s.as_bytes().iter().all(|b| *b == 0));
}
