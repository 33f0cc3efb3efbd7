use compact_str::repr::inline::InlineBuffer;
use compact_str::repr::discriminant::{Discriminant, DiscriminantMask};
use compact_str::repr::packed::PackedString;
use compact_str::repr::{Repr, ReserveError, HEAP_MASK, LENGTH_MASK, MAX_SIZE};

#[test]
fn test_reserve_overflow() {
    let mut r = Repr::new("abc");
    let err = r.reserve(usize::MAX).unwrap_err();
    assert_eq!(err, ReserveError(()));
}

#[test]
fn inline_repr_roundtrip() {
    let texts = ["", "a", "hello", "héllo wörld", "this string is 24 chars!"];
    for text in texts {
        let repr = Repr::new(text);
        assert_eq!(repr.as_str().as_bytes(), text.as_bytes());
        assert_eq!(repr.len(), text.len());
        assert_eq!(repr.capacity(), MAX_SIZE);
        assert!(!repr.is_heap_allocated());
        assert!(!repr.is_static_str());
        assert!(repr.last_byte() < HEAP_MASK);
        if text.len() < MAX_SIZE {
            assert_eq!(repr.last_byte(), text.len() as u8 | LENGTH_MASK);
        } else {
            assert_eq!(repr.last_byte(), text.as_bytes()[MAX_SIZE - 1]);
            assert!(repr.last_byte() < LENGTH_MASK);
        }
    }
    let heap = Repr::new("a string that is too long to be stored inline");
    assert_eq!(heap.last_byte(), HEAP_MASK);
}

#[test]
fn discriminant_from_last_byte() {
    assert_eq!(DiscriminantMask::new(HEAP_MASK).discriminant(), Discriminant::Heap);
    assert_eq!(DiscriminantMask::new(LENGTH_MASK | 3).discriminant(), Discriminant::Inline);
    assert_eq!(DiscriminantMask::new(b'a').discriminant(), Discriminant::Inline);
}

#[test]
fn packed_string() {
    let text = "this string is 24 chars!";
    let p = PackedString::new(text);
    assert_eq!(p.len(), MAX_SIZE);
    assert_eq!(p.capacity(), MAX_SIZE);
    assert_eq!(p.as_slice(), text.as_bytes());
    assert_eq!(p.as_str(), text);
    let q = PackedString::new_const(text);
    assert_eq!(q.as_str(), text);
}

#[test]
fn repr_clone_from_and_static() {
    let mut a = Repr::new("short");
    let b = Repr::new("a string that is too long to be stored inline");
    a.clone_from(&b);
    assert_eq!(a.as_str(), b.as_str());
    let s = Repr::const_new("a static string that is longer than inline");
    assert!(s.is_static_str());
    assert_eq!(s.as_static_str(), Some("a static string that is longer than inline"));
    let mut c = Repr::new("x");
    c.clone_from(&s);
    assert!(c.is_static_str());
}

#[test]
fn from_string_honours_should_inline() {
    let mut s = String::with_capacity(10);
    s.push_str("short");
    let heap = Repr::from_string(s.clone(), false);
    assert!(heap.is_heap_allocated());
    assert_eq!(heap.as_str(), "short");
    let inline = Repr::from_string(s, true);
    assert!(!inline.is_heap_allocated());
    let empty = Repr::from_string(String::new(), false);
    assert!(!empty.is_heap_allocated());
    let mut t = String::with_capacity(16);
    t.push_str("abc");
    let parts = Repr::from_string_parts(t, 16, false);
    assert_eq!(parts.capacity(), 16);
    assert_eq!(parts.as_str(), "abc");
}

#[test]
fn inline_buffer_zero_padding() {
    let b = InlineBuffer::new("ab");
    assert_eq!(&b.0[..2], b"ab");
    assert!(b.0[2..MAX_SIZE - 1].iter().all(|&x| x == 0));
    assert_eq!(b.0[MAX_SIZE - 1], 2 | LENGTH_MASK);
    let c = InlineBuffer::new_const("ab");
    assert_eq!(b.0, c.0);
    let e = InlineBuffer::empty();
    assert!(e.0[..MAX_SIZE - 1].iter().all(|&x| x == 0));
    assert_eq!(e.0[MAX_SIZE - 1], LENGTH_MASK);
}
