use compact_str::modify::Modification;
use compact_str::{ByteBound, CompactStr, CompactString, MAX_SIZE};

#[test]
fn new_inline_and_heap() {
    let short = CompactString::new("hello");
    assert_eq!(short, "hello");
    assert_eq!(short.len(), 5);
    assert!(!short.is_heap_allocated());
    assert_eq!(short.capacity(), MAX_SIZE);

    let long = CompactString::new("this is a string that does not fit inline");
    assert!(long.is_heap_allocated());
    assert_eq!(long.capacity(), long.len());

    let inline = CompactString::new_inline("exactly twenty four byte");
    assert_eq!(inline.len(), 24);
    assert!(!inline.is_heap_allocated());

    let empty = CompactString::default();
    assert!(empty.is_empty());
    assert_eq!(empty, "");
}

#[test]
fn with_capacity_rules() {
    let small = CompactString::with_capacity(3);
    assert_eq!(small.capacity(), MAX_SIZE);
    assert!(!small.is_heap_allocated());
    let big = CompactString::with_capacity(100);
    assert_eq!(big.capacity(), 100);
    assert!(big.is_heap_allocated());
    assert!(big.is_empty());
}

#[test]
fn from_utf8_results() {
    let ok = CompactString::from_utf8("héllo".as_bytes()).unwrap();
    assert_eq!(ok, "héllo");
    assert!(CompactString::from_utf8(&[0xff, 0x00]).is_err());
}

#[test]
fn from_utf16_results() {
    let buf: &[u16] = &[0xD834, 0xDD1E, 0x006d, 0x0075, 0x0073, 0x0069, 0x0063];
    let compact = CompactString::from_utf16(buf).unwrap();
    assert_eq!(compact, "𝄞music");

    let bad: &[u16] = &[0xD834, 0xDD1E, 0x006d, 0x0075, 0xD800, 0x0069, 0x0063];
    assert!(CompactString::from_utf16(bad).is_err());

    let lone_low: &[u16] = &[0xDC00];
    assert!(CompactString::from_utf16(lone_low).is_err());
}

#[test]
fn push_and_pop() {
    let mut s = CompactString::new("abc");
    s.push('é');
    assert_eq!(s, "abcé");
    assert_eq!(s.pop(), Some('é'));
    assert_eq!(s, "abc");
    let mut e = CompactString::new("");
    assert_eq!(e.pop(), None);
    s.push_str(" and a long tail that moves it to the heap");
    assert!(s.is_heap_allocated());
    assert_eq!(s, "abc and a long tail that moves it to the heap");
}

#[test]
fn insert_remove_truncate_clear() {
    let mut s = CompactString::new("hllo");
    s.insert(1, 'e');
    assert_eq!(s, "hello");
    assert_eq!(s.remove(0), 'h');
    assert_eq!(s, "ello");
    s.insert_str(0, "j");
    assert_eq!(s, "jello");
    s.truncate(10);
    assert_eq!(s, "jello");
    s.truncate(2);
    assert_eq!(s, "je");
    s.clear();
    assert_eq!(s, "");
    assert_eq!(s.capacity(), MAX_SIZE);
}

#[test]
fn split_off_and_replace_range() {
    let mut s = CompactString::new("Hello, World!");
    let tail = s.split_off(5);
    assert_eq!(s, "Hello");
    assert_eq!(tail, ", World!");

    let mut t = CompactString::new("Hello, World!");
    t.replace_range(ByteBound::Included(7), ByteBound::Excluded(12), "Verus");
    assert_eq!(t, "Hello, Verus!");
    t.replace_range(ByteBound::Unbounded, ByteBound::Included(4), "J");
    assert_eq!(t, "J, Verus!");
}

#[test]
fn drain_range() {
    let mut s = CompactString::new("abcdéf");
    let mut d = s.drain(ByteBound::Included(1), ByteBound::Excluded(6));
    assert_eq!(d.as_str(), "bcdé");
    assert_eq!(d.next(), Some('b'));
    assert_eq!(d.next_back(), Some('é'));
    assert_eq!(d.as_str(), "cd");
    assert_eq!(s, "af");
}

#[test]
fn reserve_and_shrink() {
    let mut s = CompactString::new("abc");
    s.reserve(100);
    assert!(s.capacity() >= 103);
    assert!(s.is_heap_allocated());
    s.shrink_to_fit();
    assert!(!s.is_heap_allocated());
    assert_eq!(s, "abc");

    let mut l = CompactString::with_capacity(200);
    l.push_str("a long string that stays on the heap after shrinking");
    l.shrink_to(60);
    assert_eq!(l.capacity(), 60);
    l.shrink_to(0);
    assert_eq!(l.capacity(), l.len());
}

#[test]
fn retain_keeps_chosen_chars() {
    let mut s = CompactString::from("äb𝄞d€");
    s.retain(|c| c != 'ä' && c != 'd');
    assert_eq!(s, "b𝄞€");
}

#[test]
fn conversions_and_equality() {
    let s = CompactString::from(String::from("owned text"));
    assert_eq!(s, "owned text");
    assert_eq!(String::from(s.clone()), "owned text");
    let b: Box<str> = "boxed".into();
    let c = CompactString::from(b);
    assert_eq!(c, *"boxed");
    assert_eq!(String::from("boxed"), c);
    assert_eq!("boxed", c);
    let added = c + " more";
    assert_eq!(added, "boxed more");
    assert_eq!(added.into_string(), "boxed more".to_string());
    let r: &String = &String::from("by ref");
    assert_eq!(CompactString::from(r), "by ref");
    let alias: CompactStr = CompactStr::new("alias");
    assert_eq!(alias.as_bytes(), b"alias");
}

#[test]
fn static_text_is_not_copied_until_written() {
    let mut s = CompactString::const_new("a static string that is longer than inline");
    assert!(!s.is_heap_allocated());
    s.push('!');
    assert!(s.is_heap_allocated());
    assert_eq!(s, "a static string that is longer than inline!");
}

#[test]
fn modifications_keep_strings_equal() {
    let mut control = String::from("start");
    let mut compact = CompactString::new("start");
    Modification::Push('x').perform(&mut control, &mut compact);
    Modification::PushStr(" and more text to reach the heap").perform(&mut control, &mut compact);
    Modification::Pop(3).perform(&mut control, &mut compact);
    Modification::ExtendChars(vec!['é', '!']).perform(&mut control, &mut compact);
    Modification::ExtendStr(vec!["a", "bc"]).perform(&mut control, &mut compact);
    Modification::Pop(1000).perform(&mut control, &mut compact);
    assert_eq!(control, compact);
    assert!(compact.is_empty());
}

#[test]
fn ordering_and_parsing() {
    let a = CompactString::new("abc");
    let b = CompactString::new("abd");
    let p = CompactString::new("ab");
    assert!(a < b);
    assert!(p < a);
    assert!(b > p);
    assert_eq!(a.partial_cmp(&a.clone()), Some(core::cmp::Ordering::Equal));
    let long_a = CompactString::new("a long string that lives on the heap: a");
    let long_b = CompactString::new("a long string that lives on the heap: b");
    assert!(long_a < long_b);
    let parsed: CompactString = "parsed".parse().unwrap();
    assert_eq!(parsed, "parsed");
}

#[test]
fn insert_then_remove_restores() {
    let mut s = CompactString::new("naïve text");
    let before = s.clone();
    s.insert(3, '€');
    assert_eq!(s.remove(3), '€');
    assert_eq!(s, before);
}

#[test]
fn split_then_rejoin_restores() {
    let mut s = CompactString::new("a string with ünïcödé that is long enough for the heap");
    let before = s.clone();
    let tail = s.split_off(14);
    s.push_str(tail.as_str());
    assert_eq!(s, before);
}

#[test]
fn drain_then_rejoin_restores() {
    let mut s = CompactString::new("front-middle-back");
    let before = s.clone();
    let d = s.drain(ByteBound::Included(6), ByteBound::Excluded(12));
    let middle = CompactString::new(d.as_str());
    assert_eq!(middle, "middle");
    let back = s.split_off(6);
    s.push_str(middle.as_str());
    s.push_str(back.as_str());
    assert_eq!(s, before);
}

#[test]
fn deref_and_as_ref() {
    let s = CompactString::new("viewed");
    let r: &str = &s;
    assert_eq!(r, "viewed");
    assert_eq!(AsRef::<str>::as_ref(&s), "viewed");
    assert!(s.starts_with("view"));
}

#[test]
fn static_text_keeps_capacity_when_shortened() {
    let text = "a static string that is longer than inline";
    let mut s = CompactString::const_new(text);
    let cap = s.capacity();
    assert_eq!(cap, text.len());
    s.truncate(8);
    assert_eq!(s, "a static");
    assert_eq!(s.capacity(), cap);
    let tail = s.split_off(2);
    assert_eq!(tail, "static");
    assert_eq!(s, "a ");
    assert_eq!(s.capacity(), cap);
    s.clear();
    assert_eq!(s, "");
    assert_eq!(s.capacity(), cap);
    assert!(s.capacity() >= core::mem::size_of::<String>());
}

#[test]
fn many_short_slices_stay_inline() {
    let empties = [""; 30];
    let s = CompactString::from_strs(&empties);
    assert!(!s.is_heap_allocated());
    assert_eq!(s, "");
    assert!(s.capacity() >= core::mem::size_of::<String>());
}

#[test]
fn collected_text_of_inline_size_goes_to_the_heap() {
    let text = "exactly twenty four byte";
    assert_eq!(text.len(), MAX_SIZE);
    let chars: Vec<char> = text.chars().collect();
    assert!(CompactString::from_chars(&chars).is_heap_allocated());
    assert!(!CompactString::from_chars(&chars[..23]).is_heap_allocated());
    assert!(CompactString::from_strs(&["exactly twenty ", "four byte"]).is_heap_allocated());
    assert!(!CompactString::from_strs(&["exactly twenty ", "four byt"]).is_heap_allocated());
}

#[test]
fn test_allocated_properly() {
    let words = [
        "",
        "short",
        "exactly twenty four byte",
        "éabcdefghijklmnopqrstuv",
        "a text that is clearly longer than the inline size",
    ];
    for word in words {
        let chunks: [&[u8]; 1] = [word.as_bytes()];
        let compact = CompactString::from_utf8_buf(&chunks).unwrap();
        assert_eq!(compact, word);
        if word.len() < MAX_SIZE {
            assert!(!compact.is_heap_allocated())
        } else if word.len() == MAX_SIZE && word.as_bytes()[0] <= 127 {
            assert!(!compact.is_heap_allocated())
        } else {
            assert!(compact.is_heap_allocated())
        }
    }
}

#[test]
fn into_string_hands_over_the_buffer() {
    let c = CompactString::with_capacity(200);
    let mut c = c;
    c.push_str("a heap string whose buffer is handed over");
    let s = String::from(c);
    assert_eq!(s, "a heap string whose buffer is handed over");
    assert_eq!(s.capacity(), 200);
}

#[test]
fn should_partial_eq_compactstring() {
    let a = CompactString::new("A");
    let a2 = CompactString::new("A");
    let b = CompactString::new("B");
    assert_eq!(Some(true), Some(a == a2));
    assert_eq!(Some(false), Some(a == b));
}

#[test]
fn compactstring_should_from_reflect() {
    let string = CompactString::new("hello_world.rs");
    let output = Some(string.clone());
    assert_eq!(Some(string), output);
}

#[test]
fn compactstring_heap_should_from_reflect() {
    let string = CompactString::from("abc".repeat(100));
    let output = Some(string.clone());
    assert_eq!(Some(string), output);
}

#[test]
fn utf8_error_is_the_std_error() {
    let bad = [b'a', b'b', 0xff, b'c'];
    let err = CompactString::from_utf8(&bad).unwrap_err();
    assert_eq!(err, core::str::from_utf8(&bad).unwrap_err());
    assert_eq!(err.valid_up_to(), 2);
}

#[test]
fn into_string_and_from_string_keep_text() {
    let long = String::from("a heap string that is handed over to a String buffer");
    let c = CompactString::from(long.clone());
    assert!(c.is_heap_allocated());
    assert_eq!(c.into_string(), long);
}

#[test]
fn drain_keeps_capacity() {
    let mut s = CompactString::with_capacity(100);
    s.push_str("some text that we will drain a part of");
    let d = s.drain(ByteBound::Included(4), ByteBound::Excluded(9));
    assert_eq!(d.as_str(), " text");
    assert_eq!(s.capacity(), 100);
}

#[test]
fn drain_of_static_text_keeps_capacity() {
    let text = "a static string that is longer than inline";
    let mut s = CompactString::const_new(text);
    let d = s.drain(ByteBound::Included(0), ByteBound::Excluded(2));
    assert_eq!(d.as_str(), "a ");
    assert_eq!(s, "static string that is longer than inline");
    assert!(s.is_heap_allocated());
    assert_eq!(s.capacity(), text.len());
}

#[test]
fn reserve_grows_by_half_again() {
    let text = "abcdefghijklmnopqrstuvwxyz0123";
    let mut s = CompactString::from(text);
    assert_eq!(s.capacity(), 30);
    s.reserve(1);
    assert_eq!(s.capacity(), 45);

    let mut st = CompactString::const_new("abcdefghijklmnopqrstuvwxyz0123");
    st.reserve(1);
    assert!(st.is_heap_allocated());
    assert_eq!(st.capacity(), 45);

    let mut big = CompactString::from(text);
    big.reserve(100);
    assert_eq!(big.capacity(), 130);
}
