use compact_str::repr::Repr;
use compact_str::CompactString;

#[test]
fn short_char_iter() {
    let chars = ['a', 'b', 'c'];
    let repr = Repr::from_chars(&chars);

    assert_eq!(repr.as_str(), "abc");
    assert!(!repr.is_heap_allocated());
}

#[test]
fn short_char_ref_iter() {
    let chars = ['a', 'b', 'c'];
    let repr = Repr::from_chars(&chars);

    assert_eq!(repr.as_str(), "abc");
    assert!(!repr.is_heap_allocated());
}

#[test]
fn long_char_iter() {
    let long = "This is supposed to be a really long string";
    let chars: Vec<char> = long.chars().collect();
    let repr = Repr::from_chars(&chars);

    assert_eq!(repr.as_str(), "This is supposed to be a really long string");
    assert!(repr.is_heap_allocated());
}

#[test]
fn short_string_iter() {
    let strings = vec!["hello", "world"];
    let repr = Repr::from_strs(&strings);

    assert_eq!(repr.as_str(), "helloworld");
    assert!(!repr.is_heap_allocated());
}

#[test]
fn long_short_string_iter() {
    let strings = vec![
        "1", "2", "3", "4", "5", "6", "7", "8", "9", "10", "11", "12", "13", "14", "15", "16",
        "17", "18", "19", "20",
    ];
    let repr = Repr::from_strs(&strings);

    assert_eq!(repr.as_str(), "1234567891011121314151617181920");
    assert!(repr.is_heap_allocated());
}

#[test]
fn compact_from_and_extend() {
    let s = CompactString::from_chars(&['h', 'é', 'y']);
    assert_eq!(s, "héy");
    let mut t = CompactString::from_strs(&["ab", "", "cd"]);
    assert_eq!(t, "abcd");
    t.extend_chars(&['!', '?']);
    t.extend_strs(&[" and", " more"]);
    assert_eq!(t, "abcd!? and more");
}
