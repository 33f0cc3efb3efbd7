use compact_str::{to_compact_string, CompactString};

#[test]
fn test() {
    assert_eq!(to_compact_string(2), "2");
    assert_eq!(CompactString::from(format!("{}", 2)), "2");
}
