use compact_str::repr::traits::IntoRepr;
use compact_str::to_compact_string;

#[test]
fn test_from_u8_sanity() {
    let vals = [u8::MIN, 1, 0, 42, u8::MAX - 1, u8::MAX];

    for x in &vals {
        let repr = u8::into_repr(*x);
        assert_eq!(repr.as_str(), x.to_string());
    }
}

#[test]
fn test_from_i8_sanity() {
    let vals = [i8::MIN, i8::MIN + 1, 0, 42, i8::MAX - 1, i8::MAX];

    for x in &vals {
        let repr = i8::into_repr(*x);
        assert_eq!(repr.as_str(), x.to_string());
    }
}

#[test]
fn test_from_u16_sanity() {
    let vals = [u16::MIN, 1, 0, 42, u16::MAX - 1, u16::MAX];

    for x in &vals {
        let repr = u16::into_repr(*x);
        assert_eq!(repr.as_str(), x.to_string());
    }
}

#[test]
fn test_from_i16_sanity() {
    let vals = [i16::MIN, i16::MIN + 1, 0, 42, i16::MAX - 1, i16::MAX];

    for x in &vals {
        let repr = i16::into_repr(*x);
        assert_eq!(repr.as_str(), x.to_string());
    }
}

#[test]
fn test_from_u32_sanity() {
    let vals = [u32::MIN, 1, 0, 42, u32::MAX - 1, u32::MAX];

    for x in &vals {
        let repr = u32::into_repr(*x);
        assert_eq!(repr.as_str(), x.to_string());
    }
}

#[test]
fn test_from_i32_sanity() {
    let vals = [i32::MIN, i32::MIN + 1, 0, 42, i32::MAX - 1, i32::MAX];

    for x in &vals {
        let repr = i32::into_repr(*x);
        assert_eq!(repr.as_str(), x.to_string());
    }
}

#[test]
fn test_from_u64_sanity() {
    let vals = [u64::MIN, 1, 0, 42, u64::MAX - 1, u64::MAX];

    for x in &vals {
        let repr = u64::into_repr(*x);
        assert_eq!(repr.as_str(), x.to_string());
    }
}

#[test]
fn test_from_i64_sanity() {
    let vals = [i64::MIN, i64::MIN + 1, 0, 42, i64::MAX - 1, i64::MAX];

    for x in &vals {
        let repr = i64::into_repr(*x);
        assert_eq!(repr.as_str(), x.to_string());
    }
}

#[test]
fn test_from_usize_sanity() {
    let vals = [usize::MIN, 1, 0, 42, usize::MAX - 1, usize::MAX];

    for x in &vals {
        let repr = usize::into_repr(*x);
        assert_eq!(repr.as_str(), x.to_string());
    }
}

#[test]
fn test_from_isize_sanity() {
    let vals = [
        isize::MIN,
        isize::MIN + 1,
        0,
        42,
        isize::MAX - 1,
        isize::MAX,
    ];

    for x in &vals {
        let repr = isize::into_repr(*x);
        assert_eq!(repr.as_str(), x.to_string());
    }
}

#[test]
fn test_from_u128_sanity() {
    let vals = [u128::MIN, 1, 0, 42, u128::MAX - 1, u128::MAX];

    for x in &vals {
        let repr = u128::into_repr(*x);
        assert_eq!(repr.as_str(), x.to_string());
    }
}

#[test]
fn test_from_i128_sanity() {
    let vals = [i128::MIN, i128::MIN + 1, 0, 42, i128::MAX - 1, i128::MAX];

    for x in &vals {
        let repr = i128::into_repr(*x);
        assert_eq!(repr.as_str(), x.to_string());
    }
}

#[test]
fn other_values_into_repr() {
    assert_eq!(true.into_repr().as_str(), "true");
    assert_eq!(false.into_repr().as_str(), "false");
    assert_eq!('é'.into_repr().as_str(), "é");
    assert_eq!(String::from("owned").into_repr().as_str(), "owned");
    let b: Box<str> = "a boxed string that is long enough for the heap".into();
    let r = b.into_repr();
    assert_eq!(r.as_str(), "a boxed string that is long enough for the heap");
    assert!(r.is_heap_allocated());
    assert!(u128::MAX.into_repr().is_heap_allocated());
    assert!(!u64::MAX.into_repr().is_heap_allocated());
}

#[test]
fn to_compact_string_of_numbers() {
    assert_eq!(to_compact_string(-1234i32), "-1234");
    assert_eq!(to_compact_string(0u8), "0");
}
