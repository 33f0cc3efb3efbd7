use compact_str::repr::boxed::capacity::Capacity;

#[test]
fn test_zero_roundtrips() {
    let og = 0;
    let cap = Capacity::new(og).unwrap();
    let after = cap.as_usize().unwrap();

    assert_eq!(og, after);
}

#[test]
fn test_max_value() {
    let available_bytes = (core::mem::size_of::<usize>() - 1) as u32;
    let max_value = 2usize.pow(available_bytes * 8) - 2;

    assert_eq!(max_value, 72_057_594_037_927_934);

    let cap = Capacity::new(max_value).unwrap();
    let after = cap.as_usize().unwrap();

    assert_eq!(max_value, after);
}

#[test]
fn test_first_invalid_value() {
    let available_bytes = (core::mem::size_of::<usize>() - 1) as u32;
    let first_invalid = 2usize.pow(available_bytes * 8) - 1;

    assert_eq!(first_invalid, 72_057_594_037_927_935);

    assert!(Capacity::new(first_invalid).is_err());
}

#[test]
fn test_usize_max_fails() {
    let og = usize::MAX;
    assert!(Capacity::new(og).is_err());
}

#[test]
fn test_all_valid_32bit_values() {
    for i in 0..=16_777_214usize {
        let cap = Capacity::new(i).unwrap();
        assert_eq!(i, cap.as_usize().unwrap());
    }
}

#[test]
fn capacity_boundaries() {
    let zero = Capacity::new(0).unwrap();
    assert!(!zero.is_heap());
    assert_eq!(zero.as_usize(), Ok(0));

    let max = Capacity::new(72_057_594_037_927_934).unwrap();
    assert!(!max.is_heap());
    assert_eq!(max.as_usize(), Ok(72_057_594_037_927_934));

    let marker = Capacity::new(usize::MAX).unwrap_err();
    assert!(marker.is_heap());
    assert_eq!(marker.as_usize(), Err(()));
}
