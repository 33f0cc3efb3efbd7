use compact_str::repr::boxed::BoxString;

#[test]
fn test_push() {
    let example = "hello world";
    let mut boxed = BoxString::from(example);

    boxed.push('!');
    assert_eq!(boxed.as_str(), "hello world!");
    assert_eq!(boxed.len(), 12);
}

#[test]
fn test_push_str() {
    let example = "hello";
    let mut boxed = BoxString::from(example);

    boxed.push_str(" world!");
    assert_eq!(boxed.as_str(), "hello world!");
    assert_eq!(boxed.len(), 12);
    assert_eq!(boxed.capacity(), 12);
}

#[test]
fn test_box_string_capacity() {
    let example = "hello";
    let mut boxed = BoxString::from(example);

    assert_eq!(boxed.capacity(), 5);

    boxed.push(' ');
    assert_eq!(boxed.len(), 6);
    assert_eq!(boxed.capacity(), 7);

    boxed.push('w');
    boxed.push('o');
    assert_eq!(boxed.len(), 8);
    assert_eq!(boxed.capacity(), 10);

    boxed.push('r');
    boxed.push('l');
    boxed.push('d');
    assert_eq!(boxed.len(), 11);
    assert_eq!(boxed.capacity(), 15);

    assert_eq!(boxed.as_str(), "hello world");
}

#[test]
fn test_string_capacity() {
    let example = "hello";
    let mut std_string = String::from(example);

    assert_eq!(std_string.capacity(), 5);

    std_string.push(' ');
    assert_eq!(std_string.capacity(), 10);

    std_string.push('w');
    std_string.push('o');
    std_string.push('r');
    std_string.push('l');

    std_string.push('d');
    assert_eq!(std_string.capacity(), 20);

    std_string.push('!');
}

#[test]
fn test_from_string_parts() {
    let s = String::from("hello world!");
    let box_string = BoxString::from_string(s.clone());

    assert_eq!(s.as_str(), box_string.as_str());
}

#[test]
fn test_from_string_parts_empty() {
    let s = String::from("");
    let box_string = BoxString::from_string(s.clone());

    assert_eq!(s.as_str(), box_string.as_str());
}

#[test]
fn small_buffers_grow_to_the_minimum() {
    let mut s = String::with_capacity(1);
    s.push('a');
    assert_eq!(s.capacity(), 1);
    let mut boxed = BoxString::from_string(s);
    assert_eq!(boxed.capacity(), 1);
    boxed.reserve(1);
    assert_eq!(boxed.capacity(), 4);
    assert_eq!(boxed.as_str(), "a");
    let mut pushed = BoxString::from_string({
        let mut t = String::with_capacity(1);
        t.push('x');
        t
    });
    pushed.push('y');
    assert_eq!(pushed.capacity(), 4);
    assert_eq!(pushed.as_str(), "xy");
}

#[test]
fn from_string_keeps_the_buffer_size() {
    let s = String::with_capacity(40);
    let mut s = s;
    s.push_str("short");
    let boxed = BoxString::from_string(s);
    assert_eq!(boxed.capacity(), 40);
    assert_eq!(boxed.into_string(), "short");
}
