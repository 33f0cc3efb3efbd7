use compact_str::repr::arc::ArcString;
use compact_str::repr::arc_str::ArcStr;
use compact_str::repr::boxed::BoxString;
use compact_str::repr::shared_heap::arc::ArcString as SharedArcString;

#[test]
fn arc_test_sanity() {
    let example = "hello world!";
    let arc_str = ArcStr::from(example);

    assert_eq!(arc_str.as_str(), example);
    assert_eq!(arc_str.len(), example.len());

    let arc_str = SharedArcString::from(example);

    assert_eq!(arc_str.as_str(), example);
    assert_eq!(arc_str.len(), example.len());
}

#[test]
fn mod_test_sanity() {
    let example = "hello world!";
    let arc_str = ArcString::from(example);

    assert_eq!(arc_str.as_str(), example);
    assert_eq!(arc_str.len(), example.len());

    let box_str = BoxString::from(example);

    assert_eq!(box_str.as_str(), example);
    assert_eq!(box_str.len(), example.len());
}

#[test]
fn mod_test_empty() {
    let empty = "";
    let arc_str = ArcString::from(empty);

    assert_eq!(arc_str.as_str(), empty);
    assert_eq!(arc_str.len(), empty.len());

    let box_string = BoxString::new("");
    assert_eq!(box_string.as_str(), "");
}

#[test]
fn mod_test_clone_and_drop() {
    let example = "hello world!";
    let arc_str_1 = ArcString::from(example);
    let arc_str_2 = arc_str_1.clone();

    drop(arc_str_1);

    assert_eq!(arc_str_2.as_str(), example);
    assert_eq!(arc_str_2.len(), example.len());

    let example = "nyc";
    let one = BoxString::from(example);
    let two = one.clone();

    assert_eq!(one.as_str(), example);
    drop(one);
    assert_eq!(two.as_str(), example);
}

#[test]
fn mod_test_long() {
    let long = "aaabbbcccdddeeefff\n
                    ggghhhiiijjjkkklll\n
                    mmmnnnooopppqqqrrr\n
                    ssstttuuuvvvwwwxxx\n
                    yyyzzz000111222333\n
                    444555666777888999000";
    let arc_str = ArcString::from(long);

    assert_eq!(arc_str.as_str(), long);
    assert_eq!(arc_str.len(), long.len());
}

#[test]
fn test_extend_chars() {
    let example = "hello";
    let mut arc = ArcString::from(example);

    let chars: Vec<char> = " world!".chars().collect();
    arc.extend_chars(&chars);

    assert_eq!(arc.as_str(), "hello world!");
    assert_eq!(arc.len(), 12);
}

#[test]
fn test_extend_strs() {
    let example = "hello";
    let mut arc = ArcString::from(example);

    let words = vec![" ", "world!", "my name is", " compact", "_str"];
    arc.extend_strs(&words);

    assert_eq!(arc.as_str(), "hello world!my name is compact_str");
    assert_eq!(arc.len(), 34);
}

#[test]
fn arc_test_empty() {
    let empty = "";
    let arc_str = SharedArcString::from(empty);

    assert_eq!(arc_str.as_str(), empty);
    assert_eq!(arc_str.len(), empty.len());
}

#[test]
fn arc_test_long() {
    let long = "aaabbbcccdddeeefff\n
                    ggghhhiiijjjkkklll\n
                    mmmnnnooopppqqqrrr\n
                    ssstttuuuvvvwwwxxx\n
                    yyyzzz000111222333\n
                    444555666777888999000";
    let arc_str = SharedArcString::from(long);

    assert_eq!(arc_str.as_str(), long);
    assert_eq!(arc_str.len(), long.len());
}

#[test]
fn arc_test_clone_and_drop() {
    let example = "hello world!";
    let arc_str_1 = SharedArcString::from(example);
    let arc_str_2 = arc_str_1.clone();

    drop(arc_str_1);

    assert_eq!(arc_str_2.as_str(), example);
    assert_eq!(arc_str_2.len(), example.len());
}

#[test]
fn shared_copy_on_write() {
    let mut a = ArcString::from("abc");
    let b = a.clone();
    a.push('d');
    assert_eq!(a.as_str(), "abcd");
    assert_eq!(b.as_str(), "abc");
    assert_eq!(b.capacity(), 4);
}

#[test]
fn arc_string_capacity_growth() {
    let a = ArcString::new("hello", 0);
    assert_eq!(a.capacity(), 7);
    let b = ArcString::new("hello", 10);
    assert_eq!(b.capacity(), 15);
    let c = ArcString::with_capacity(32);
    assert_eq!(c.len(), 0);
    assert_eq!(c.capacity(), 32);
}

#[test]
fn arc_str_new_is_empty() {
    let s = ArcStr::new();
    assert_eq!(s.len(), 0);
    assert_eq!(s.as_str(), "");
}
