use dashboard_backend::greeting::greet;

#[test]
fn greet_interpolates_name() {
    let r = greet("Ana");
    assert_eq!(r, "Hello, Ana! You have been greeted by the backend!");
}

#[test]
fn greet_contains_name_and_is_nonempty() {
    let r = greet("World");
    assert!(r.contains("World"));
    assert!(!r.is_empty());
}

#[test]
fn greet_empty_name() {
    let r = greet("");
    assert_eq!(r, "Hello, ! You have been greeted by the backend!");
    assert!(!r.is_empty());
}

#[test]
fn greet_keeps_unusual_characters() {
    let r = greet("a:b;{c}\n0");
    assert_eq!(r, "Hello, a:b;{c}\n0! You have been greeted by the backend!");
}
