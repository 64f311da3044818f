use clowncar::ident::{Ident, INLINE_CAPACITY};

#[test]
fn ident_test() {
    let hello = Ident::new("hello");
    println!("{}", hello.as_str());
    assert!(hello.is_stack());
    let bigger = Ident::new("This is a much longer string, and will end up on the heap.");
    assert!(!bigger.is_stack());
    assert_eq!(bigger.as_str(), "This is a much longer string, and will end up on the heap.");
}

#[test]
fn ident_round_trip_inline() {
    let ident = Ident::new("hello");
    assert_eq!(ident.as_str(), "hello");
}

#[test]
fn ident_empty() {
    let ident = Ident::new("");
    assert!(ident.is_stack());
    assert_eq!(ident.as_str(), "");
}

#[test]
fn ident_boundary_fourteen_bytes_is_inline() {
    let text = "abcdefghijklmn";
    assert_eq!(text.len(), INLINE_CAPACITY);
    let ident = Ident::new(text);
    assert!(ident.is_stack());
    assert_eq!(ident.as_str(), text);
}

#[test]
fn ident_boundary_fifteen_bytes_is_on_heap() {
    let text = "abcdefghijklmno";
    let ident = Ident::new(text);
    assert!(!ident.is_stack());
    assert_eq!(ident.as_str(), text);
}

#[test]
fn ident_counts_bytes_not_chars() {
    let seven_wide = "ééééééé";
    assert_eq!(seven_wide.len(), 14);
    let ident = Ident::new(seven_wide);
    assert!(ident.is_stack());
    assert_eq!(ident.as_str(), seven_wide);
    let eight_wide = "éééééééé";
    let ident = Ident::new(eight_wide);
    assert!(!ident.is_stack());
    assert_eq!(ident.as_str(), eight_wide);
}

#[test]
fn ident_longest_text() {
    let text = "x".repeat(u16::MAX as usize);
    let ident = Ident::new(&text);
    assert!(!ident.is_stack());
    assert_eq!(ident.as_str(), text.as_str());
}
