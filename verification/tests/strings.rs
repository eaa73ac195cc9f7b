use olympic_lib::strings::MutableString;

#[test]
fn new_is_empty() {
    let s = MutableString::new();
    assert_eq!(s.len(), 0);
    assert!(s.is_empty());
    assert_eq!(s.as_chars(), &[] as &[char]);
}

#[test]
fn push_and_pop() {
    let mut s = MutableString::new();
    s.push('h');
    s.push('i');
    assert_eq!(s.len(), 2);
    assert!(!s.is_empty());
    assert_eq!(s.as_chars(), &['h', 'i']);
    assert_eq!(s.pop(), Some('i'));
    assert_eq!(s.pop(), Some('h'));
    assert_eq!(s.pop(), None);
    assert!(s.is_empty());
}

#[test]
fn from_vec_and_into_chars_round_trip() {
    let chars = vec!['a', 'b', 'c'];
    let s = MutableString::from_vec(chars.clone());
    assert_eq!(s.len(), 3);
    assert_eq!(s.into_chars(), chars);
}

#[test]
fn truncate_shortens_and_ignores_large_lengths() {
    let mut s = MutableString::from_vec(vec!['a', 'b', 'c', 'd']);
    s.truncate(10);
    assert_eq!(s.len(), 4);
    s.truncate(2);
    assert_eq!(s.as_chars(), &['a', 'b']);
    s.truncate(0);
    assert!(s.is_empty());
}

#[test]
fn clear_removes_everything() {
    let mut s = MutableString::from_vec(vec!['x', 'y']);
    s.clear();
    assert_eq!(s.len(), 0);
}

#[test]
fn char_at_and_set_char() {
    let mut s = MutableString::from_vec(vec!['c', 'a', 't']);
    assert_eq!(s.char_at(0), 'c');
    assert_eq!(s.char_at(2), 't');
    s.set_char(0, 'b');
    assert_eq!(s.as_chars(), &['b', 'a', 't']);
}

#[test]
fn capacity_is_at_least_length() {
    let mut s = MutableString::with_capacity(10);
    assert!(s.capacity() >= 10);
    s.push('q');
    assert!(s.capacity() >= s.len());
    s.reserve(100);
    assert!(s.capacity() >= 101);
    assert_eq!(s.as_chars(), &['q']);
    s.reserve_exact(5);
    assert_eq!(s.as_chars(), &['q']);
    s.shrink_to_fit();
    assert_eq!(s.as_chars(), &['q']);
    assert!(s.capacity() >= 1);
}

#[test]
fn derived_equality_compares_contents() {
    let a = MutableString::from_vec(vec!['a', 'b']);
    let b = MutableString::from_vec(vec!['a', 'b']);
    let c = MutableString::from_vec(vec!['a']);
    assert_eq!(a, b);
    assert_ne!(a, c);
    assert!(c < a);
    assert_eq!(MutableString::default(), MutableString::new());
}
