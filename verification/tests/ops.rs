use smallstring::SmallString;
use smallstring::INLINE_CAPACITY;

#[test]
fn new_is_empty_inline() {
    let s = SmallString::new();
    assert_eq!(s.len(), 0);
    assert!(s.is_empty());
    assert!(!s.spilled());
    assert_eq!(s.capacity(), INLINE_CAPACITY);
    assert_eq!(s.inline_size(), INLINE_CAPACITY);
    assert_eq!(s.as_str(), "");
}

#[test]
fn from_str_short_stays_inline() {
    let s = SmallString::from_str("Hello");
    assert!(!s.spilled());
    assert_eq!(s.as_str(), "Hello");
    assert_eq!(s.len(), 5);
}

#[test]
fn from_str_long_spills() {
    let s = SmallString::from_str("a long string that spills");
    assert!(s.spilled());
    assert_eq!(s.as_str(), "a long string that spills");
}

#[test]
fn with_capacity_allocates_iff_over_inline() {
    let small = SmallString::with_capacity(4);
    assert!(!small.spilled());
    assert_eq!(small.capacity(), INLINE_CAPACITY);
    assert_eq!(small.len(), 0);

    let big = SmallString::with_capacity(100);
    assert!(big.spilled());
    assert!(big.capacity() >= 100);
    assert_eq!(big.len(), 0);
}

#[test]
fn push_and_pop_ascii() {
    let mut s = SmallString::new();
    s.push('a');
    s.push('b');
    assert_eq!(s.as_str(), "ab");
    assert_eq!(s.pop(), Some('b'));
    assert_eq!(s.as_str(), "a");
    assert_eq!(s.pop(), Some('a'));
    assert_eq!(s.pop(), None);
    assert!(s.is_empty());
}

#[test]
fn push_then_pop_two_byte_char() {
    let mut s = SmallString::new();
    s.push('\u{e9}');
    assert_eq!(s.len(), 2);
    assert_eq!(s.as_str(), "\u{e9}");
    assert_eq!(s.pop(), Some('\u{e9}'));
    assert_eq!(s.len(), 0);
}

#[test]
fn push_pop_restores_length_for_all_widths() {
    let mut s = SmallString::from_str("base");
    for c in ['x', '\u{e9}', '\u{4e16}', '\u{1f600}'] {
        let before = s.len();
        s.push(c);
        assert_eq!(s.pop(), Some(c));
        assert_eq!(s.len(), before);
        assert_eq!(s.as_str(), "base");
    }
}

#[test]
fn pop_decodes_backwards_through_mixed_text() {
    let mut s = SmallString::from_str("a\u{e9}\u{4e16}\u{1f600}");
    assert_eq!(s.pop(), Some('\u{1f600}'));
    assert_eq!(s.pop(), Some('\u{4e16}'));
    assert_eq!(s.pop(), Some('\u{e9}'));
    assert_eq!(s.pop(), Some('a'));
    assert_eq!(s.pop(), None);
}

#[test]
fn spill_threshold() {
    let mut s = SmallString::new();
    for _ in 0..INLINE_CAPACITY {
        s.push('a');
    }
    assert_eq!(s.len(), INLINE_CAPACITY);
    assert!(!s.spilled());
    s.push('a');
    assert!(s.spilled());
}

#[test]
fn push_str_appends() {
    let mut s = SmallString::from_str("foo");
    s.push_str("bar");
    assert_eq!(s.as_str(), "foobar");
    s.push_str("");
    assert_eq!(s.as_str(), "foobar");
    s.push_str(" and more text");
    assert_eq!(s.as_str(), "foobar and more text");
    assert!(s.spilled());
}

#[test]
fn truncate_at_boundary() {
    let mut s = SmallString::from_str("hello");
    s.truncate(10);
    assert_eq!(s.as_str(), "hello");
    s.truncate(3);
    assert_eq!(s.as_str(), "hel");
    s.truncate(0);
    assert_eq!(s.as_str(), "");
}

#[test]
fn char_boundaries_of_multibyte_text() {
    let s = SmallString::from_str("\u{e9}");
    assert!(s.is_char_boundary(0));
    assert!(!s.is_char_boundary(1));
    assert!(s.is_char_boundary(2));
    assert!(!s.is_char_boundary(3));
}

#[test]
fn clear_keeps_storage_mode() {
    let mut s = SmallString::from_str("a string long enough to spill");
    assert!(s.spilled());
    let cap = s.capacity();
    s.clear();
    assert_eq!(s.len(), 0);
    assert!(s.spilled());
    assert_eq!(s.capacity(), cap);

    let mut t = SmallString::from_str("tiny");
    t.clear();
    assert!(!t.spilled());
    assert_eq!(t.capacity(), INLINE_CAPACITY);
}

#[test]
fn reserve_grows_capacity() {
    let mut s = SmallString::new();
    s.reserve(100);
    assert!(s.capacity() >= 100);
    assert_eq!(s.len(), 0);

    let mut t = SmallString::from_str("abc");
    let cap = t.capacity();
    t.reserve(1);
    assert_eq!(t.capacity(), cap);
    assert_eq!(t.as_str(), "abc");
}

#[test]
fn reserve_exact_grows_capacity() {
    let mut s = SmallString::from_str("abc");
    s.reserve_exact(50);
    assert!(s.capacity() >= 53);
    assert_eq!(s.as_str(), "abc");
}

#[test]
fn shrink_reclaims_inline_storage() {
    let mut s = SmallString::from_str("a string long enough to spill");
    assert!(s.spilled());
    s.truncate(4);
    assert!(s.spilled());
    s.shrink_to_fit();
    assert!(!s.spilled());
    assert_eq!(s.capacity(), INLINE_CAPACITY);
    assert_eq!(s.as_str(), "a st");
}

#[test]
fn shrink_after_clear_reclaims_inline_storage() {
    let mut s = SmallString::from_str("another string that spills");
    s.clear();
    assert!(s.spilled());
    s.shrink_to_fit();
    assert!(!s.spilled());
    assert_eq!(s.as_str(), "");
}

#[test]
fn shrink_keeps_long_text_spilled() {
    let mut s = SmallString::with_capacity(64);
    s.push_str("longer than inline");
    s.shrink_to_fit();
    assert!(s.spilled());
    assert_eq!(s.capacity(), "longer than inline".len());
    assert_eq!(s.as_str(), "longer than inline");
}

#[test]
fn round_trip_borrowed_to_owned() {
    for t in ["", "a", "Hello", "\u{e9}\u{e0}\u{e7}", "\u{4e16}\u{754c} \u{1f600}", "exactly8"] {
        let s = SmallString::from_str(t);
        assert_eq!(s.into_string(), t);
    }
}

#[test]
fn from_string_keeps_text() {
    let owned = String::from("an owned string value");
    let s = SmallString::from_string(owned);
    assert_eq!(s.as_str(), "an owned string value");

    let short = SmallString::from_string(String::from("hi"));
    assert_eq!(short.as_str(), "hi");
}

#[test]
fn equality_ignores_storage_mode() {
    let inline = SmallString::from_str("hi");
    let mut spilled = SmallString::from_str("hi plus much more text");
    spilled.truncate(2);
    assert!(!inline.spilled());
    assert!(spilled.spilled());
    assert!(inline == spilled);
    assert!(!(inline != spilled));
}

#[test]
fn ordering_is_lexicographic() {
    let a = SmallString::from_str("abc");
    let b = SmallString::from_str("abd");
    let c = SmallString::from_str("ab");
    assert!(a < b);
    assert!(c < a);
    assert_eq!(a.partial_cmp(&a), Some(std::cmp::Ordering::Equal));
    assert_eq!(b.partial_cmp(&a), Some(std::cmp::Ordering::Greater));
}

#[test]
fn clone_copies_text() {
    let s = SmallString::from_str("clone me");
    let t = s.clone();
    assert!(s == t);
    assert_eq!(t.as_str(), "clone me");
}

#[test]
fn extend_from_chars() {
    let mut s = SmallString::from_str("ab");
    let chars: Vec<char> = vec!['c', '\u{e9}', 'd'];
    s.extend_chars(&chars);
    assert_eq!(s.as_str(), "abc\u{e9}d");

    let built = SmallString::from_chars(&chars);
    assert_eq!(built.as_str(), "c\u{e9}d");
}

#[test]
fn extend_from_slices() {
    let mut s = SmallString::from_str("x");
    let parts: Vec<&str> = vec!["yy", "", "zzz"];
    s.extend_strs(&parts);
    assert_eq!(s.as_str(), "xyyzzz");

    let built = SmallString::from_strs(&parts);
    assert_eq!(built.as_str(), "yyzzz");
}
