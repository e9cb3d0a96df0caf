use smallstring::SmallString;

#[test]
pub fn basic_construction() {
    let s = SmallString::default();
    assert_eq!(s.as_str(), "");

    let s: SmallString = SmallString::from_str("Hello");
    assert_eq!(s.as_str(), "Hello");

    let s = SmallString::from_str("Hello");
    assert_eq!(s.as_str(), "Hello");
}

#[test]
pub fn can_be_sorted() {
    let mut unsorted_strings: Vec<SmallString> = (0..5)
        .rev()
        .map(|x: u32| SmallString::from_str(x.to_string().as_str()))
        .collect();

    // Sort as SmallString...
    unsorted_strings.sort_by(|a, b| a.partial_cmp(b).unwrap());

    // Map to Strings for easier comparison.
    let sorted_strings: Vec<String> = unsorted_strings
        .into_iter()
        .map(|x| x.into_string())
        .collect();

    assert_eq!(vec!["0", "1", "2", "3", "4"], sorted_strings);
}
