use balatui::text::{eq_ignore_ascii_case, join, starts_with, text_less_or_equal, to_lowercase};

#[test]
fn text_order_follows_string_order() {
    let pairs = [("a", "b"), ("", "a"), ("ab", "a"), ("Zebra", "apple"), ("é", "z"), ("same", "same")];
    for (x, y) in pairs {
        let (x, y) = (x.to_string(), y.to_string());
        assert_eq!(text_less_or_equal(&x, &y), x <= y);
        assert_eq!(text_less_or_equal(&y, &x), y <= x);
    }
}

#[test]
fn ascii_case_is_ignored_only_for_ascii() {
    assert!(eq_ignore_ascii_case("Hello", "hELLO"));
    assert!(!eq_ignore_ascii_case("Hello", "Hell"));
    assert!(!eq_ignore_ascii_case("É", "é"));
}

#[test]
fn lowercase_follows_unicode() {
    assert_eq!(to_lowercase("NotNirep"), "notnirep");
    assert_eq!(to_lowercase("ÉCOLE"), "école");
}

#[test]
fn prefixes_are_checked() {
    assert!(starts_with("lovely-injector", "lovely"));
    assert!(!starts_with("love", "lovely"));
    assert!(starts_with("anything", ""));
}

#[test]
fn texts_are_joined_with_a_separator() {
    assert_eq!(join(&vec![], ", "), "");
    assert_eq!(join(&vec!["a".to_string()], ", "), "a");
    assert_eq!(join(&vec!["a".to_string(), "b".to_string(), "c".to_string()], ", "), "a, b, c");
}
