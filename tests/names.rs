use cbz_server::{should_expose, split_genres, split_name};

#[test]
fn test_split_name() {
    assert_eq!(split_name("123 Hello"), (123, " Hello"));
    assert_eq!(split_name("Hello"), (u32::MAX, "Hello"));
    assert_eq!(split_name("Hello 123"), (u32::MAX, "Hello 123"));
}

#[test]
fn split_name_all_digits() {
    assert_eq!(split_name("10"), (10, ""));
    assert_eq!(split_name("9a"), (9, "a"));
    assert_eq!(split_name(""), (u32::MAX, ""));
}

#[test]
fn split_name_too_large_for_u32() {
    assert_eq!(split_name("4294967295x"), (4294967295, "x"));
    assert_eq!(split_name("4294967296x"), (u32::MAX, "4294967296x"));
    assert_eq!(split_name("99999999999999999999"), (u32::MAX, "99999999999999999999"));
}

#[test]
fn split_genres_keeps_empty_parts() {
    assert_eq!(split_genres("Action,Drama"), vec!["Action".to_string(), "Drama".to_string()]);
    assert_eq!(split_genres("a, b,,c"), vec!["a".to_string(), " b".to_string(), "".to_string(), "c".to_string()]);
    assert_eq!(split_genres(""), vec!["".to_string()]);
    assert_eq!(split_genres(","), vec!["".to_string(), "".to_string()]);
}

#[test]
fn exposable_pages_end_in_jpg() {
    assert!(should_expose("p01.jpg"));
    assert!(should_expose("dir/p01.jpg"));
    assert!(!should_expose("p01.JPG"));
    assert!(!should_expose("ComicInfo.xml"));
    assert!(!should_expose("jpg"));
    assert!(should_expose(".jpg"));
}
