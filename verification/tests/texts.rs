use hwcli::text::{chars_of, append_text, has_prefix, same_text, string_of};

#[test]
fn chars_of_lists_the_characters() {
    assert_eq!(chars_of("a/é"), vec!['a', '/', 'é']);
    assert_eq!(chars_of(""), Vec::<char>::new());
}

#[test]
fn string_of_takes_a_range() {
    let chars = vec!['h', 'o', 't', 'w', 'i', 'n', 'g', 's'];
    assert_eq!(string_of(&chars, 0, 3), "hot");
    assert_eq!(string_of(&chars, 3, 8), "wings");
    assert_eq!(string_of(&chars, 4, 4), "");
}

#[test]
fn has_prefix_tests_the_beginning() {
    assert!(has_prefix("hotwings-abc", "hotwings-"));
    assert!(has_prefix("hotwings-", "hotwings-"));
    assert!(has_prefix("anything", ""));
    assert!(!has_prefix("hotwings", "hotwings-"));
    assert!(!has_prefix("xhotwings-abc", "hotwings-"));
    assert!(!has_prefix("", "h"));
}

#[test]
fn append_text_appends() {
    assert_eq!(append_text("tar czf ", "/tmp/a.tgz"), "tar czf /tmp/a.tgz");
    assert_eq!(append_text("", "x"), "x");
    assert_eq!(append_text("x", ""), "x");
    assert_eq!(append_text("é", "è"), "éè");
}

#[test]
fn same_text_compares_all_characters() {
    assert!(same_text("origin", "origin"));
    assert!(same_text("", ""));
    assert!(!same_text("origin", "origin2"));
    assert!(!same_text("origin", "Origin"));
    assert!(!same_text("a", ""));
}
