use elements_descriptor::text::{append_chars, chars_eq, find_char, from_chars, to_chars};

#[test]
fn strings_and_characters() {
    assert_eq!(to_chars("a\u{e9}\u{2764}"), vec!['a', '\u{e9}', '\u{2764}']);
    assert_eq!(from_chars(&['a', '\u{e9}', '\u{2764}']), "a\u{e9}\u{2764}");
    assert_eq!(to_chars(""), Vec::<char>::new());
    assert_eq!(from_chars(&[]), "");
}

#[test]
fn comparing_and_searching() {
    assert!(chars_eq(&['a', 'b'], &['a', 'b']));
    assert!(!chars_eq(&['a', 'b'], &['a', 'c']));
    assert!(!chars_eq(&['a', 'b'], &['a']));
    assert!(chars_eq(&[], &[]));
    assert_eq!(find_char(&['a', '#', 'b', '#'], '#'), Some(1));
    assert_eq!(find_char(&['a', 'b'], '#'), None);
    assert_eq!(find_char(&[], '#'), None);
}

#[test]
fn appending() {
    let mut v = vec!['a'];
    append_chars(&mut v, &['b', 'c']);
    assert_eq!(v, vec!['a', 'b', 'c']);
    append_chars(&mut v, &[]);
    assert_eq!(v, vec!['a', 'b', 'c']);
}
