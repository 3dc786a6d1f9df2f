use rgx::text::{
    char_len_utf8, chars_of, decimal_string, delete_at_cursor, delete_before_cursor, insert_at_cursor, string_of,
};

#[test]
fn characters_and_numbers() {
    assert_eq!(chars_of("aé"), vec!['a', 'é']);
    assert_eq!(string_of(&['x', '€']), "x€");
    assert_eq!(decimal_string(0), "0");
    assert_eq!(decimal_string(1203), "1203");
    assert_eq!(char_len_utf8('a'), 1);
    assert_eq!(char_len_utf8('é'), 2);
    assert_eq!(char_len_utf8('€'), 3);
    assert_eq!(char_len_utf8('😀'), 4);
}

#[test]
fn editing_at_a_byte_cursor() {
    let mut s = String::from("aé");
    let next = insert_at_cursor(&mut s, 1, '€');
    assert_eq!(s, "a€é");
    assert_eq!(next, 4);
    let prev = delete_before_cursor(&mut s, 4);
    assert_eq!(s, "aé");
    assert_eq!(prev, 1);
    delete_at_cursor(&mut s, 1);
    assert_eq!(s, "a");
    let end = insert_at_cursor(&mut s, 1, 'z');
    assert_eq!((s.as_str(), end), ("az", 2));
}
