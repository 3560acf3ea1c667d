use native_words::utils::text::{chars_of, push_decimal};

#[test]
fn chars_of_gives_the_characters_in_order() {
    assert_eq!(chars_of("кант, Kant"), vec!['к', 'а', 'н', 'т', ',', ' ', 'K', 'a', 'n', 't']);
    assert_eq!(chars_of(""), Vec::<char>::new());
}

#[test]
fn push_decimal_appends_the_number() {
    let mut text = "n=".to_string();
    push_decimal(&mut text, 0);
    assert_eq!(text, "n=0");
    push_decimal(&mut text, 7);
    assert_eq!(text, "n=07");
    push_decimal(&mut text, 10);
    assert_eq!(text, "n=0710");
    push_decimal(&mut text, 4096);
    assert_eq!(text, "n=07104096");
}

#[test]
fn push_decimal_writes_the_largest_number() {
    let mut text = String::new();
    push_decimal(&mut text, usize::MAX);
    assert_eq!(text, usize::MAX.to_string());
}
