use rustgl::formatting::{is_word, push_chars, push_decimal, str_chars, text_of, text_with};

#[test]
fn decimal_digits_are_appended() {
    let mut s = String::from("Player");
    push_decimal(&mut s, 0);
    assert_eq!(s, "Player0");
    let mut t = String::new();
    push_decimal(&mut t, 1234567890);
    assert_eq!(t, "1234567890");
    let mut u = String::from("x");
    push_decimal(&mut u, u128::MAX);
    assert_eq!(u, format!("x{}", u128::MAX));
}

#[test]
fn characters_of_text() {
    assert_eq!(str_chars("héllo"), vec!['h', 'é', 'l', 'l', 'o']);
    assert_eq!(str_chars(""), Vec::<char>::new());
    let cs = vec!['a', 'b', 'c', 'd'];
    let mut out = String::from(">");
    push_chars(&mut out, &cs, 1, 3);
    assert_eq!(out, ">bc");
    assert_eq!(text_of(&cs), "abcd");
    assert_eq!(text_with("Invalid option: ", &vec!['f', 'o', 'o']), "Invalid option: foo");
}

#[test]
fn words_compare_exactly() {
    assert!(is_word(&vec!['s', 'u', 'b'], "sub"));
    assert!(!is_word(&vec!['s', 'u'], "sub"));
    assert!(!is_word(&vec!['s', 'u', 'b', 's'], "sub"));
    assert!(!is_word(&vec!['S', 'u', 'b'], "sub"));
    assert!(is_word(&vec![], ""));
}
