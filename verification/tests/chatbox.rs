use rustgl::client::chatbox::ChatHistory;

fn lines(v: &[&str]) -> Vec<String> {
    v.iter().map(|s| s.to_string()).collect()
}

#[test]
fn history_keeps_the_last_lines_printed() {
    let mut h = ChatHistory::new(2, 3);
    assert!(h.get_visible_history().is_empty());
    h.println_lines(lines(&["a"]));
    assert_eq!(h.get_visible_history(), lines(&["a"]));
    h.println_lines(lines(&["b", "c"]));
    assert_eq!(h.get_visible_history(), lines(&["b", "c"]));
    h.println_lines(lines(&["d"]));
    assert_eq!(h.get_visible_history(), lines(&["c", "d"]));
    // more lines at once than the history keeps: only the last of them stay
    h.println_lines(lines(&["e", "f", "g", "h"]));
    assert_eq!(h.get_visible_history(), lines(&["g", "h"]));
    h.println_lines(lines(&[]));
    assert_eq!(h.get_visible_history(), lines(&["g", "h"]));
}

#[test]
fn an_empty_history_keeps_nothing() {
    let mut h = ChatHistory::new(5, 0);
    h.println_lines(lines(&["a", "b"]));
    assert!(h.get_visible_history().is_empty());
    let mut shown_none = ChatHistory::new(0, 4);
    shown_none.println_lines(lines(&["a", "b"]));
    assert!(shown_none.get_visible_history().is_empty());
}

#[test]
fn the_typed_line_is_edited_at_its_end() {
    let mut h = ChatHistory::new(2, 3);
    assert_eq!(h.get_typing(), "");
    for c in "hello".chars() {
        h.add_typing(c);
    }
    assert_eq!(h.get_typing(), "hello");
    h.remove_typing(2);
    assert_eq!(h.get_typing(), "hel");
    h.remove_typing(-3);
    assert_eq!(h.get_typing(), "hel");
    h.remove_typing(10);
    assert_eq!(h.get_typing(), "");
    h.add_typing('x');
    h.set_typing_flicker(true);
    h.println_lines(vec!["a".to_string()]);
    assert_eq!(h.get_typing(), "x");
    h.erase_typing();
    assert_eq!(h.get_typing(), "");
    assert_eq!(h.get_visible_history(), vec!["a".to_string()]);
}
