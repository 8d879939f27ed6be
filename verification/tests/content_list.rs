use bladeink_compiler::content_list::{Content, ContentList, Text};

fn texts(list: &ContentList) -> Vec<String> {
    list.content().iter().map(|c| match c {
        Content::Text(t) => t.text().to_string(),
    }).collect()
}

#[test]
fn content_list_trims_trailing_inline_whitespace() {
    let mut list = ContentList::new();
    list.push_text("hello \t");
    list.trim_trailing_whitespace();
    let text = match &list.content()[0] {
        Content::Text(text) => text.text(),
    };
    assert_eq!("hello", text);
}

#[test]
fn trailing_blank_texts_are_dropped() {
    let mut list = ContentList::new();
    list.push_text("a ");
    list.push_text(" b\t");
    list.push_text(" \t ");
    list.push_text("");
    list.trim_trailing_whitespace();
    assert_eq!(texts(&list), vec!["a ".to_string(), " b".to_string()]);
    list.trim_trailing_whitespace();
    assert_eq!(texts(&list), vec!["a ".to_string(), " b".to_string()]);
}

#[test]
fn text_trims_only_spaces_and_tabs() {
    let mut t = Text::new("x \n\t ");
    t.trim_end_inline_whitespace();
    assert_eq!(t.text(), "x \n");
    assert!(!t.is_empty());
    let mut list = ContentList::new();
    assert!(!list.dont_flatten());
    list.set_dont_flatten(true);
    assert!(list.dont_flatten());
}
