use funcfmt::Text;

#[test]
fn new_text_is_empty() {
    assert_eq!(Text::new().as_str(), "");
}

#[test]
fn text_from_str_holds_the_characters() {
    let short: Text = "foo".into();
    assert_eq!(short.as_str(), "foo");
    let long: Text = "一 text that is too long to be kept inline, 二".into();
    assert_eq!(long.as_str(), "一 text that is too long to be kept inline, 二");
}

#[test]
fn push_adds_at_the_end() {
    let mut text = Text::new();
    text.push('a');
    assert_eq!(text.as_str(), "a");
    text.push('一');
    text.push('}');
    assert_eq!(text.as_str(), "a一}");
    for _ in 0..40 {
        text.push('z');
    }
    assert_eq!(text.as_str(), format!("a一}}{}", "z".repeat(40)));
}

#[test]
fn clone_is_a_second_text() {
    let mut first: Text = "ab".into();
    let second = first.clone();
    assert_eq!(second.as_str(), "ab");
    first.push('c');
    assert_eq!(first.as_str(), "abc");
    assert_eq!(second.as_str(), "ab");
}

#[test]
fn texts_are_equal_when_their_characters_are() {
    let a: Text = "key".into();
    let mut b = Text::new();
    b.push('k');
    b.push('e');
    assert!(a != b);
    b.push('y');
    assert!(a == b);
    let c: Text = "kez".into();
    assert!(a != c);
    assert!(Text::new() == Text::from(""));
}
