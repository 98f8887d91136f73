use funcfmt::{FormatMap, FormatterCallback, Render, ToFormatPieces};
use std::sync::Arc;

fn constant(text: &'static str) -> FormatterCallback<String> {
    Arc::new(Box::new(move |_: &String| Some(text.to_owned())))
}

#[test]
fn new_registry_binds_nothing() {
    let map: FormatMap<String> = FormatMap::new();
    assert!(map.lookup("foo").is_none());
    assert!(map.lookup("").is_none());
    let other: FormatMap<String> = FormatMap::default();
    assert!(other.lookup("foo").is_none());
}

#[test]
fn lookup_finds_what_was_inserted() {
    let mut map: FormatMap<String> = FormatMap::new();
    let first = constant("1");
    let second = constant("2");
    assert!(map.insert("one".into(), first.clone()).is_none());
    assert!(map.insert("two".into(), second.clone()).is_none());
    assert!(Arc::ptr_eq(map.lookup("one").unwrap(), &first));
    assert!(Arc::ptr_eq(map.lookup("two").unwrap(), &second));
    assert!(map.lookup("three").is_none());
    assert!(map.lookup("on").is_none());
    assert!(map.lookup("onee").is_none());
    assert!(map.lookup("One").is_none());
}

#[test]
fn insert_overwrites_and_returns_the_previous_binding() {
    let mut map: FormatMap<String> = FormatMap::new();
    let old = constant("old");
    let new = constant("new");
    let other = constant("other");
    assert!(map.insert("key".into(), old.clone()).is_none());
    assert!(map.insert("other".into(), other.clone()).is_none());
    let previous = map.insert("key".into(), new.clone());
    assert!(Arc::ptr_eq(&previous.unwrap(), &old));
    assert!(Arc::ptr_eq(map.lookup("key").unwrap(), &new));
    assert!(Arc::ptr_eq(map.lookup("other").unwrap(), &other));
    let fp = map.to_format_pieces("{key}/{other}").unwrap();
    assert_eq!(fp.render(&String::new()), Ok("new/other".to_owned()));
}

#[test]
fn long_keys_are_told_apart() {
    let mut map: FormatMap<String> = FormatMap::new();
    let long_a = "a-key-that-does-not-fit-into-inline-storage-a";
    let long_b = "a-key-that-does-not-fit-into-inline-storage-b";
    map.insert(long_a.into(), constant("A"));
    map.insert(long_b.into(), constant("B"));
    let data = String::new();
    assert_eq!(map.lookup(long_a).unwrap().produce(&data), Some("A".to_owned()));
    assert_eq!(map.lookup(long_b).unwrap().produce(&data), Some("B".to_owned()));
    let fp = map.to_format_pieces(&format!("{{{long_b}}}{{{long_a}}}")).unwrap();
    assert_eq!(fp.render(&data), Ok("BA".to_owned()));
}

#[test]
fn key_with_braces_is_stored_but_cannot_be_named() {
    let mut map: FormatMap<String> = FormatMap::new();
    map.insert("a{b".into(), constant("x"));
    map.insert("a}b".into(), constant("y"));
    assert!(map.lookup("a{b").is_some());
    assert!(map.lookup("a}b").is_some());
    assert!(map.to_format_pieces("{a{b}").is_err());
    assert!(map.to_format_pieces("{a}b}").is_err());
    assert!(map.to_format_pieces("{a{{b}").is_err());
}

#[test]
fn registry_serves_many_templates() {
    let mut map: FormatMap<String> = FormatMap::new();
    map.insert("x".into(), constant("X"));
    let first = map.to_format_pieces("1{x}").unwrap();
    map.insert("y".into(), constant("Y"));
    let second = map.to_format_pieces("{y}2{x}").unwrap();
    map.insert("x".into(), constant("Z"));
    let third = map.to_format_pieces("{x}").unwrap();
    let data = String::new();
    assert_eq!(first.render(&data), Ok("1X".to_owned()));
    assert_eq!(second.render(&data), Ok("Y2X".to_owned()));
    assert_eq!(third.render(&data), Ok("Z".to_owned()));
}
