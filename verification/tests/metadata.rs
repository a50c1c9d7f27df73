use novel_lang::metadata::Metadata;
use novel_lang::types::{RichText, RichTextPart, Value};

fn value(s: &str) -> Value {
    Value::RichText(RichText(vec![RichTextPart::Text(s.to_string())]))
}

#[test]
fn new_metadata_is_empty() {
    let meta = Metadata::new();
    assert_eq!(meta.len(), 0);
    assert_eq!(meta.get("a"), None);
    assert_eq!(meta.get(""), None);
}

#[test]
fn insert_then_get() {
    let mut meta = Metadata::new();
    meta.insert("a".to_string(), value("1"));
    meta.insert("b".to_string(), value("2"));
    meta.insert("".to_string(), value("3"));
    assert_eq!(meta.len(), 3);
    assert_eq!(meta.get("a"), Some(&value("1")));
    assert_eq!(meta.get("b"), Some(&value("2")));
    assert_eq!(meta.get(""), Some(&value("3")));
    assert_eq!(meta.get("A"), None);
    assert_eq!(meta.get("ab"), None);
}

#[test]
fn insert_replaces_the_value_of_a_key() {
    let mut meta = Metadata::new();
    meta.insert("a".to_string(), value("1"));
    meta.insert("b".to_string(), value("2"));
    meta.insert("a".to_string(), value("3"));
    assert_eq!(meta.len(), 2);
    assert_eq!(meta.get("a"), Some(&value("3")));
    assert_eq!(meta.get("b"), Some(&value("2")));
}

#[test]
fn order_of_insertion_does_not_matter() {
    let mut first = Metadata::new();
    first.insert("a".to_string(), value("1"));
    first.insert("b".to_string(), value("2"));
    let mut second = Metadata::new();
    second.insert("b".to_string(), value("0"));
    second.insert("a".to_string(), value("1"));
    assert_ne!(first, second);
    second.insert("b".to_string(), value("2"));
    assert_eq!(first, second);
    assert_eq!(second, first);
}

#[test]
fn metadata_differ_by_keys_and_values() {
    let mut first = Metadata::new();
    first.insert("a".to_string(), value("1"));
    let mut second = first.clone();
    assert_eq!(first, second);
    second.insert("b".to_string(), value("2"));
    assert_ne!(first, second);
    assert_ne!(second, first);
    assert_ne!(first, Metadata::new());
    let mut third = Metadata::new();
    third.insert("a".to_string(), value("2"));
    assert_ne!(first, third);
    let mut fourth = Metadata::new();
    fourth.insert("c".to_string(), value("1"));
    assert_ne!(first, fourth);
}

#[test]
fn a_clone_holds_the_same_entries() {
    let mut meta = Metadata::new();
    meta.insert("a".to_string(), value("1"));
    meta.insert("b".to_string(), Value::List(vec![value("2"), value("3")]));
    let copy = meta.clone();
    assert_eq!(copy.len(), 2);
    assert_eq!(copy.get("a"), Some(&value("1")));
    assert_eq!(copy.get("b"), Some(&Value::List(vec![value("2"), value("3")])));
    meta.insert("a".to_string(), value("9"));
    assert_eq!(copy.get("a"), Some(&value("1")));
}

#[test]
fn keys_are_listed_once_each() {
    let mut meta = Metadata::new();
    assert!(meta.keys().is_empty());
    meta.insert("b".to_string(), value("1"));
    meta.insert("a".to_string(), value("2"));
    meta.insert("b".to_string(), value("3"));
    meta.insert("c".to_string(), value("4"));
    let mut keys = meta.keys();
    keys.sort();
    assert_eq!(keys, vec!["a", "b", "c"]);
}
