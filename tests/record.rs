use web_scraper::record::{copy_record, Record};

#[test]
fn insert_get_and_overwrite() {
    let mut r = Record::new();
    assert!(r.is_empty());
    r.insert("a".to_string(), "1".to_string());
    r.insert("b".to_string(), "2".to_string());
    r.insert("a".to_string(), "3".to_string());
    assert_eq!(r.len(), 2);
    assert_eq!(r.get("a").unwrap(), "3");
    assert_eq!(r.get("b").unwrap(), "2");
    assert_eq!(r.get("c"), None);
    assert!(r.contains_key("b"));
    assert!(!r.contains_key("B"));
}

#[test]
fn entries_and_copy() {
    let mut r = Record::new();
    r.insert("k".to_string(), "v".to_string());
    r.insert("x".to_string(), "y".to_string());
    let e = r.entries();
    assert_eq!(e, vec![("k".to_string(), "v".to_string()), ("x".to_string(), "y".to_string())]);
    let c = copy_record(&r);
    assert_eq!(c.entries(), e);
}
