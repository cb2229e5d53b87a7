use frona_server::metadata::apply_metadata_patch;
use serde_json::Value;

fn get<'a>(md: &'a [(String, Value)], key: &str) -> Option<&'a Value> {
    md.iter().find(|(k, _)| k == key).map(|(_, v)| v)
}

fn patch(entries: Vec<(&str, Value)>) -> Vec<(String, Option<Value>)> {
    entries
        .into_iter()
        .map(|(k, v)| (k.to_string(), if v.is_null() { None } else { Some(v) }))
        .collect()
}

#[test]
fn upserts_set_keys() {
    let mut md = vec![("a".to_string(), Value::from(1))];
    apply_metadata_patch(&mut md, patch(vec![("a", Value::from(2)), ("b", Value::from("hello"))]));
    assert_eq!(get(&md, "a"), Some(&Value::from(2)));
    assert_eq!(get(&md, "b"), Some(&Value::from("hello")));
}

#[test]
fn null_value_removes_key() {
    let mut md = vec![("a".to_string(), Value::from(1)), ("b".to_string(), Value::from(2))];
    apply_metadata_patch(&mut md, patch(vec![("a", Value::Null)]));
    assert!(get(&md, "a").is_none());
    assert_eq!(get(&md, "b"), Some(&Value::from(2)));
}

#[test]
fn unmentioned_keys_untouched() {
    let mut md = vec![("keep".to_string(), Value::from("me"))];
    apply_metadata_patch(&mut md, patch(vec![]));
    assert_eq!(get(&md, "keep"), Some(&Value::from("me")));
}

#[test]
fn empty_target_with_patch() {
    let mut md: Vec<(String, Value)> = Vec::new();
    apply_metadata_patch(&mut md, patch(vec![("ignored", Value::Null), ("new", Value::from(42))]));
    assert_eq!(get(&md, "new"), Some(&Value::from(42)));
    assert!(get(&md, "ignored").is_none());
    assert_eq!(md.len(), 1);
}
