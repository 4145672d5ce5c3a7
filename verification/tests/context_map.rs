use template_context::context;
use template_context::context_map::ContextMap;
use template_context::value::Value;

fn key_list(keys: &[&str]) -> Vec<String> {
    keys.iter().map(|k| k.to_string()).collect()
}

#[test]
fn context_enumerates_in_insertion_order() {
    let mut ctx = context::make();
    context::add(&mut ctx, "name", Value::from_str("Peter"));
    context::add(&mut ctx, "location", Value::from_str("World"));
    let value = context::build(ctx);
    let items = value.items();
    assert_eq!(items.len(), 2);
    assert_eq!(items[0].0, "name");
    assert_eq!(items[0].1, Value::from_str("Peter"));
    assert_eq!(items[1].0, "location");
    assert_eq!(items[1].1, Value::from_str("World"));
}

#[test]
fn empty_context_has_no_keys() {
    let value = context::build(context::make());
    assert!(value.is_mapping());
    assert!(value.keys().is_empty());
    assert!(value.items().is_empty());
    assert_eq!(value.get("anything"), None);
}

#[test]
fn reinserting_a_key_keeps_its_position() {
    let mut map = ContextMap::new();
    map.insert("a".to_string(), Value::from_i64(1));
    map.insert("b".to_string(), Value::from_i64(2));
    map.insert("c".to_string(), Value::from_i64(3));
    map.insert("a".to_string(), Value::from_i64(10));
    assert_eq!(map.len(), 3);
    assert_eq!(map.keys(), key_list(&["a", "b", "c"]));
    assert_eq!(map.get("a"), Some(&Value::from_i64(10)));
    assert_eq!(map.get("b"), Some(&Value::from_i64(2)));
    assert_eq!(map.get("c"), Some(&Value::from_i64(3)));
    assert_eq!(map.key_at(0), "a");
    assert_eq!(map.value_at(0), &Value::from_i64(10));
}

#[test]
fn reinserting_the_last_key_updates_in_place() {
    let mut map = ContextMap::new();
    map.insert("x".to_string(), Value::from_bool(true));
    map.insert("y".to_string(), Value::from_bool(true));
    map.insert("y".to_string(), Value::from_bool(false));
    assert_eq!(map.keys(), key_list(&["x", "y"]));
    assert_eq!(map.get("y"), Some(&Value::from_bool(false)));
}

#[test]
fn new_map_is_empty() {
    let map = ContextMap::new();
    assert!(map.is_empty());
    assert_eq!(map.len(), 0);
    assert!(map.keys().is_empty());
    assert_eq!(map.get("a"), None);
    assert!(!map.contains_key("a"));
    let other = ContextMap::default();
    assert!(other.is_empty());
    assert!(map.same_as(&other));
}

#[test]
fn contains_key_tells_present_from_absent() {
    let mut map = ContextMap::new();
    map.insert("present".to_string(), Value::Undefined);
    assert!(map.contains_key("present"));
    assert!(!map.contains_key("absent"));
    assert!(!map.contains_key("presen"));
    assert!(!map.contains_key(""));
    assert_eq!(map.get("present"), Some(&Value::Undefined));
}

#[test]
fn keys_are_compared_exactly() {
    let mut map = ContextMap::new();
    map.insert("Key".to_string(), Value::from_i64(1));
    map.insert("key".to_string(), Value::from_i64(2));
    map.insert("".to_string(), Value::from_i64(3));
    assert_eq!(map.len(), 3);
    assert_eq!(map.get("Key"), Some(&Value::from_i64(1)));
    assert_eq!(map.get("key"), Some(&Value::from_i64(2)));
    assert_eq!(map.get(""), Some(&Value::from_i64(3)));
}

#[test]
fn get_key_agrees_with_get() {
    let mut map = ContextMap::new();
    map.insert("a".to_string(), Value::from_i64(1));
    assert_eq!(map.get_key(&"a".to_string()), map.get("a"));
    assert_eq!(map.get_key(&"b".to_string()), None);
}

#[test]
fn frozen_map_reads_the_same_every_time() {
    let mut ctx = context::make();
    context::add(&mut ctx, "one", Value::from_i64(1));
    context::add(&mut ctx, "two", Value::from_i64(2));
    context::add(&mut ctx, "one", Value::from_i64(11));
    let value = context::build(ctx);
    let first = value.items();
    let second = value.items();
    assert_eq!(first, second);
    assert_eq!(value.keys(), value.keys());
    assert_eq!(value.keys(), key_list(&["one", "two"]));
    assert_eq!(first[0].1, Value::from_i64(11));
    let shared = value.clone();
    assert_eq!(shared.items(), first);
}

#[test]
fn maps_with_other_order_are_not_the_same() {
    let mut ab = ContextMap::new();
    ab.insert("a".to_string(), Value::from_i64(1));
    ab.insert("b".to_string(), Value::from_i64(2));
    let mut ba = ContextMap::new();
    ba.insert("b".to_string(), Value::from_i64(2));
    ba.insert("a".to_string(), Value::from_i64(1));
    let mut ab2 = ContextMap::new();
    ab2.insert("a".to_string(), Value::from_i64(1));
    ab2.insert("b".to_string(), Value::from_i64(2));
    assert!(ab.same_as(&ab2));
    assert!(!ab.same_as(&ba));
    let mut longer = ContextMap::new();
    longer.insert("a".to_string(), Value::from_i64(1));
    longer.insert("b".to_string(), Value::from_i64(2));
    longer.insert("c".to_string(), Value::from_i64(3));
    assert!(!ab.same_as(&longer));
    let mut other_value = ContextMap::new();
    other_value.insert("a".to_string(), Value::from_i64(1));
    other_value.insert("b".to_string(), Value::from_i64(3));
    assert!(!ab.same_as(&other_value));
}
