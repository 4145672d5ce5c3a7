use template_context::context;
use template_context::equality::{same_bytes, same_values};
use template_context::value::Value;

#[test]
fn scalars_keep_what_they_were_made_from() {
    assert_eq!(Value::from_bool(true).as_bool(), Some(true));
    assert_eq!(Value::from_bool(false).as_bool(), Some(false));
    assert_eq!(Value::from_i64(-5).as_i64(), Some(-5));
    assert_eq!(Value::from_i64(i64::MIN).as_i64(), Some(i64::MIN));
    assert_eq!(Value::from_str("héllo").as_str(), Some("héllo"));
    assert_eq!(Value::from_string(String::from("x")).as_str(), Some("x"));
    assert_eq!(Value::from_bytes(vec![1, 2, 255]).as_bytes(), Some(&vec![1u8, 2, 255]));
    assert_eq!(Value::from_callable(9).as_callable(), Some(9));
}

#[test]
fn real_numbers_go_by_their_bits() {
    let value = Value::from_real_bits(1.5f64.to_bits());
    assert_eq!(value.as_real_bits().map(f64::from_bits), Some(1.5));
    assert_eq!(value.as_i64(), None);
    assert_ne!(Value::from_real_bits(0.0f64.to_bits()), Value::from_real_bits((-0.0f64).to_bits()));
    assert_eq!(Value::from_real_bits(f64::NAN.to_bits()), Value::from_real_bits(f64::NAN.to_bits()));
}

#[test]
fn unsigned_that_fits_is_an_integer() {
    assert_eq!(Value::from_u64(0), Value::from_i64(0));
    assert_eq!(Value::from_u64(42).as_i64(), Some(42));
    assert_eq!(Value::from_u64(i64::MAX as u64).as_i64(), Some(i64::MAX));
}

#[test]
fn unsigned_that_does_not_fit_is_undefined() {
    assert!(Value::from_u64(i64::MAX as u64 + 1).is_undefined());
    assert!(Value::from_u64(u64::MAX).is_undefined());
}

#[test]
fn one_bad_field_leaves_the_others() {
    let mut ctx = context::make();
    context::add(&mut ctx, "good", Value::from_u64(1));
    context::add(&mut ctx, "bad", Value::from_u64(u64::MAX));
    context::add(&mut ctx, "also_good", Value::from_str("x"));
    let value = context::build(ctx);
    assert_eq!(value.keys().len(), 3);
    assert_eq!(value.get("good"), Some(Value::from_i64(1)));
    assert_eq!(value.get("bad"), Some(Value::Undefined));
    assert_eq!(value.get("also_good"), Some(Value::from_str("x")));
}

#[test]
fn accessors_refuse_other_kinds() {
    let text = Value::from_str("1");
    assert_eq!(text.as_bool(), None);
    assert_eq!(text.as_i64(), None);
    assert_eq!(text.as_real_bits(), None);
    assert_eq!(text.as_bytes(), None);
    assert_eq!(text.as_callable(), None);
    assert!(text.as_list().is_none());
    assert_eq!(Value::from_i64(1).as_str(), None);
    assert!(!text.is_undefined());
    assert!(!text.is_none());
    assert!(!text.is_mapping());
    assert!(!text.is_kwargs());
}

#[test]
fn undefined_and_none_are_told_apart() {
    assert!(Value::Undefined.is_undefined());
    assert!(!Value::Undefined.is_none());
    assert!(Value::Null.is_none());
    assert!(!Value::Null.is_undefined());
    assert_ne!(Value::Undefined, Value::Null);
    assert_eq!(Value::from_option(None), Value::Null);
    assert_eq!(Value::from_option(Some(Value::from_i64(1))), Value::from_i64(1));
}

#[test]
fn lists_hold_their_items_in_order() {
    let list = Value::from_list(vec![Value::from_i64(1), Value::from_str("two"), Value::Null]);
    let items = list.as_list().unwrap();
    assert_eq!(items.len(), 3);
    assert_eq!(items[0], Value::from_i64(1));
    assert_eq!(items[1], Value::from_str("two"));
    assert_eq!(items[2], Value::Null);
    assert!(list.keys().is_empty());
    assert_eq!(list.get("0"), None);
    assert!(list.items().is_empty());
}

#[test]
fn scalars_have_no_keys() {
    for value in [
        Value::Undefined,
        Value::Null,
        Value::from_bool(true),
        Value::from_i64(3),
        Value::from_real_bits(7),
        Value::from_str("key"),
        Value::from_bytes(vec![b'k']),
        Value::from_callable(1),
    ] {
        assert!(value.keys().is_empty());
        assert_eq!(value.get("key"), None);
        assert_eq!(value.get_key(&"key".to_string()), None);
    }
}

#[test]
fn equality_is_structural() {
    let a = Value::from_list(vec![Value::from_str("x"), Value::from_list(vec![Value::from_i64(1)])]);
    let b = Value::from_list(vec![Value::from_str("x"), Value::from_list(vec![Value::from_i64(1)])]);
    let c = Value::from_list(vec![Value::from_str("x"), Value::from_list(vec![Value::from_i64(2)])]);
    let d = Value::from_list(vec![Value::from_str("x")]);
    assert_eq!(a, b);
    assert!(a.same_as(&b));
    assert_ne!(a, c);
    assert_ne!(a, d);
    assert_ne!(d, a);
    assert_eq!(a, a.clone());
    assert_ne!(Value::from_i64(1), Value::from_bool(true));
    assert_ne!(Value::from_i64(1), Value::from_real_bits(1));
    assert_ne!(Value::from_str("1"), Value::from_bytes(vec![b'1']));
    assert_ne!(Value::from_callable(1), Value::from_callable(2));
    assert_eq!(Value::from_bytes(vec![1, 2]), Value::from_bytes(vec![1, 2]));
    assert_ne!(Value::from_bytes(vec![1, 2]), Value::from_bytes(vec![1, 3]));
}

#[test]
fn byte_and_value_sequences_compare_by_content() {
    assert!(same_bytes(&vec![], &vec![]));
    assert!(same_bytes(&vec![1, 2, 3], &vec![1, 2, 3]));
    assert!(!same_bytes(&vec![1, 2, 3], &vec![1, 2]));
    assert!(!same_bytes(&vec![1, 2, 3], &vec![1, 2, 4]));
    assert!(same_values(&vec![Value::Null], &vec![Value::Null]));
    assert!(!same_values(&vec![Value::Null], &vec![Value::Undefined]));
    assert!(!same_values(&vec![Value::Null], &vec![]));
}

#[test]
fn clone_shares_and_equals() {
    let mut ctx = context::make();
    context::add(&mut ctx, "k", Value::from_list(vec![Value::from_i64(1)]));
    let value = context::build(ctx);
    let copy = value.clone();
    assert_eq!(copy, value);
    match (&value, &copy) {
        (Value::Dict(a), Value::Dict(b)) => assert!(std::rc::Rc::ptr_eq(a, b)),
        _ => panic!("not a mapping"),
    }
}

#[test]
fn freeze_is_build() {
    let mut one = context::make();
    context::add(&mut one, "k", Value::from_i64(1));
    let mut two = context::make();
    context::add(&mut two, "k", Value::from_i64(1));
    assert_eq!(one.freeze(), context::build(two));
}

#[test]
fn pairs_become_a_mapping() {
    let value = Value::from_pairs(vec![
        ("b".to_string(), Value::from_i64(1)),
        ("a".to_string(), Value::from_i64(2)),
        ("b".to_string(), Value::from_i64(3)),
    ]);
    assert!(matches!(value, Value::Dict(_)));
    assert_eq!(value.keys(), vec!["b".to_string(), "a".to_string()]);
    assert_eq!(value.get("b"), Some(Value::from_i64(3)));
    assert_eq!(value.get("a"), Some(Value::from_i64(2)));
    assert_eq!(Value::from_pairs(Vec::new()), context::build(context::make()));
}

#[test]
fn nested_contexts_are_values_like_any_other() {
    let mut inner = context::make();
    context::add(&mut inner, "path", Value::from_str("/"));
    context::add(&mut inner, "title", Value::from_str("Index"));
    let mut outer = context::make();
    context::add(&mut outer, "nav", Value::from_list(vec![context::build(inner)]));
    let value = context::build(outer);
    let nav = value.get("nav").unwrap();
    let first = &nav.as_list().unwrap()[0];
    assert_eq!(first.get("title"), Some(Value::from_str("Index")));
    assert_eq!(first.keys(), vec!["path".to_string(), "title".to_string()]);
}
