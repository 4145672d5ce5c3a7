use template_context::args::{build_args, Arg, ArgsBuilder};
use template_context::value::Value;

fn positional(i: i64) -> Arg {
    Arg::Positional(Value::from_i64(i))
}

fn keyword(name: &str, i: i64) -> Arg {
    Arg::Keyword(name.to_string(), Value::from_i64(i))
}

#[test]
fn two_positional_and_one_keyword() {
    let args = build_args(vec![
        positional(1),
        positional(2),
        Arg::Keyword("foo".to_string(), Value::from_str("bar")),
    ]);
    assert_eq!(args.len(), 3);
    assert_eq!(args[0], Value::from_i64(1));
    assert_eq!(args[1], Value::from_i64(2));
    assert!(args[2].is_kwargs());
    assert_eq!(args[2].keys(), vec!["foo".to_string()]);
    assert_eq!(args[2].get("foo"), Some(Value::from_str("bar")));
}

#[test]
fn no_items_give_no_arguments() {
    assert!(build_args(Vec::new()).is_empty());
    assert!(ArgsBuilder::new().finish().is_empty());
}

#[test]
fn only_positional_items_give_no_bag() {
    let args = build_args(vec![positional(3), positional(1), positional(2)]);
    assert_eq!(args, vec![Value::from_i64(3), Value::from_i64(1), Value::from_i64(2)]);
    assert!(args.iter().all(|v| !v.is_kwargs()));
}

#[test]
fn only_keyword_items_give_just_the_bag() {
    let args = build_args(vec![keyword("a", 1), keyword("b", 2)]);
    assert_eq!(args.len(), 1);
    assert!(args[0].is_kwargs());
    assert_eq!(args[0].keys(), vec!["a".to_string(), "b".to_string()]);
}

#[test]
fn repeated_keyword_keeps_first_place_and_last_value() {
    let args = build_args(vec![keyword("a", 1), keyword("b", 2), keyword("a", 3)]);
    assert_eq!(args.len(), 1);
    let items = args[0].items();
    assert_eq!(
        items,
        vec![("a".to_string(), Value::from_i64(3)), ("b".to_string(), Value::from_i64(2))]
    );
}

#[test]
fn interleaved_items_give_the_same_list() {
    let mixed = build_args(vec![
        keyword("k", 1),
        positional(10),
        keyword("l", 2),
        positional(20),
        keyword("k", 3),
        positional(30),
    ]);
    let sorted = build_args(vec![
        positional(10),
        positional(20),
        positional(30),
        keyword("k", 1),
        keyword("l", 2),
        keyword("k", 3),
    ]);
    assert_eq!(mixed, sorted);
    assert_eq!(mixed.len(), 4);
    assert_eq!(mixed[0], Value::from_i64(10));
    assert_eq!(mixed[1], Value::from_i64(20));
    assert_eq!(mixed[2], Value::from_i64(30));
    assert_eq!(mixed[3].get("k"), Some(Value::from_i64(3)));
    assert_eq!(mixed[3].get("l"), Some(Value::from_i64(2)));
    assert_eq!(mixed[3].keys(), vec!["k".to_string(), "l".to_string()]);
}

#[test]
fn a_bag_passed_by_position_stays_where_it_is() {
    let bag = build_args(vec![keyword("a", 1)]).pop().unwrap();
    let args = build_args(vec![Arg::Positional(bag.clone()), positional(2)]);
    assert_eq!(args.len(), 2);
    assert_eq!(args[0], bag);
    assert_eq!(args[1], Value::from_i64(2));
}

#[test]
fn builder_collects_step_by_step() {
    let mut builder = ArgsBuilder::new();
    builder.kwarg("sep".to_string(), Value::from_str(", "));
    builder.arg(Value::from_bool(true));
    builder.arg(Value::Null);
    builder.kwarg("sep".to_string(), Value::from_str("; "));
    let args = builder.finish();
    assert_eq!(args.len(), 3);
    assert_eq!(args[0], Value::from_bool(true));
    assert_eq!(args[1], Value::Null);
    assert_eq!(args[2].get("sep"), Some(Value::from_str("; ")));
    assert_eq!(args[2].keys().len(), 1);
}

#[test]
fn a_bag_is_not_a_plain_mapping() {
    let bag = build_args(vec![keyword("a", 1)]).pop().unwrap();
    let mut map = template_context::context::make();
    template_context::context::add(&mut map, "a", Value::from_i64(1));
    let dict = template_context::context::build(map);
    assert_ne!(bag, dict);
    assert_eq!(bag.get("a"), dict.get("a"));
}
