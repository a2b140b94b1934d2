use std::rc::Rc;

use koto::equality::values_equal;
use koto::fault::ValueError;
use koto::mutation::{insert_entry, set_item};
use koto::number::Order;
use koto::ordering::{order_texts, partial_compare, total_compare};
use koto::render::{display, type_as_string, Glyph};
use koto::value::{
    copy_value, deref_value, make_reference, values_have_matching_type, BuiltinFunction,
    BuiltinValue, Foreign, Store, Value, Vec4,
};

#[derive(Clone, Debug, PartialEq)]
struct Tag {
    name: &'static str,
}

impl BuiltinValue for Tag {
    fn value_type(&self) -> String {
        "Tag".to_string()
    }

    fn display(&self) -> String {
        format!("#{}", self.name)
    }

    fn debug(&self) -> String {
        format!("{:?}", self)
    }
}

type V = Value<Tag>;

fn number(n: f64) -> V {
    Value::Number(n.to_bits())
}

fn text(s: &str) -> V {
    Value::Str(Rc::new(s.to_string()))
}

fn list(items: Vec<V>) -> V {
    Value::List(Rc::new(items))
}

fn map(entries: Vec<(&str, V)>) -> V {
    Value::Mapping(Rc::new(
        entries.into_iter().map(|(k, v)| (k.to_string(), v)).collect(),
    ))
}

fn vec4(x: f32, y: f32, z: f32, w: f32) -> V {
    Value::Vec4(Vec4 { x: x.to_bits(), y: y.to_bits(), z: z.to_bits(), w: w.to_bits() })
}

fn render(glyphs: &[Glyph<Tag>]) -> String {
    let mut out = String::new();
    for glyph in glyphs {
        match glyph {
            Glyph::Letter(c) => out.push(*c),
            Glyph::Number(bits) => out.push_str(&f64::from_bits(*bits).to_string()),
            Glyph::Single(bits) => out.push_str(&f32::from_bits(*bits).to_string()),
            Glyph::Identity(id) => out.push_str(&format!("{:#x}", id)),
            Glyph::MapIdentity(_) => out.push_str("<map>"),
            Glyph::Foreign(tag) => out.push_str(&tag.display()),
        }
    }
    out
}

fn show(store: &Store<Tag>, v: &V) -> String {
    render(&display(store, v))
}

fn items_of(v: &V) -> Vec<V> {
    match v {
        Value::List(items) => items.as_ref().clone(),
        other => panic!("not a list: {:?}", other),
    }
}

#[test]
fn values_that_support_equality_equal_themselves() {
    let store = Store::new();
    let samples = vec![
        Value::Empty,
        Value::Bool(true),
        number(1.5),
        vec4(1.0, 2.0, 3.0, 4.0),
        text("abc"),
        Value::Function(7),
        list(vec![number(1.0), text("x"), list(vec![Value::Empty])]),
        map(vec![("a", number(1.0)), ("b", text("x"))]),
    ];
    for v in &samples {
        assert!(values_equal(&store, v, v), "{:?}", v);
    }
    for (i, a) in samples.iter().enumerate() {
        for (j, b) in samples.iter().enumerate() {
            if i != j {
                assert!(!values_equal(&store, a, b), "{:?} == {:?}", a, b);
            }
        }
    }
}

#[test]
fn equality_is_by_contents_or_by_identity() {
    let store = Store::new();
    assert!(values_equal(&store, &number(0.0), &number(-0.0)));
    assert!(!values_equal(&store, &number(f64::NAN), &number(f64::NAN)));
    assert!(values_equal(&store, &text("ab"), &text("ab")));
    assert!(!values_equal(&store, &text("ab"), &text("ac")));
    assert!(values_equal(&store, &Value::Function(1), &Value::Function(1)));
    assert!(!values_equal(&store, &Value::Function(1), &Value::Function(2)));
    assert!(!values_equal(&store, &Value::Bool(true), &Value::Bool(false)));
    assert!(!values_equal(&store, &Value::Empty, &Value::Bool(false)));
    assert!(!values_equal(
        &store,
        &list(vec![number(1.0)]),
        &list(vec![number(1.0), number(2.0)])
    ));
    assert!(values_equal(
        &store,
        &map(vec![("a", number(1.0)), ("b", number(2.0))]),
        &map(vec![("b", number(2.0)), ("a", number(1.0))])
    ));
    assert!(!values_equal(
        &store,
        &map(vec![("a", number(1.0))]),
        &map(vec![("a", number(2.0))])
    ));
    assert!(!values_equal(
        &store,
        &map(vec![("a", number(1.0))]),
        &map(vec![("b", number(1.0))])
    ));
}

#[test]
fn kinds_without_equality_are_never_equal() {
    let store = Store::new();
    let range: V = Value::Range { start: 1, end: 2 };
    assert!(!values_equal(&store, &range, &range));
    let index_range: V = Value::IndexRange { start: 1, end: None };
    assert!(!values_equal(&store, &index_range, &index_range));
    let builtin: V = Value::BuiltinFunction(BuiltinFunction::new(3, false));
    assert!(!values_equal(&store, &builtin, &builtin));
    let foreign: V = Value::BuiltinValue(Foreign::new(Tag { name: "a" }));
    assert!(!values_equal(&store, &foreign, &foreign));
    let for_loop: V = Value::For(1);
    assert!(!values_equal(&store, &for_loop, &for_loop));
    let while_loop: V = Value::While(1);
    assert!(!values_equal(&store, &while_loop, &while_loop));
}

#[test]
fn a_share_equals_what_it_holds() {
    let mut store = Store::new();
    let v = list(vec![number(1.0), text("x")]);
    let (shared, made) = make_reference(&mut store, v.clone());
    assert!(made);
    assert!(values_equal(&store, &shared, &v));
    assert!(values_equal(&store, &v, &shared));
    assert!(values_equal(&store, &shared, &shared));
    let (other, _) = make_reference(&mut store, list(vec![number(1.0), text("x")]));
    assert!(values_equal(&store, &shared, &other));
    let (different, _) = make_reference(&mut store, number(2.0));
    assert!(!values_equal(&store, &shared, &different));
    assert!(values_equal(&store, &different, &number(2.0)));
}

#[test]
fn make_reference_reports_what_is_already_shared() {
    let mut store = Store::new();
    let (shared, made) = make_reference(&mut store, number(1.0));
    assert!(made);
    assert!(matches!(shared, Value::Share(0)));
    assert_eq!(store.len(), 1);
    let (again, made_again) = make_reference(&mut store, shared.clone());
    assert!(!made_again);
    assert!(matches!(again, Value::Share(0)));
    assert_eq!(store.len(), 1);
    let (second, _) = make_reference(&mut store, text("x"));
    assert!(matches!(second, Value::Share(1)));
}

#[test]
fn a_write_through_one_handle_is_seen_through_the_others() {
    let mut store = Store::new();
    let (first, _) = make_reference(&mut store, number(1.0));
    let second = first.duplicate();
    assert!(store.write(&first, text("changed")).is_ok());
    assert!(values_equal(&store, &deref_value(&store, &second), &text("changed")));
    assert!(values_equal(&store, &second, &text("changed")));
    assert!(values_equal(&store, &first, &second));
}

#[test]
fn writes_are_refused_where_they_cannot_be_made() {
    let mut store = Store::new();
    let (first, _) = make_reference(&mut store, number(1.0));
    let (second, _) = make_reference(&mut store, number(2.0));
    assert_eq!(store.write(&number(1.0), number(2.0)), Err(ValueError::NotShared));
    assert_eq!(store.write(&first, first.duplicate()), Err(ValueError::Cyclic));
    assert_eq!(
        store.write(&first, list(vec![number(0.0), first.duplicate()])),
        Err(ValueError::Cyclic)
    );
    assert_eq!(
        store.write(&first, map(vec![("me", first.duplicate())])),
        Err(ValueError::Cyclic)
    );
    assert!(values_equal(&store, &first, &number(1.0)));
    assert!(store.contains(&second));
    assert!(!store.contains(&Value::Share(2)));
    assert!(!store.contains(&list(vec![Value::Share(5)])));
}

#[test]
fn a_cell_may_hold_a_handle_of_any_cell_that_does_not_lead_back() {
    let mut store = Store::new();
    let (first, _) = make_reference(&mut store, number(1.0));
    let (second, _) = make_reference(&mut store, number(2.0));
    let (third, _) = make_reference(&mut store, list(vec![first.duplicate()]));
    assert_eq!(store.write(&first, second.duplicate()), Ok(()));
    assert!(values_equal(&store, &first, &number(2.0)));
    assert!(values_equal(&store, &third, &list(vec![number(2.0)])));
    assert_eq!(store.write(&second, first.duplicate()), Err(ValueError::Cyclic));
    assert_eq!(store.write(&second, third.duplicate()), Err(ValueError::Cyclic));
    assert_eq!(store.write(&second, list(vec![third.duplicate()])), Err(ValueError::Cyclic));
    assert!(values_equal(&store, &second, &number(2.0)));
    assert_eq!(store.write(&first, number(5.0)), Ok(()));
    assert_eq!(store.write(&second, third.duplicate()), Ok(()));
    assert!(values_equal(&store, &second, &list(vec![number(5.0)])));
    assert_eq!(store.write(&first, second.duplicate()), Err(ValueError::Cyclic));
    assert_eq!(type_as_string(&store, &second), "Share(List)");
    assert_eq!(show(&store, &second), "Share: [Share: 5]");
    assert_eq!(
        ValueError::Cyclic.message(),
        "value refers to the reference that is to hold it"
    );
}

#[test]
fn a_copy_and_its_source_change_apart() {
    let store = Store::new();
    let first = list(vec![number(1.0), number(2.0)]);
    let mut copy = copy_value(&store, &first);
    assert!(values_equal(&store, &copy, &first));
    set_item(&mut copy, 0, number(9.0)).unwrap();
    assert!(values_equal(&store, &first, &list(vec![number(1.0), number(2.0)])));
    assert!(values_equal(&store, &copy, &list(vec![number(9.0), number(2.0)])));

    let mut first = first;
    set_item(&mut first, 1, number(7.0)).unwrap();
    assert!(values_equal(&store, &first, &list(vec![number(1.0), number(7.0)])));
    assert!(values_equal(&store, &copy, &list(vec![number(9.0), number(2.0)])));

    let first_map = map(vec![("a", number(1.0))]);
    let mut copy_map = copy_value(&store, &first_map);
    insert_entry(&mut copy_map, "a", number(2.0)).unwrap();
    insert_entry(&mut copy_map, "b", number(3.0)).unwrap();
    assert!(values_equal(&store, &first_map, &map(vec![("a", number(1.0))])));
    assert!(values_equal(
        &store,
        &copy_map,
        &map(vec![("a", number(2.0)), ("b", number(3.0))])
    ));
}

#[test]
fn a_handle_that_is_changed_leaves_the_other_handles_alone() {
    let store = Store::new();
    let first = list(vec![number(1.0)]);
    let mut second = first.duplicate();
    match (&first, &second) {
        (Value::List(a), Value::List(b)) => assert!(Rc::ptr_eq(a, b)),
        _ => unreachable!(),
    }
    set_item(&mut second, 0, number(2.0)).unwrap();
    assert!(values_equal(&store, &first, &list(vec![number(1.0)])));
    assert!(values_equal(&store, &second, &list(vec![number(2.0)])));
}

#[test]
fn a_copy_shares_no_allocation_and_is_no_handle_of_the_cell() {
    let mut store = Store::new();
    let first = list(vec![number(1.0)]);
    let copy = copy_value(&store, &first);
    match (&first, &copy) {
        (Value::List(a), Value::List(b)) => assert!(!Rc::ptr_eq(a, b)),
        _ => unreachable!(),
    }
    let (shared, _) = make_reference(&mut store, first);
    let copy = copy_value(&store, &shared);
    assert!(matches!(copy, Value::List(_)));
    store.write(&shared, number(5.0)).unwrap();
    assert_eq!(items_of(&copy).len(), 1);
    assert!(values_equal(&store, &copy, &list(vec![number(1.0)])));
    assert!(matches!(deref_value(&store, &shared), Value::Number(_)));
    assert!(matches!(deref_value(&store, &number(1.0)), Value::Number(_)));
}

#[test]
fn mutators_refuse_what_they_cannot_change() {
    let mut v = list(vec![number(1.0)]);
    assert_eq!(set_item(&mut v, 1, number(2.0)), Err(ValueError::NoSuchItem));
    assert_eq!(items_of(&v).len(), 1);
    let mut n = number(1.0);
    assert_eq!(set_item(&mut n, 0, number(2.0)), Err(ValueError::NoSuchItem));
    assert!(matches!(n, Value::Number(_)));
    assert_eq!(insert_entry(&mut n, "a", number(2.0)), Err(ValueError::NotAMap));
    assert!(matches!(n, Value::Number(_)));
}

#[test]
fn types_match_through_a_share_on_either_side() {
    let mut store = Store::new();
    let (shared_number, _) = make_reference(&mut store, number(1.0));
    let (shared_text, _) = make_reference(&mut store, text("x"));
    assert!(values_have_matching_type(&store, &number(1.0), &number(2.0)));
    assert!(values_have_matching_type(&store, &shared_number, &number(2.0)));
    assert!(values_have_matching_type(&store, &number(2.0), &shared_number));
    assert!(values_have_matching_type(&store, &shared_text, &text("y")));
    assert!(!values_have_matching_type(&store, &shared_text, &shared_number));
    assert!(!values_have_matching_type(&store, &number(1.0), &text("1")));
    assert!(values_have_matching_type(
        &store,
        &Value::Range { start: 0, end: 1 },
        &Value::Range { start: 5, end: 9 }
    ));
    assert!(!values_have_matching_type(
        &store,
        &Value::Range { start: 0, end: 1 },
        &Value::IndexRange { start: 0, end: Some(1) }
    ));
}

#[test]
fn every_kind_has_its_name() {
    let mut store = Store::new();
    let (shared, _) = make_reference(&mut store, list(vec![]));
    let cases: Vec<(V, &str)> = vec![
        (Value::Empty, "Empty"),
        (Value::Bool(true), "Bool"),
        (number(1.0), "Number"),
        (vec4(0.0, 0.0, 0.0, 0.0), "Vec4"),
        (list(vec![]), "List"),
        (Value::Range { start: 0, end: 1 }, "Range"),
        (Value::IndexRange { start: 0, end: None }, "IndexRange"),
        (map(vec![]), "Map"),
        (text("x"), "String"),
        (shared, "Share(List)"),
        (Value::Function(1), "Function"),
        (Value::BuiltinFunction(BuiltinFunction::new(1, true)), "BuiltinFunction"),
        (Value::BuiltinValue(Foreign::new(Tag { name: "t" })), "Tag"),
        (Value::For(1), "For"),
        (Value::While(1), "While"),
    ];
    for (value, name) in cases {
        assert_eq!(type_as_string(&store, &value), name);
    }
}

#[test]
fn a_share_of_a_share_is_named_after_the_inner_contents() {
    let mut store = Store::new();
    let (inner, _) = make_reference(&mut store, number(1.0));
    let (outer, _) = make_reference(&mut store, text("placeholder"));
    store.write(&outer, inner.duplicate()).unwrap();
    assert_eq!(type_as_string(&store, &outer), "Share(Number)");
    assert_eq!(show(&store, &outer), "Share: 1");
}

#[test]
fn values_are_shown_by_kind() {
    let mut store = Store::new();
    assert_eq!(show(&store, &Value::Empty), "()");
    assert_eq!(show(&store, &Value::Bool(true)), "true");
    assert_eq!(show(&store, &Value::Bool(false)), "false");
    assert_eq!(show(&store, &number(1.5)), "1.5");
    assert_eq!(show(&store, &vec4(1.0, 2.5, 3.0, 4.0)), "(1, 2.5, 3, 4)");
    assert_eq!(show(&store, &text("héllo")), "héllo");
    assert_eq!(show(&store, &list(vec![])), "[]");
    assert_eq!(show(&store, &list(vec![number(1.0)])), "[1]");
    assert_eq!(
        show(&store, &list(vec![number(1.0), text("x"), list(vec![Value::Empty])])),
        "[1, x, [()]]"
    );
    assert_eq!(show(&store, &map(vec![])), "Map <map> { }");
    assert_eq!(show(&store, &map(vec![("a", number(1.0))])), "Map <map> { a }");
    assert_eq!(
        show(&store, &map(vec![("a", number(1.0)), ("b", number(2.0))])),
        "Map <map> { a, b }"
    );
    assert_eq!(show(&store, &Value::Range { start: -3, end: 12 }), "[-3..12]");
    assert_eq!(show(&store, &Value::IndexRange { start: 2, end: Some(5) }), "[2..5]");
    assert_eq!(show(&store, &Value::IndexRange { start: 2, end: None }), "[2..]");
    assert_eq!(show(&store, &Value::Function(255)), "Function: 0xff");
    assert_eq!(
        show(&store, &Value::BuiltinFunction(BuiltinFunction::new(16, false))),
        "Builtin function: 0x10"
    );
    assert_eq!(
        show(&store, &Value::BuiltinValue(Foreign::new(Tag { name: "t" }))),
        "#t"
    );
    assert_eq!(show(&store, &Value::For(1)), "For loop");
    assert_eq!(show(&store, &Value::While(1)), "While loop");
    let (shared, _) = make_reference(&mut store, list(vec![number(2.0)]));
    assert_eq!(show(&store, &shared), "Share: [2]");
}

#[test]
fn the_map_identity_is_that_of_its_allocation() {
    let store = Store::new();
    let v = map(vec![("k", Value::Empty)]);
    let glyphs = display(&store, &v);
    let found = glyphs.iter().find_map(|g| match g {
        Glyph::MapIdentity(entries) => Some(entries.clone()),
        _ => None,
    });
    match (&v, found) {
        (Value::Mapping(entries), Some(shown)) => assert!(Rc::ptr_eq(entries, &shown)),
        _ => panic!("no map identity"),
    }
}

#[test]
fn numbers_vectors_and_strings_have_an_order() {
    assert_eq!(partial_compare(&number(1.0), &number(2.0)), Ok(Some(Order::Less)));
    assert_eq!(partial_compare(&number(2.0), &number(2.0)), Ok(Some(Order::Equal)));
    assert_eq!(partial_compare(&number(3.0), &number(2.0)), Ok(Some(Order::Greater)));
    assert_eq!(partial_compare(&number(f64::NAN), &number(2.0)), Ok(None));
    assert_eq!(partial_compare(&text("abc"), &text("abd")), Ok(Some(Order::Less)));
    assert_eq!(partial_compare(&text("abc"), &text("ab")), Ok(Some(Order::Greater)));
    assert_eq!(partial_compare(&text(""), &text("")), Ok(Some(Order::Equal)));
    assert_eq!(
        partial_compare(&vec4(1.0, 2.0, 3.0, 4.0), &vec4(1.0, 2.0, 3.5, 0.0)),
        Ok(Some(Order::Less))
    );
    assert_eq!(
        partial_compare(&vec4(1.0, 2.0, 3.0, 4.0), &vec4(1.0, 2.0, 3.0, 4.0)),
        Ok(Some(Order::Equal))
    );
    assert_eq!(
        partial_compare(&vec4(1.0, f32::NAN, 3.0, 4.0), &vec4(1.0, 2.0, 3.0, 4.0)),
        Ok(None)
    );
    assert_eq!(
        partial_compare(&vec4(2.0, f32::NAN, 3.0, 4.0), &vec4(1.0, 2.0, 3.0, 4.0)),
        Ok(Some(Order::Greater))
    );
}

#[test]
fn the_total_order_puts_nan_last() {
    assert_eq!(total_compare(&number(f64::NAN), &number(f64::NAN)), Ok(Order::Equal));
    assert_eq!(total_compare(&number(f64::NAN), &number(f64::INFINITY)), Ok(Order::Greater));
    assert_eq!(total_compare(&number(-1.0), &number(f64::NAN)), Ok(Order::Less));
    assert_eq!(total_compare(&number(-1.0), &number(1.0)), Ok(Order::Less));
    assert_eq!(total_compare(&text("b"), &text("a")), Ok(Order::Greater));
}

#[test]
fn other_kinds_have_no_order() {
    let unsupported = Err(ValueError::UnsupportedComparison);
    assert_eq!(partial_compare(&number(1.0), &text("1")), unsupported);
    assert_eq!(partial_compare(&Value::<Tag>::Empty, &Value::Empty), unsupported);
    assert_eq!(partial_compare(&Value::<Tag>::Bool(true), &Value::Bool(false)), unsupported);
    assert_eq!(partial_compare(&list(vec![]), &list(vec![])), unsupported);
    assert_eq!(partial_compare(&Value::<Tag>::Share(0), &number(1.0)), unsupported);
    assert_eq!(total_compare(&number(1.0), &text("1")), Err(ValueError::UnsupportedComparison));
    assert_eq!(
        total_compare(&vec4(1.0, 2.0, 3.0, 4.0), &vec4(1.0, 2.0, 3.0, 4.0)),
        Err(ValueError::UnsupportedComparison)
    );
    assert_eq!(
        ValueError::UnsupportedComparison.message(),
        "comparison unsupported for these values"
    );
}

#[test]
fn texts_are_ordered_as_strings_are() {
    let samples = ["", "a", "ab", "b", "é", "z", "日本", "a\u{10000}", "a\u{ffff}"];
    for a in samples {
        for b in samples {
            let expected = match a.cmp(b) {
                std::cmp::Ordering::Less => Order::Less,
                std::cmp::Ordering::Equal => Order::Equal,
                std::cmp::Ordering::Greater => Order::Greater,
            };
            assert_eq!(order_texts(a, b), expected, "{a:?} ? {b:?}");
        }
    }
}

#[test]
fn a_bool_becomes_a_value() {
    let v: V = Value::from(true);
    assert!(matches!(v, Value::Bool(true)));
}

#[test]
fn equality_is_the_same_both_ways() {
    let mut store = Store::new();
    let (shared, _) = make_reference(&mut store, map(vec![("a", number(1.0)), ("b", text("x"))]));
    let samples = vec![
        Value::Empty,
        Value::Bool(true),
        number(1.0),
        number(f64::NAN),
        text("x"),
        list(vec![number(1.0), text("x")]),
        map(vec![("a", number(1.0)), ("b", text("x"))]),
        map(vec![("b", text("x")), ("a", number(1.0))]),
        map(vec![("a", number(1.0)), ("c", text("x"))]),
        map(vec![("a", number(1.0))]),
        shared,
        Value::Function(1),
        Value::Range { start: 0, end: 1 },
    ];
    for a in &samples {
        for b in &samples {
            assert_eq!(
                values_equal(&store, a, b),
                values_equal(&store, b, a),
                "{:?} and {:?}",
                a,
                b
            );
        }
    }
}

#[test]
fn a_map_with_a_key_twice_is_no_value_of_a_store() {
    let store: Store<Tag> = Store::new();
    let twice = map(vec![("a", Value::Bool(true)), ("a", Value::Bool(true))]);
    assert!(!store.contains(&twice));
    assert!(!store.contains(&list(vec![twice.clone()])));
    assert!(!store.contains(&map(vec![("k", twice)])));
    assert!(store.contains(&map(vec![("a", Value::Bool(true)), ("b", Value::Bool(false))])));

    let mut grown = map(vec![("a", number(1.0))]);
    insert_entry(&mut grown, "b", number(2.0)).unwrap();
    insert_entry(&mut grown, "a", number(3.0)).unwrap();
    assert!(store.contains(&grown));
}
