use koto::geometry::{
    construct, make_module, rect, vec2, vec3, Argument, Constructor, Shape, WrongShape,
};
use koto::value::{has_distinct_keys, Value};

fn n(x: f64) -> Argument {
    Argument::Number(x.to_bits())
}

fn b(x: f64) -> u64 {
    x.to_bits()
}

#[test]
fn rect_takes_nothing_or_four_numbers() {
    assert_eq!(
        rect(&[]),
        Ok(Shape::Rect { x: b(0.0), y: b(0.0), width: b(0.0), height: b(0.0) })
    );
    assert_eq!(
        rect(&[n(1.0), n(2.0), n(3.0), n(4.0)]),
        Ok(Shape::Rect { x: b(1.0), y: b(2.0), width: b(3.0), height: b(4.0) })
    );
    let wrong = Err(WrongShape { constructor: Constructor::Rect });
    assert_eq!(rect(&[n(1.0)]), wrong);
    assert_eq!(rect(&[n(1.0), n(2.0), n(3.0), Argument::Other]), wrong);
    assert_eq!(rect(&[n(1.0), n(2.0), n(3.0), n(4.0), n(5.0)]), wrong);
}

#[test]
fn vec2_takes_up_to_two_numbers_or_a_vec2() {
    assert_eq!(vec2(&[]), Ok(Shape::Vec2 { x: b(0.0), y: b(0.0) }));
    assert_eq!(vec2(&[n(1.5)]), Ok(Shape::Vec2 { x: b(1.5), y: b(0.0) }));
    assert_eq!(vec2(&[n(1.5), n(-2.0)]), Ok(Shape::Vec2 { x: b(1.5), y: b(-2.0) }));
    assert_eq!(
        vec2(&[Argument::Vec2 { x: b(7.0), y: b(8.0) }]),
        Ok(Shape::Vec2 { x: b(7.0), y: b(8.0) })
    );
    let wrong = Err(WrongShape { constructor: Constructor::Vec2 });
    assert_eq!(vec2(&[Argument::Vec3 { x: 0, y: 0, z: 0 }]), wrong);
    assert_eq!(vec2(&[Argument::Vec2 { x: 0, y: 0 }, n(1.0)]), wrong);
    assert_eq!(vec2(&[n(1.0), n(2.0), n(3.0)]), wrong);
    assert_eq!(vec2(&[Argument::Other]), wrong);
}

#[test]
fn vec3_takes_numbers_a_vec2_or_a_vec3() {
    assert_eq!(vec3(&[]), Ok(Shape::Vec3 { x: b(0.0), y: b(0.0), z: b(0.0) }));
    assert_eq!(vec3(&[n(1.0)]), Ok(Shape::Vec3 { x: b(1.0), y: b(0.0), z: b(0.0) }));
    assert_eq!(vec3(&[n(1.0), n(2.0)]), Ok(Shape::Vec3 { x: b(1.0), y: b(2.0), z: b(0.0) }));
    assert_eq!(
        vec3(&[n(1.0), n(2.0), n(3.0)]),
        Ok(Shape::Vec3 { x: b(1.0), y: b(2.0), z: b(3.0) })
    );
    let xy = Argument::Vec2 { x: b(4.0), y: b(5.0) };
    assert_eq!(vec3(&[xy]), Ok(Shape::Vec3 { x: b(4.0), y: b(5.0), z: b(0.0) }));
    assert_eq!(vec3(&[xy, n(6.0)]), Ok(Shape::Vec3 { x: b(4.0), y: b(5.0), z: b(6.0) }));
    let xyz = Argument::Vec3 { x: b(7.0), y: b(8.0), z: b(9.0) };
    assert_eq!(vec3(&[xyz]), Ok(Shape::Vec3 { x: b(7.0), y: b(8.0), z: b(9.0) }));
    let wrong = Err(WrongShape { constructor: Constructor::Vec3 });
    assert_eq!(vec3(&[xyz, n(1.0)]), wrong);
    assert_eq!(vec3(&[n(1.0), xy]), wrong);
    assert_eq!(vec3(&[n(1.0), n(2.0), n(3.0), n(4.0)]), wrong);
    assert_eq!(vec3(&[Argument::Other]), wrong);
}

#[test]
fn constructors_are_called_by_kind() {
    assert_eq!(construct(Constructor::Rect, &[]), rect(&[]));
    assert_eq!(construct(Constructor::Vec2, &[n(1.0)]), vec2(&[n(1.0)]));
    assert_eq!(construct(Constructor::Vec3, &[n(1.0)]), vec3(&[n(1.0)]));
    assert_eq!(construct(Constructor::Vec2, &[Argument::Other]), vec2(&[Argument::Other]));
}

#[test]
fn the_fault_names_what_was_expected_and_what_was_given() {
    let wrong = WrongShape { constructor: Constructor::Rect };
    assert_eq!(
        wrong.message(&["Number".to_string(), "String".to_string()]),
        "Expected 4 Numbers, but found (Number, String)"
    );
    let wrong = WrongShape { constructor: Constructor::Vec2 };
    assert_eq!(wrong.message(&[]), "Expected up to 2 Numbers, but found ()");
    let wrong = WrongShape { constructor: Constructor::Vec3 };
    assert_eq!(
        wrong.message(&["List".to_string()]),
        "Expected up to 3 Numbers, a Vec2, or a Vec3, but found (List)"
    );
}

#[test]
fn the_module_has_the_three_constructors() {
    let module: Value<()> = make_module();
    let entries = match &module {
        Value::Mapping(entries) => entries.clone(),
        other => panic!("not a map: {:?}", other),
    };
    let names: Vec<&str> = entries.iter().map(|(name, _)| name.as_str()).collect();
    assert_eq!(names, vec!["rect", "vec2", "vec3"]);
    for (name, value) in entries.iter() {
        match value {
            Value::BuiltinFunction(f) => {
                assert!(!f.is_instance_function);
                let constructor = Constructor::from_identity(f.function).unwrap();
                assert_eq!(constructor.name(), name);
            }
            other => panic!("not a function: {:?}", other),
        }
    }
    assert!(has_distinct_keys(&module));
    assert_eq!(Constructor::from_identity(3), None);
    assert_eq!(Constructor::Rect.expected(), "4 Numbers");
}
