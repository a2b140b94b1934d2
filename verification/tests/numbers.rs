use koto::number::{
    number_eq, number_is_nan, number_partial_order, number_total_order, single_eq,
    single_partial_order, Order,
};

fn order(o: std::cmp::Ordering) -> Order {
    match o {
        std::cmp::Ordering::Less => Order::Less,
        std::cmp::Ordering::Equal => Order::Equal,
        std::cmp::Ordering::Greater => Order::Greater,
    }
}

fn samples() -> Vec<f64> {
    vec![
        0.0,
        -0.0,
        1.0,
        -1.0,
        1.5,
        -1.5,
        9.87654321,
        f64::MIN_POSITIVE,
        f64::MAX,
        f64::MIN,
        f64::INFINITY,
        f64::NEG_INFINITY,
        f64::NAN,
        -f64::NAN,
        5e-324,
        -5e-324,
    ]
}

#[test]
fn equality_agrees_with_the_machine() {
    for a in samples() {
        for b in samples() {
            assert_eq!(number_eq(a.to_bits(), b.to_bits()), a == b, "{a} == {b}");
        }
    }
}

#[test]
fn partial_order_agrees_with_the_machine() {
    for a in samples() {
        for b in samples() {
            assert_eq!(
                number_partial_order(a.to_bits(), b.to_bits()),
                a.partial_cmp(&b).map(order),
                "{a} ? {b}"
            );
        }
    }
}

#[test]
fn nan_is_greatest_and_equal_to_nan_in_the_total_order() {
    let nan = f64::NAN.to_bits();
    assert!(number_is_nan(nan));
    assert_eq!(number_total_order(nan, nan), Order::Equal);
    assert_eq!(number_total_order(nan, (-f64::NAN).to_bits()), Order::Equal);
    for x in samples() {
        if x.is_nan() {
            continue;
        }
        assert_eq!(number_total_order(nan, x.to_bits()), Order::Greater);
        assert_eq!(number_total_order(x.to_bits(), nan), Order::Less);
    }
    assert_eq!(number_total_order(1.0_f64.to_bits(), 2.0_f64.to_bits()), Order::Less);
    assert_eq!(number_total_order(0.0_f64.to_bits(), (-0.0_f64).to_bits()), Order::Equal);
    assert_eq!(
        number_total_order(f64::INFINITY.to_bits(), f64::MAX.to_bits()),
        Order::Greater
    );
}

#[test]
fn singles_agree_with_the_machine() {
    let samples = [0.0_f32, -0.0, 1.0, -2.5, f32::INFINITY, f32::NEG_INFINITY, f32::NAN, f32::MAX];
    for a in samples {
        for b in samples {
            assert_eq!(single_eq(a.to_bits(), b.to_bits()), a == b);
            assert_eq!(
                single_partial_order(a.to_bits(), b.to_bits()),
                a.partial_cmp(&b).map(order)
            );
        }
    }
}
