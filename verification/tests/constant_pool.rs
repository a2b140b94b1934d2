use std::collections::hash_map::DefaultHasher;
use std::hash::{Hash, Hasher};

use koto::constant_index::{ConstantIndex, ConstantIndexTryFromOutOfRange, MAX_CONSTANT_INDEX};
use koto::constant_pool::{Constant, ConstantPool, ConstantPoolBuilder};
use koto::render::{display_pool, Glyph};

fn hash_of(pool: &ConstantPool) -> u64 {
    let mut hasher = DefaultHasher::new();
    pool.hash(&mut hasher);
    hasher.finish()
}

fn floats_are_equal(a: f64, b: f64) -> bool {
    (a - b).abs() < f64::EPSILON
}

#[test]
fn test_adding_strings() {
    let mut builder = ConstantPoolBuilder::default();

    let s1 = "test";
    let s2 = "test2";

    assert_eq!(0, usize::from(builder.add_string(s1).unwrap()));
    assert_eq!(1, usize::from(builder.add_string(s2).unwrap()));

    // don't duplicate string_data
    assert_eq!(0, usize::from(builder.add_string(s1).unwrap()));
    assert_eq!(1, usize::from(builder.add_string(s2).unwrap()));

    let pool = builder.build();

    assert_eq!(s1, pool.get_str(ConstantIndex::from(0_u8)));
    assert_eq!(s2, pool.get_str(ConstantIndex::from(1_u8)));

    assert_eq!(2, pool.size());
}

#[test]
fn test_adding_numbers() {
    let mut builder = ConstantPoolBuilder::default();

    let n1 = 3;
    let n2: f64 = 9.87654321;

    assert_eq!(0, usize::from(builder.add_i64(n1).unwrap()));
    assert_eq!(1, usize::from(builder.add_f64(n2.to_bits()).unwrap()));

    // don't duplicate numbers
    assert_eq!(0, usize::from(builder.add_i64(n1).unwrap()));
    assert_eq!(1, usize::from(builder.add_f64(n2.to_bits()).unwrap()));

    let pool = builder.build();

    assert_eq!(n1, pool.get_i64(ConstantIndex::from(0_u8)));
    assert!(floats_are_equal(
        n2,
        f64::from_bits(pool.get_f64(ConstantIndex::from(1_u8)))
    ));

    assert_eq!(2, pool.size());
}

#[test]
fn test_adding_numbers_and_strings() {
    let mut builder = ConstantPoolBuilder::default();

    let n1: f64 = -1.1;
    let n2 = 99;
    let s1 = "O_o";
    let s2 = "^_^";

    assert_eq!(0, usize::from(builder.add_f64(n1.to_bits()).unwrap()));
    assert_eq!(1, usize::from(builder.add_string(s1).unwrap()));
    assert_eq!(2, usize::from(builder.add_i64(n2).unwrap()));
    assert_eq!(3, usize::from(builder.add_string(s2).unwrap()));

    let pool = builder.build();

    assert!(floats_are_equal(
        n1,
        f64::from_bits(pool.get_f64(ConstantIndex::from(0_u8)))
    ));
    assert_eq!(s1, pool.get_str(ConstantIndex::from(1_u8)));
    assert_eq!(n2, pool.get_i64(ConstantIndex::from(2_u8)));
    assert_eq!(s2, pool.get_str(ConstantIndex::from(3_u8)));

    assert_eq!(4, pool.size());
}

#[test]
fn test_iter() {
    let mut builder = ConstantPoolBuilder::default();

    let n1 = -1;
    let n2: f64 = 99.9;
    let s1 = "O_o";
    let s2 = "^_^";

    builder.add_i64(n1).unwrap();
    builder.add_string(s1).unwrap();
    builder.add_f64(n2.to_bits()).unwrap();
    builder.add_string(s2).unwrap();

    let pool = builder.build();

    let mut iter = pool.iter();
    assert_eq!(iter.next(), Some(Constant::I64(-1)));
    assert_eq!(iter.next(), Some(Constant::Str("O_o")));
    assert_eq!(iter.next(), Some(Constant::F64(99.9_f64.to_bits())));
    assert_eq!(iter.next(), Some(Constant::Str("^_^")));
    assert_eq!(iter.next(), None);
}

#[test]
fn equal_literals_make_equal_pools() {
    let mut a = ConstantPoolBuilder::new();
    let mut b = ConstantPoolBuilder::new();
    for builder in [&mut a, &mut b] {
        builder.add_string("x").unwrap();
        builder.add_i64(7).unwrap();
        builder.add_string("x").unwrap();
    }
    let mut c = ConstantPoolBuilder::new();
    c.add_string("x").unwrap();
    c.add_i64(8).unwrap();
    let a = a.build();
    let b = b.build();
    let c = c.build();
    assert!(a == b);
    assert!(a != c);
    assert!(ConstantPool::default() == ConstantPool::default());
}

#[test]
fn a_literal_added_twice_keeps_its_index() {
    let mut builder = ConstantPoolBuilder::new();
    let first = [
        builder.add_string("a").unwrap(),
        builder.add_f64(1.5_f64.to_bits()).unwrap(),
        builder.add_i64(-4).unwrap(),
        builder.add_string("").unwrap(),
    ];
    let second = [
        builder.add_string("a").unwrap(),
        builder.add_f64(1.5_f64.to_bits()).unwrap(),
        builder.add_i64(-4).unwrap(),
        builder.add_string("").unwrap(),
    ];
    assert_eq!(first, second);
    let places: Vec<usize> = first.iter().map(|i| usize::from(*i)).collect();
    assert_eq!(places, vec![0, 1, 2, 3]);
    assert_eq!(builder.size(), 4);
    assert_eq!(builder.build().size(), 4);
}

#[test]
fn doubles_are_told_apart_by_their_bits() {
    let mut builder = ConstantPoolBuilder::new();
    assert_eq!(0, usize::from(builder.add_f64(0.0_f64.to_bits()).unwrap()));
    assert_eq!(1, usize::from(builder.add_f64((-0.0_f64).to_bits()).unwrap()));
    assert_eq!(2, usize::from(builder.add_f64(f64::NAN.to_bits()).unwrap()));
    assert_eq!(2, usize::from(builder.add_f64(f64::NAN.to_bits()).unwrap()));
    assert_eq!(3, usize::from(builder.add_i64(0).unwrap()));
    assert_eq!(4, usize::from(builder.add_string("0").unwrap()));
}

#[test]
fn indices_stay_after_build() {
    let mut builder = ConstantPoolBuilder::new();
    let a = builder.add_string("héllo").unwrap();
    let b = builder.add_i64(5).unwrap();
    let c = builder.add_string("wörld ✓").unwrap();
    assert_eq!(builder.get_str(a), "héllo");
    assert_eq!(builder.get_str(c), "wörld ✓");
    let pool = builder.build();
    assert_eq!(pool.get_str(a), "héllo");
    assert_eq!(pool.get_i64(b), 5);
    assert_eq!(pool.get_str(c), "wörld ✓");
    assert_eq!(pool.string_data(), "héllowörld ✓");
    assert_eq!(pool.get_str_bounds(a), 0..6);
    assert_eq!(pool.get_str_bounds(c), 6.."héllowörld ✓".len());
    assert_eq!(pool.get(0), Some(Constant::Str("héllo")));
    assert_eq!(pool.get(1), Some(Constant::I64(5)));
    assert_eq!(pool.get(3), None);
}

#[test]
fn strings_share_one_buffer_and_one_may_be_part_of_another() {
    let mut builder = ConstantPoolBuilder::new();
    assert_eq!(0, usize::from(builder.add_string("ab").unwrap()));
    assert_eq!(1, usize::from(builder.add_string("abab").unwrap()));
    assert_eq!(2, usize::from(builder.add_string("b").unwrap()));
    assert_eq!(0, usize::from(builder.add_string("ab").unwrap()));
    let pool = builder.build();
    assert_eq!(pool.string_data(), "abababb");
    assert_eq!(pool.size(), 3);
}

#[test]
fn one_differing_literal_makes_pools_unequal() {
    let mut a = ConstantPoolBuilder::new();
    let mut b = ConstantPoolBuilder::new();
    a.add_i64(1).unwrap();
    b.add_i64(1).unwrap();
    a.add_f64(2.0_f64.to_bits()).unwrap();
    b.add_f64(2.5_f64.to_bits()).unwrap();
    assert!(a.build() != b.build());
}

#[test]
fn an_index_is_three_bytes() {
    let index = ConstantIndex::from_usize(0x01_02_03).unwrap();
    assert_eq!(index.bytes(), [0x03, 0x02, 0x01]);
    assert_eq!(index.to_usize(), 0x01_02_03);
    assert_eq!(usize::from(index), 0x01_02_03);
    assert_eq!(ConstantIndex::from(7_u8), ConstantIndex::from_usize(7).unwrap());
    assert_eq!(
        ConstantIndex::from_usize(MAX_CONSTANT_INDEX).unwrap().to_usize(),
        MAX_CONSTANT_INDEX
    );
    assert_eq!(
        ConstantIndex::from_usize(MAX_CONSTANT_INDEX + 1),
        Err(ConstantIndexTryFromOutOfRange)
    );
}

#[test]
fn a_pool_is_listed_one_constant_to_a_line() {
    let mut builder = ConstantPoolBuilder::new();
    builder.add_i64(-7).unwrap();
    builder.add_string("text").unwrap();
    builder.add_f64(1.5_f64.to_bits()).unwrap();
    let pool = builder.build();
    let mut out = String::new();
    for glyph in display_pool::<()>(&pool) {
        match glyph {
            Glyph::Letter(c) => out.push(c),
            Glyph::Number(bits) => out.push_str(&f64::from_bits(bits).to_string()),
            other => panic!("unexpected {:?}", other),
        }
    }
    assert_eq!(out, "0\tInt\t-7\n1\tString\ttext\n2\tFloat\t1.5\n");
    assert!(display_pool::<()>(&ConstantPool::default()).is_empty());
}

#[test]
fn the_iterator_stays_at_the_end() {
    let mut builder = ConstantPoolBuilder::new();
    builder.add_i64(1).unwrap();
    let pool = builder.build();
    let mut iter = pool.iter();
    assert_eq!(iter.next(), Some(Constant::I64(1)));
    assert_eq!(iter.next(), None);
    assert_eq!(iter.next(), None);
}

#[test]
fn a_pool_is_hashed_by_its_hash() {
    let mut a = ConstantPoolBuilder::new();
    let mut b = ConstantPoolBuilder::new();
    let mut c = ConstantPoolBuilder::new();
    a.add_string("x").unwrap();
    b.add_string("x").unwrap();
    c.add_string("y").unwrap();
    let (a, b, c) = (a.build(), b.build(), c.build());
    assert_eq!(hash_of(&a), hash_of(&b));
    assert_ne!(hash_of(&a), hash_of(&c));
    assert_eq!(hash_of(&a.clone()), hash_of(&a));
}

#[test]
fn an_integer_and_a_double_of_the_same_bits_make_unequal_pools() {
    let mut a = ConstantPoolBuilder::default();
    a.add_i64(0).unwrap();
    let mut b = ConstantPoolBuilder::default();
    b.add_f64(0.0_f64.to_bits()).unwrap();
    assert!(a.build() != b.build());

    let mut a = ConstantPoolBuilder::default();
    a.add_i64(-1).unwrap();
    let mut b = ConstantPoolBuilder::default();
    b.add_f64(u64::MAX).unwrap();
    assert!(a.build() != b.build());
}

#[test]
fn strings_lie_end_to_end_in_the_order_they_were_first_added() {
    let mut b = ConstantPoolBuilder::default();
    b.add_string("test").unwrap();
    b.add_string("test2").unwrap();
    b.add_string("test").unwrap();
    b.add_string("test2").unwrap();
    let p = b.build();
    assert_eq!(p.get_str_bounds(ConstantIndex::from(0_u8)), 0..4);
    assert_eq!(p.get_str_bounds(ConstantIndex::from(1_u8)), 4..9);
    assert_eq!(p.string_data(), "testtest2");
}
