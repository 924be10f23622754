use dyon::ast::CompareOp;
use dyon::number::{compare_numbers, index_of, no_number, number_from_count};

#[test]
fn counts_become_numbers() {
    assert_eq!(number_from_count(0), 0.0f64.to_bits());
    assert_eq!(number_from_count(1), 1.0f64.to_bits());
    assert_eq!(number_from_count(3), 3.0f64.to_bits());
    assert_eq!(number_from_count(1 << 52), ((1u64 << 52) as f64).to_bits());
    assert_eq!(number_from_count((1 << 53) + 1), (((1u64 << 53) + 1) as f64).to_bits());
    assert_eq!(number_from_count((1 << 53) + 3), (((1u64 << 53) + 3) as f64).to_bits());
    assert_eq!(number_from_count(u64::MAX), (u64::MAX as f64).to_bits());
    assert_eq!(number_from_count(u64::MAX - 1024), ((u64::MAX - 1024) as f64).to_bits());
    assert_eq!(number_from_count(123_456_789_012_345_678), (123_456_789_012_345_678u64 as f64).to_bits());
}

#[test]
fn numbers_become_indices() {
    assert_eq!(index_of(0.0f64.to_bits()), 0);
    assert_eq!(index_of(0.99f64.to_bits()), 0);
    assert_eq!(index_of(1.0f64.to_bits()), 1);
    assert_eq!(index_of(2.75f64.to_bits()), 2);
    assert_eq!(index_of((-3.5f64).to_bits()), 0);
    assert_eq!(index_of(f64::NAN.to_bits()), 0);
    assert_eq!(index_of(f64::INFINITY.to_bits()), u64::MAX);
    assert_eq!(index_of(1e30f64.to_bits()), u64::MAX);
    assert_eq!(index_of(1e15f64.to_bits()), 1_000_000_000_000_000);
    assert_eq!(index_of(1.8e19f64.to_bits()), 1.8e19f64 as u64);
    assert_eq!(index_of(5e-324f64.to_bits()), 0);
}

#[test]
fn numbers_compare_as_floats_do() {
    let samples = [0.0f64, -0.0, 1.0, -1.0, 2.5, -2.5, f64::INFINITY, f64::NEG_INFINITY, f64::NAN, 5e-324, -5e-324];
    for a in samples {
        for b in samples {
            let (x, y) = (a.to_bits(), b.to_bits());
            assert_eq!(compare_numbers(CompareOp::Less, x, y), a < b);
            assert_eq!(compare_numbers(CompareOp::LessOrEqual, x, y), a <= b);
            assert_eq!(compare_numbers(CompareOp::Greater, x, y), a > b);
            assert_eq!(compare_numbers(CompareOp::GreaterOrEqual, x, y), a >= b);
            assert_eq!(compare_numbers(CompareOp::Equal, x, y), a == b);
            assert_eq!(compare_numbers(CompareOp::NotEqual, x, y), a != b);
        }
        assert_eq!(no_number(a.to_bits()), a.is_nan());
    }
}
