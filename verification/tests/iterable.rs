use taggu::decimal::Decimal;
use taggu::functions::op::operator::{UnaryConverter, UnaryPredicate};
use taggu::functions::operand::Operand;
use taggu::functions::util::iterable_like::IterableLike as IL;
use taggu::functions::util::number_like::NumberLike;
use taggu::functions::util::value_producer::ValueProducer as VP;
use taggu::functions::Error;
use taggu::metadata::types::{MetaKey, MetaVal};

/// The error that the test producers yield among their values.
const SENTINEL: Error = Error::InvalidOperand;

fn i(n: i64) -> MetaVal {
    MetaVal::Int(n)
}

fn d(mantissa: i64, scale: u32) -> MetaVal {
    MetaVal::Dec(Decimal::new(mantissa, scale))
}

fn d_raw(mantissa: i64, scale: u32) -> Decimal {
    Decimal::new(mantissa, scale)
}

fn b(x: bool) -> MetaVal {
    MetaVal::Bul(x)
}

fn s(x: &str) -> MetaVal {
    MetaVal::Str(String::from(x))
}

fn seq(v: Vec<MetaVal>) -> MetaVal {
    MetaVal::Sequence(v)
}

fn core_flat_sequence() -> Vec<MetaVal> {
    vec![s("string"), i(27), d(31415, 4), b(true), MetaVal::Nil]
}

fn sample_flat_mapping() -> MetaVal {
    MetaVal::Mapping(vec![
        (MetaKey::Str(String::from("key_a")), s("string")),
        (MetaKey::Str(String::from("key_b")), i(27)),
    ])
}

/// Seven values: the flat ones, a flat sequence of them, and a mapping.
fn core_nested_sequence() -> Vec<MetaVal> {
    let mut v = core_flat_sequence();
    v.push(seq(core_flat_sequence()));
    v.push(sample_flat_mapping());
    v
}

/// The integers from `-n` to `n`, with the halves between them when
/// `inner` is set, the halves beyond the ends when `outer` is set, and zero
/// only when `zero` is set; in a mixed order.
fn core_number_sequence(n: i64, outer: bool, inner: bool, zero: bool) -> Vec<MetaVal> {
    let mut v = vec![];
    for k in (-n..=n).rev() {
        if k != 0 || zero {
            v.push(i(k));
        }
        if inner && k > -n {
            v.insert(0, d(10 * k - 5, 1));
        }
    }
    if outer {
        v.push(d(-10 * n - 5, 1));
        v.insert(0, d(10 * n + 5, 1));
    }
    v
}

fn fixed(v: Vec<MetaVal>) -> IL {
    IL::from_producer(VP::fixed(v))
}

fn raw(v: Vec<Result<MetaVal, Error>>) -> IL {
    IL::from_producer(VP::raw(v))
}

fn seqs(v: Vec<MetaVal>) -> IL {
    IL::from_values(v)
}

fn oks(v: Vec<MetaVal>) -> Vec<Result<MetaVal, Error>> {
    v.into_iter().map(Ok).collect()
}

/// The items of an iterable result, as they are read.
fn items_of(r: Result<IL, Error>) -> Result<Vec<Result<MetaVal, Error>>, Error> {
    r.map(|il| il.into_items())
}

#[test]
fn test_collect() {
    let cases: Vec<(IL, Result<Vec<MetaVal>, Error>)> = vec![
        (seqs(vec![]), Ok(vec![])),
        (seqs(core_nested_sequence()), Ok(core_nested_sequence())),
        (fixed(vec![]), Ok(vec![])),
        (fixed(core_nested_sequence()), Ok(core_nested_sequence())),
        (raw(vec![Err(SENTINEL)]), Err(SENTINEL)),
        (raw(vec![Ok(b(true)), Ok(b(true)), Err(SENTINEL)]), Err(SENTINEL)),
    ];
    for (input, expected) in cases {
        assert_eq!(expected, input.collect());
    }
}

#[test]
fn test_count() {
    let cases: Vec<(IL, Result<usize, Error>)> = vec![
        (seqs(vec![]), Ok(0)),
        (seqs(core_nested_sequence()), Ok(7)),
        (fixed(vec![]), Ok(0)),
        (fixed(core_nested_sequence()), Ok(7)),
        (raw(vec![Err(SENTINEL)]), Err(SENTINEL)),
        (raw(vec![Ok(b(true)), Ok(b(true)), Err(SENTINEL)]), Err(SENTINEL)),
    ];
    for (input, expected) in cases {
        assert_eq!(expected, input.count());
    }
}

#[test]
fn test_first() {
    let cases: Vec<(IL, Result<MetaVal, Error>)> = vec![
        (seqs(vec![]), Err(Error::EmptySequence)),
        (seqs(core_nested_sequence()), Ok(core_nested_sequence().remove(0))),
        (fixed(vec![]), Err(Error::EmptyProducer)),
        (fixed(core_nested_sequence()), Ok(core_nested_sequence().remove(0))),
        (raw(vec![Err(SENTINEL), Ok(b(true)), Ok(b(false))]), Err(SENTINEL)),
        (raw(vec![Ok(b(true)), Ok(b(false)), Err(SENTINEL)]), Ok(b(true))),
    ];
    for (input, expected) in cases {
        assert_eq!(expected, input.first());
    }
}

#[test]
fn test_last() {
    let cases: Vec<(IL, Result<MetaVal, Error>)> = vec![
        (seqs(vec![]), Err(Error::EmptySequence)),
        (seqs(core_nested_sequence()), Ok(core_nested_sequence().pop().unwrap())),
        (fixed(vec![]), Err(Error::EmptyProducer)),
        (fixed(core_nested_sequence()), Ok(core_nested_sequence().pop().unwrap())),
        (raw(vec![Err(SENTINEL), Ok(b(true)), Ok(b(false))]), Err(SENTINEL)),
        (raw(vec![Ok(b(true)), Ok(b(false)), Err(SENTINEL)]), Err(SENTINEL)),
    ];
    for (input, expected) in cases {
        assert_eq!(expected, input.last());
    }
}

#[test]
fn test_min_in() {
    let cases: Vec<(IL, Result<NumberLike, Error>)> = vec![
        (seqs(vec![]), Err(Error::EmptySequence)),
        (seqs(core_number_sequence(2, false, true, false)), Ok(NumberLike::Integer(-2))),
        (seqs(core_number_sequence(2, true, true, false)), Ok(NumberLike::Decimal(d_raw(-25, 1)))),
        (seqs(vec![i(1)]), Ok(NumberLike::Integer(1))),
        (seqs(vec![i(1), b(true)]), Err(Error::NotNumeric)),
        (fixed(vec![]), Err(Error::EmptyProducer)),
        (fixed(core_number_sequence(2, false, true, false)), Ok(NumberLike::Integer(-2))),
        (fixed(core_number_sequence(2, true, true, false)), Ok(NumberLike::Decimal(d_raw(-25, 1)))),
        (raw(vec![Ok(i(1))]), Ok(NumberLike::Integer(1))),
        (raw(vec![Ok(i(1)), Ok(b(false))]), Err(Error::NotNumeric)),
        (raw(vec![Ok(i(1)), Err(SENTINEL)]), Err(SENTINEL)),
    ];
    for (input, expected) in cases {
        assert_eq!(expected, input.min_in());
    }
}

#[test]
fn test_max_in() {
    let cases: Vec<(IL, Result<NumberLike, Error>)> = vec![
        (seqs(vec![]), Err(Error::EmptySequence)),
        (seqs(core_number_sequence(2, false, true, false)), Ok(NumberLike::Integer(2))),
        (seqs(core_number_sequence(2, true, true, false)), Ok(NumberLike::Decimal(d_raw(25, 1)))),
        (seqs(vec![i(1)]), Ok(NumberLike::Integer(1))),
        (seqs(vec![i(1), b(true)]), Err(Error::NotNumeric)),
        (fixed(vec![]), Err(Error::EmptyProducer)),
        (fixed(core_number_sequence(2, false, true, false)), Ok(NumberLike::Integer(2))),
        (fixed(core_number_sequence(2, true, true, false)), Ok(NumberLike::Decimal(d_raw(25, 1)))),
        (raw(vec![Ok(i(1))]), Ok(NumberLike::Integer(1))),
        (raw(vec![Ok(i(1)), Ok(b(false))]), Err(Error::NotNumeric)),
        (raw(vec![Ok(i(1)), Err(SENTINEL)]), Err(SENTINEL)),
    ];
    for (input, expected) in cases {
        assert_eq!(expected, input.max_in());
    }
}

fn reversed(mut v: Vec<MetaVal>) -> Vec<MetaVal> {
    v.reverse();
    v
}

#[test]
fn test_rev() {
    let cases: Vec<(IL, Result<Vec<MetaVal>, Error>)> = vec![
        (seqs(vec![]), Ok(vec![])),
        (seqs(core_nested_sequence()), Ok(reversed(core_nested_sequence()))),
        (seqs(vec![i(1)]), Ok(vec![i(1)])),
        (fixed(vec![]), Ok(vec![])),
        (fixed(core_nested_sequence()), Ok(reversed(core_nested_sequence()))),
        (raw(vec![Ok(i(1))]), Ok(vec![i(1)])),
        (raw(vec![Ok(i(1)), Err(SENTINEL)]), Err(SENTINEL)),
    ];
    for (input, expected) in cases {
        assert_eq!(expected, input.rev());
    }
}

fn sorted_numbers() -> Vec<MetaVal> {
    vec![i(-2), d(-15, 1), i(-1), d(-5, 1), i(0), d(5, 1), i(1), d(15, 1), i(2)]
}

#[test]
fn test_sort() {
    let cases: Vec<(IL, Result<Vec<MetaVal>, Error>)> = vec![
        (seqs(vec![]), Ok(vec![])),
        (seqs(core_number_sequence(2, false, true, true)), Ok(sorted_numbers())),
        (seqs(vec![i(1)]), Ok(vec![i(1)])),
        (fixed(vec![]), Ok(vec![])),
        (fixed(core_number_sequence(2, false, true, true)), Ok(sorted_numbers())),
        (raw(vec![Ok(i(1))]), Ok(vec![i(1)])),
        (raw(vec![Ok(i(1)), Err(SENTINEL)]), Err(SENTINEL)),
    ];
    for (input, expected) in cases {
        assert_eq!(expected, input.sort());
    }
}

#[test]
fn sort_keeps_equal_numbers_in_their_order() {
    let input = seqs(vec![d(10, 1), i(1), d(5, 1), i(0)]);
    assert_eq!(Ok(vec![i(0), d(5, 1), d(10, 1), i(1)]), input.sort());
}

#[test]
fn test_sum() {
    let cases: Vec<(IL, Result<NumberLike, Error>)> = vec![
        (seqs(vec![]), Ok(NumberLike::Integer(0))),
        (seqs(core_number_sequence(2, false, true, true)), Ok(NumberLike::Decimal(d_raw(0, 0)))),
        (seqs(vec![i(-2), i(3), i(5), i(7)]), Ok(NumberLike::Integer(13))),
        (seqs(vec![i(-2), i(3), d(55, 1), i(7)]), Ok(NumberLike::Decimal(d_raw(135, 1)))),
        (seqs(vec![i(1)]), Ok(NumberLike::Integer(1))),
        (seqs(vec![i(1), b(true)]), Err(Error::NotNumeric)),
        (fixed(vec![]), Ok(NumberLike::Integer(0))),
        (fixed(core_number_sequence(2, false, true, true)), Ok(NumberLike::Decimal(d_raw(0, 0)))),
        (raw(vec![Ok(i(-2)), Ok(i(3)), Ok(i(5)), Ok(i(7))]), Ok(NumberLike::Integer(13))),
        (raw(vec![Ok(i(-2)), Ok(i(3)), Ok(d(55, 1)), Ok(i(7))]), Ok(NumberLike::Decimal(d_raw(135, 1)))),
        (raw(vec![Ok(i(1))]), Ok(NumberLike::Integer(1))),
        (raw(vec![Ok(i(1)), Ok(b(true))]), Err(Error::NotNumeric)),
        (raw(vec![Ok(i(1)), Err(SENTINEL)]), Err(SENTINEL)),
    ];
    for (input, expected) in cases {
        assert_eq!(expected, input.sum());
    }
}

#[test]
fn test_prod() {
    let cases: Vec<(IL, Result<NumberLike, Error>)> = vec![
        (seqs(vec![]), Ok(NumberLike::Integer(1))),
        (seqs(core_number_sequence(2, false, true, true)), Ok(NumberLike::Decimal(d_raw(0, 0)))),
        (seqs(core_number_sequence(2, false, true, false)), Ok(NumberLike::Decimal(d_raw(225, 2)))),
        (seqs(vec![i(-2), i(3), i(5), i(7)]), Ok(NumberLike::Integer(-210))),
        (seqs(vec![i(-2), i(3), d(55, 1), i(7)]), Ok(NumberLike::Decimal(d_raw(-231, 0)))),
        (seqs(vec![i(1)]), Ok(NumberLike::Integer(1))),
        (seqs(vec![i(1), b(true)]), Err(Error::NotNumeric)),
        (fixed(vec![]), Ok(NumberLike::Integer(1))),
        (fixed(core_number_sequence(2, false, true, true)), Ok(NumberLike::Decimal(d_raw(0, 0)))),
        (fixed(core_number_sequence(2, false, true, false)), Ok(NumberLike::Decimal(d_raw(225, 2)))),
        (raw(vec![Ok(i(-2)), Ok(i(3)), Ok(i(5)), Ok(i(7))]), Ok(NumberLike::Integer(-210))),
        (raw(vec![Ok(i(-2)), Ok(i(3)), Ok(d(55, 1)), Ok(i(7))]), Ok(NumberLike::Decimal(d_raw(-231, 0)))),
        (raw(vec![Ok(i(1))]), Ok(NumberLike::Integer(1))),
        (raw(vec![Ok(i(1)), Ok(b(true))]), Err(Error::NotNumeric)),
        (raw(vec![Ok(i(1)), Err(SENTINEL)]), Err(SENTINEL)),
    ];
    for (input, expected) in cases {
        assert_eq!(expected, input.prod());
    }
}

#[test]
fn sum_past_the_integer_range_overflows() {
    assert_eq!(Err(Error::Overflow), seqs(vec![i(i64::MAX), i(1)]).sum());
}

#[test]
fn test_all_equal() {
    let cases: Vec<(IL, Result<bool, Error>)> = vec![
        (seqs(vec![]), Ok(true)),
        (seqs(vec![i(1), i(1), i(1)]), Ok(true)),
        (seqs(vec![i(1), i(1), i(2)]), Ok(false)),
        (seqs(vec![i(1)]), Ok(true)),
        (seqs(vec![i(1), b(true)]), Ok(false)),
        (fixed(vec![]), Ok(true)),
        (raw(vec![Ok(i(1)), Ok(i(1)), Ok(i(1))]), Ok(true)),
        (raw(vec![Ok(i(1)), Ok(i(1)), Ok(i(2))]), Ok(false)),
        (raw(vec![Ok(i(1))]), Ok(true)),
        (raw(vec![Ok(i(1)), Ok(b(true))]), Ok(false)),
        (raw(vec![Ok(i(1)), Err(SENTINEL)]), Err(SENTINEL)),
    ];
    for (input, expected) in cases {
        assert_eq!(expected, input.all_equal());
    }
}

fn flattened_nested() -> Vec<MetaVal> {
    let mut v = core_flat_sequence();
    v.extend(core_flat_sequence());
    v.push(sample_flat_mapping());
    v
}

#[test]
fn test_flatten() {
    let cases: Vec<(IL, Result<Vec<Result<MetaVal, Error>>, Error>)> = vec![
        (seqs(vec![]), Ok(vec![])),
        (seqs(core_flat_sequence()), Ok(oks(core_flat_sequence()))),
        (seqs(core_nested_sequence()), Ok(oks(flattened_nested()))),
        (fixed(vec![]), Ok(vec![])),
        (fixed(core_flat_sequence()), Ok(oks(core_flat_sequence()))),
        (fixed(core_nested_sequence()), Ok(oks(flattened_nested()))),
        (raw(vec![Ok(i(1)), Err(SENTINEL)]), Ok(vec![Ok(i(1)), Err(SENTINEL)])),
    ];
    for (input, expected) in cases {
        assert_eq!(expected, items_of(input.flatten()));
    }
}

fn repeats() -> Vec<MetaVal> {
    vec![i(1), i(1), i(1), i(2), i(2), i(3), i(3), i(3), i(1)]
}

fn distinct() -> Vec<MetaVal> {
    vec![i(1), i(2), i(3), i(4), i(5)]
}

fn ones() -> Vec<MetaVal> {
    vec![i(1), i(1), i(1), i(1), i(1)]
}

#[test]
fn test_dedup() {
    let cases: Vec<(IL, Result<Vec<Result<MetaVal, Error>>, Error>)> = vec![
        (seqs(vec![]), Ok(vec![])),
        (seqs(core_flat_sequence()), Ok(oks(core_flat_sequence()))),
        (seqs(core_nested_sequence()), Ok(oks(core_nested_sequence()))),
        (seqs(repeats()), Ok(oks(vec![i(1), i(2), i(3), i(1)]))),
        (seqs(distinct()), Ok(oks(distinct()))),
        (seqs(ones()), Ok(oks(vec![i(1)]))),
        (fixed(vec![]), Ok(vec![])),
        (fixed(core_flat_sequence()), Ok(oks(core_flat_sequence()))),
        (fixed(core_nested_sequence()), Ok(oks(core_nested_sequence()))),
        (fixed(repeats()), Ok(oks(vec![i(1), i(2), i(3), i(1)]))),
        (fixed(distinct()), Ok(oks(distinct()))),
        (fixed(ones()), Ok(oks(vec![i(1)]))),
        (raw(vec![Ok(i(1)), Err(SENTINEL)]), Ok(vec![Ok(i(1)), Err(SENTINEL)])),
    ];
    for (input, expected) in cases {
        assert_eq!(expected, items_of(input.dedup()));
    }
}

#[test]
fn test_unique() {
    let mirrored = || vec![i(1), i(2), i(3), i(3), i(2), i(1)];
    let cases: Vec<(IL, Result<Vec<Result<MetaVal, Error>>, Error>)> = vec![
        (seqs(vec![]), Ok(vec![])),
        (seqs(core_flat_sequence()), Ok(oks(core_flat_sequence()))),
        (seqs(core_nested_sequence()), Ok(oks(core_nested_sequence()))),
        (seqs(repeats()), Ok(oks(vec![i(1), i(2), i(3)]))),
        (seqs(mirrored()), Ok(oks(vec![i(1), i(2), i(3)]))),
        (seqs(distinct()), Ok(oks(distinct()))),
        (seqs(ones()), Ok(oks(vec![i(1)]))),
        (fixed(vec![]), Ok(vec![])),
        (fixed(core_flat_sequence()), Ok(oks(core_flat_sequence()))),
        (fixed(core_nested_sequence()), Ok(oks(core_nested_sequence()))),
        (fixed(repeats()), Ok(oks(vec![i(1), i(2), i(3)]))),
        (fixed(mirrored()), Ok(oks(vec![i(1), i(2), i(3)]))),
        (fixed(distinct()), Ok(oks(distinct()))),
        (fixed(ones()), Ok(oks(vec![i(1)]))),
        (raw(vec![Ok(i(1)), Err(SENTINEL)]), Ok(vec![Ok(i(1)), Err(SENTINEL)])),
    ];
    for (input, expected) in cases {
        assert_eq!(expected, items_of(input.unique()));
    }
}

#[test]
fn iterable_like_test_nth() {
    let cases: Vec<(IL, usize, Result<MetaVal, Error>)> = vec![
        (seqs(vec![]), 0, Err(Error::OutOfBounds)),
        (seqs(core_flat_sequence()), 0, Ok(s("string"))),
        (seqs(core_flat_sequence()), 2, Ok(d(31415, 4))),
        (seqs(core_flat_sequence()), 5, Err(Error::OutOfBounds)),
        (fixed(core_flat_sequence()), 1, Ok(i(27))),
        (fixed(core_flat_sequence()), 100, Err(Error::OutOfBounds)),
        (raw(vec![Ok(i(1)), Err(SENTINEL), Ok(i(2))]), 0, Ok(i(1))),
        (raw(vec![Ok(i(1)), Err(SENTINEL), Ok(i(2))]), 1, Err(SENTINEL)),
        (raw(vec![Ok(i(1)), Err(SENTINEL), Ok(i(2))]), 2, Err(SENTINEL)),
    ];
    for (input, n, expected) in cases {
        assert_eq!(expected, input.nth(n));
    }
}

/// Sequences of which the first and the third have all elements equal.
fn sequences() -> Vec<MetaVal> {
    vec![seq(vec![i(1), i(1)]), seq(vec![i(1), i(2)]), seq(vec![]), seq(vec![b(true), b(true)])]
}

const ALL_EQUAL: UnaryPredicate = UnaryPredicate::AllEqual;

#[test]
fn iterable_like_test_all() {
    let cases: Vec<(IL, Result<bool, Error>)> = vec![
        (seqs(vec![]), Ok(true)),
        (seqs(sequences()), Ok(false)),
        (seqs(vec![seq(vec![]), seq(vec![i(3), i(3)])]), Ok(true)),
        (seqs(vec![seq(vec![]), i(3)]), Err(Error::NotSequence)),
        (seqs(vec![seq(vec![i(1), i(2)]), i(3)]), Ok(false)),
        (fixed(sequences()), Ok(false)),
        (raw(vec![Ok(seq(vec![])), Err(SENTINEL)]), Err(SENTINEL)),
    ];
    for (input, expected) in cases {
        assert_eq!(expected, input.all(ALL_EQUAL));
    }
}

#[test]
fn iterable_like_test_any() {
    let cases: Vec<(IL, Result<bool, Error>)> = vec![
        (seqs(vec![]), Ok(false)),
        (seqs(sequences()), Ok(true)),
        (seqs(vec![seq(vec![i(1), i(2)])]), Ok(false)),
        (seqs(vec![i(3), seq(vec![])]), Err(Error::NotSequence)),
        (seqs(vec![seq(vec![]), i(3)]), Ok(true)),
        (fixed(sequences()), Ok(true)),
        (raw(vec![Ok(seq(vec![i(1), i(2)])), Err(SENTINEL)]), Err(SENTINEL)),
    ];
    for (input, expected) in cases {
        assert_eq!(expected, input.any(ALL_EQUAL));
    }
}

#[test]
fn iterable_like_test_find() {
    let cases: Vec<(IL, Result<MetaVal, Error>)> = vec![
        (seqs(vec![]), Err(Error::ItemNotFound)),
        (seqs(vec![seq(vec![i(1), i(2)]), seq(vec![i(4), i(4)])]), Ok(seq(vec![i(4), i(4)]))),
        (seqs(vec![seq(vec![i(1), i(2)])]), Err(Error::ItemNotFound)),
        (seqs(vec![i(3), seq(vec![])]), Err(Error::NotSequence)),
        (fixed(sequences()), Ok(seq(vec![i(1), i(1)]))),
        (raw(vec![Err(SENTINEL), Ok(seq(vec![]))]), Err(SENTINEL)),
    ];
    for (input, expected) in cases {
        assert_eq!(expected, input.find(ALL_EQUAL));
    }
}

#[test]
fn iterable_like_test_position() {
    let cases: Vec<(IL, Result<usize, Error>)> = vec![
        (seqs(vec![]), Err(Error::ItemNotFound)),
        (seqs(vec![seq(vec![i(1), i(2)]), seq(vec![i(4), i(4)])]), Ok(1)),
        (seqs(vec![seq(vec![i(1), i(2)])]), Err(Error::ItemNotFound)),
        (seqs(vec![i(3), seq(vec![])]), Err(Error::NotSequence)),
        (fixed(sequences()), Ok(0)),
        (raw(vec![Ok(seq(vec![i(1), i(2)])), Err(SENTINEL)]), Err(SENTINEL)),
    ];
    for (input, expected) in cases {
        assert_eq!(expected, input.position(ALL_EQUAL));
    }
}

#[test]
fn iterable_like_test_filter() {
    let kept = || vec![seq(vec![i(1), i(1)]), seq(vec![]), seq(vec![b(true), b(true)])];
    let cases: Vec<(IL, Result<Vec<Result<MetaVal, Error>>, Error>)> = vec![
        (seqs(vec![]), Ok(vec![])),
        (seqs(sequences()), Ok(oks(kept()))),
        (seqs(vec![seq(vec![]), i(3)]), Err(Error::NotSequence)),
        (fixed(sequences()), Ok(oks(kept()))),
        (fixed(vec![seq(vec![]), i(3)]), Ok(vec![Ok(seq(vec![])), Err(Error::NotSequence)])),
        (raw(vec![Ok(seq(vec![i(1), i(2)])), Err(SENTINEL)]), Ok(vec![Err(SENTINEL)])),
    ];
    for (input, expected) in cases {
        assert_eq!(expected, items_of(input.filter(ALL_EQUAL)));
    }
}

#[test]
fn iterable_like_test_map() {
    let conv = UnaryConverter::Count;
    let cases: Vec<(IL, Result<Vec<Result<MetaVal, Error>>, Error>)> = vec![
        (seqs(vec![]), Ok(vec![])),
        (seqs(sequences()), Ok(oks(vec![i(2), i(2), i(0), i(2)]))),
        (seqs(vec![seq(vec![]), i(3)]), Err(Error::NotSequence)),
        (fixed(sequences()), Ok(oks(vec![i(2), i(2), i(0), i(2)]))),
        (fixed(vec![i(3), seq(vec![])]), Ok(vec![Err(Error::NotSequence), Ok(i(0))])),
        (raw(vec![Err(SENTINEL), Ok(seq(vec![i(1)]))]), Ok(vec![Err(SENTINEL), Ok(i(1))])),
    ];
    for (input, expected) in cases {
        assert_eq!(expected, items_of(input.map(conv)));
    }
}

#[test]
fn iterable_like_test_step_by() {
    let cases: Vec<(IL, usize, Result<Vec<Result<MetaVal, Error>>, Error>)> = vec![
        (seqs(vec![]), 1, Ok(vec![])),
        (seqs(distinct()), 0, Err(Error::ZeroStepSize)),
        (seqs(distinct()), 1, Ok(oks(distinct()))),
        (seqs(distinct()), 2, Ok(oks(vec![i(1), i(3), i(5)]))),
        (seqs(distinct()), 3, Ok(oks(vec![i(1), i(4)]))),
        (seqs(distinct()), 10, Ok(oks(vec![i(1)]))),
        (fixed(distinct()), 0, Err(Error::ZeroStepSize)),
        (fixed(distinct()), 2, Ok(oks(vec![i(1), i(3), i(5)]))),
        (raw(vec![Ok(i(1)), Err(SENTINEL), Ok(i(2)), Ok(i(3))]), 2, Ok(vec![Ok(i(1)), Err(SENTINEL), Ok(i(3))])),
    ];
    for (input, n, expected) in cases {
        assert_eq!(expected, items_of(input.step_by(n)));
    }
}

#[test]
fn iterable_like_test_chain() {
    let cases: Vec<(IL, IL, Vec<Result<MetaVal, Error>>, bool)> = vec![
        (seqs(vec![]), seqs(vec![]), vec![], true),
        (seqs(vec![i(1), i(2)]), seqs(vec![i(3)]), oks(vec![i(1), i(2), i(3)]), true),
        (seqs(vec![i(1), i(2)]), fixed(vec![i(3)]), oks(vec![i(1), i(2), i(3)]), false),
        (fixed(vec![i(1)]), seqs(vec![i(2), i(3)]), oks(vec![i(1), i(2), i(3)]), false),
        (raw(vec![Err(SENTINEL)]), fixed(vec![i(2)]), vec![Err(SENTINEL), Ok(i(2))], false),
    ];
    for (a, b, expected, eager) in cases {
        let chained = a.chain(b).unwrap();
        assert_eq!(eager, chained.is_eager());
        assert_eq!(expected, chained.into_items());
    }
}

#[test]
fn iterable_like_test_zip() {
    let pair = |x: MetaVal, y: MetaVal| seq(vec![x, y]);
    let cases: Vec<(IL, IL, Vec<Result<MetaVal, Error>>, bool)> = vec![
        (seqs(vec![]), seqs(vec![i(1)]), vec![], true),
        (seqs(vec![i(1), i(2)]), seqs(vec![b(true), b(false), b(true)]), oks(vec![pair(i(1), b(true)), pair(i(2), b(false))]), true),
        (seqs(vec![i(1), i(2)]), fixed(vec![b(true)]), oks(vec![pair(i(1), b(true))]), false),
        (raw(vec![Ok(i(1)), Err(SENTINEL)]), seqs(vec![b(true), b(false)]), vec![Ok(pair(i(1), b(true))), Err(SENTINEL)], false),
    ];
    for (a, b, expected, eager) in cases {
        let zipped = a.zip(b).unwrap();
        assert_eq!(eager, zipped.is_eager());
        assert_eq!(expected, zipped.into_items());
    }
}

#[test]
fn iterable_like_test_skip() {
    let cases: Vec<(IL, usize, Vec<Result<MetaVal, Error>>)> = vec![
        (seqs(vec![]), 0, vec![]),
        (seqs(distinct()), 0, oks(distinct())),
        (seqs(distinct()), 2, oks(vec![i(3), i(4), i(5)])),
        (seqs(distinct()), 5, vec![]),
        (seqs(distinct()), 10, vec![]),
        (fixed(distinct()), 2, oks(vec![i(3), i(4), i(5)])),
        (fixed(distinct()), 10, vec![]),
        (raw(vec![Err(SENTINEL), Ok(i(1)), Ok(i(2))]), 2, vec![Err(SENTINEL), Ok(i(2))]),
    ];
    for (input, n, expected) in cases {
        assert_eq!(expected, input.skip(n).unwrap().into_items());
    }
}

#[test]
fn iterable_like_test_take() {
    let cases: Vec<(IL, usize, Vec<Result<MetaVal, Error>>)> = vec![
        (seqs(vec![]), 0, vec![]),
        (seqs(distinct()), 0, vec![]),
        (seqs(distinct()), 2, oks(vec![i(1), i(2)])),
        (seqs(distinct()), 10, oks(distinct())),
        (fixed(distinct()), 2, oks(vec![i(1), i(2)])),
        (fixed(distinct()), 10, oks(distinct())),
        (raw(vec![Err(SENTINEL), Ok(i(1)), Ok(i(2))]), 2, vec![Err(SENTINEL), Ok(i(1))]),
    ];
    for (input, n, expected) in cases {
        assert_eq!(expected, input.take(n).unwrap().into_items());
    }
}

#[test]
fn iterable_like_test_skip_while() {
    let after = || vec![seq(vec![i(1), i(2)]), seq(vec![]), seq(vec![b(true), b(true)])];
    let cases: Vec<(IL, Result<Vec<Result<MetaVal, Error>>, Error>)> = vec![
        (seqs(vec![]), Ok(vec![])),
        (seqs(sequences()), Ok(oks(after()))),
        (seqs(vec![seq(vec![]), i(3), seq(vec![i(1), i(2)])]), Err(Error::NotSequence)),
        (seqs(vec![seq(vec![i(1), i(2)]), i(3)]), Ok(oks(vec![seq(vec![i(1), i(2)]), i(3)]))),
        (fixed(sequences()), Ok(oks(after()))),
        (
            fixed(vec![seq(vec![]), i(3), seq(vec![i(1), i(2)]), i(4)]),
            Ok(vec![Err(Error::NotSequence), Ok(seq(vec![i(1), i(2)])), Ok(i(4))]),
        ),
        (raw(vec![Err(SENTINEL), Ok(seq(vec![]))]), Ok(vec![Err(SENTINEL)])),
    ];
    for (input, expected) in cases {
        assert_eq!(expected, items_of(input.skip_while(ALL_EQUAL)));
    }
}

#[test]
fn iterable_like_test_take_while() {
    let cases: Vec<(IL, Result<Vec<Result<MetaVal, Error>>, Error>)> = vec![
        (seqs(vec![]), Ok(vec![])),
        (seqs(sequences()), Ok(oks(vec![seq(vec![i(1), i(1)])]))),
        (seqs(vec![seq(vec![]), i(3), seq(vec![i(1), i(2)])]), Err(Error::NotSequence)),
        (seqs(vec![seq(vec![i(1), i(2)]), i(3)]), Ok(vec![])),
        (fixed(sequences()), Ok(oks(vec![seq(vec![i(1), i(1)])]))),
        (
            fixed(vec![seq(vec![]), i(3), seq(vec![i(1)]), seq(vec![i(1), i(2)]), seq(vec![])]),
            Ok(vec![Ok(seq(vec![])), Err(Error::NotSequence), Ok(seq(vec![i(1)]))]),
        ),
        (raw(vec![Err(SENTINEL), Ok(seq(vec![]))]), Ok(vec![Err(SENTINEL), Ok(seq(vec![]))])),
    ];
    for (input, expected) in cases {
        assert_eq!(expected, items_of(input.take_while(ALL_EQUAL)));
    }
}

#[test]
fn operand_conversions() {
    assert_eq!(Ok(3), Operand::Value(i(3)).try_into_usize());
    assert_eq!(Err(Error::NotUsize), Operand::Value(i(-3)).try_into_usize());
    assert_eq!(Err(Error::NotUsize), Operand::Value(b(true)).try_into_usize());
    assert_eq!(Ok(7), Operand::Usize(7).try_into_usize());
    assert!(Operand::Value(i(3)).try_into_producer().is_err());
    assert!(IL::try_from_operand(Operand::Value(i(3))).is_err());
    assert!(IL::try_from_operand(Operand::Value(seq(vec![]))).unwrap().is_eager());
    assert!(IL::try_from_operand(Operand::Producer(VP::fixed(vec![]))).unwrap().is_lazy());
}
