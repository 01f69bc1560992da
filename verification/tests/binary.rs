use taggu::decimal::Decimal;
use taggu::functions::op::operator::{UnaryConverter, UnaryPredicate};
use taggu::functions::operator::binary::imp::Impl;
use taggu::functions::operator::binary::{IterConsumer, Predicate};
use taggu::functions::Error;
use taggu::metadata::types::{MetaKey, MetaVal};
use taggu::functions::util::value_producer::ValueProducer as VP;
use taggu::functions::util::stream_adaptor::{DedupAdaptor, StreamAdaptor as SA};

fn sample_string() -> MetaVal {
    MetaVal::Str(String::from("string"))
}

fn sample_integer() -> MetaVal {
    MetaVal::Int(27)
}

fn sample_decimal() -> MetaVal {
    MetaVal::Dec(Decimal::new(31415, 4))
}

fn sample_boolean() -> MetaVal {
    MetaVal::Bul(true)
}

fn sample_null() -> MetaVal {
    MetaVal::Nil
}

fn core_flat_sequence() -> Vec<MetaVal> {
    vec![sample_string(), sample_integer(), sample_decimal(), sample_boolean(), sample_null()]
}

fn sample_flat_sequence() -> MetaVal {
    MetaVal::Sequence(core_flat_sequence())
}

fn sample_flat_mapping() -> MetaVal {
    MetaVal::Mapping(vec![
        (MetaKey::Str(String::from("key_a")), sample_string()),
        (MetaKey::Str(String::from("key_b")), sample_integer()),
        (MetaKey::Str(String::from("key_c")), sample_decimal()),
        (MetaKey::Str(String::from("key_d")), sample_boolean()),
        (MetaKey::Str(String::from("key_e")), sample_null()),
    ])
}

fn core_nested_sequence() -> Vec<MetaVal> {
    let mut seq = core_flat_sequence();
    seq.push(sample_flat_sequence());
    seq.push(sample_flat_mapping());
    seq
}

fn i(n: i64) -> MetaVal {
    MetaVal::Int(n)
}

fn s(x: &str) -> MetaVal {
    MetaVal::Str(String::from(x))
}

fn is_even_int(mv: &MetaVal) -> Result<bool, Error> {
    match mv {
        MetaVal::Int(i) => Ok(i % 2 == 0),
        _ => Err(Error::NotNumeric),
    }
}

fn is_boolean(mv: &MetaVal) -> Result<bool, Error> {
    match mv {
        MetaVal::Bul(..) => Ok(true),
        _ => Ok(false),
    }
}

fn is_lt_4_int(mv: &MetaVal) -> Result<bool, Error> {
    match mv {
        MetaVal::Int(i) => Ok(i < &4),
        _ => Err(Error::NotNumeric),
    }
}

fn conv_repr(mv: MetaVal) -> Result<MetaVal, Error> {
    Ok(MetaVal::Str(
        match mv {
            MetaVal::Bul(..) => "boolean",
            MetaVal::Dec(..) => "decimal",
            MetaVal::Int(..) => "integer",
            MetaVal::Mapping(..) => "mapping",
            MetaVal::Nil => "null",
            MetaVal::Sequence(..) => "sequence",
            MetaVal::Str(..) => "string",
        }
        .to_string(),
    ))
}

fn conv_add_3(mv: MetaVal) -> Result<MetaVal, Error> {
    match mv {
        MetaVal::Dec(d) => Ok(MetaVal::Dec(d.checked_add(&Decimal::from_int(3)).unwrap())),
        MetaVal::Int(i) => Ok(MetaVal::Int(i + 3)),
        _ => Err(Error::NotNumeric),
    }
}

type Pred = fn(&MetaVal) -> Result<bool, Error>;
type Conv = fn(MetaVal) -> Result<MetaVal, Error>;

#[test]
fn test_nth_s() {
    let inputs_and_expected = vec![
        ((vec![], 1usize), Err(Error::OutOfBounds)),
        ((core_nested_sequence(), 0), Ok(sample_string())),
        ((core_nested_sequence(), 100), Err(Error::OutOfBounds)),
        ((vec![MetaVal::Bul(true), MetaVal::Bul(true)], 1), Ok(MetaVal::Bul(true))),
    ];

    for (inputs, expected) in inputs_and_expected {
        let (input_a, input_b) = inputs;
        let produced = Impl::nth_s(input_a, input_b);
        assert_eq!(expected, produced);
    }
}

#[test]
fn test_all_s() {
    let inputs_and_expected: Vec<((Vec<MetaVal>, Pred), Result<bool, Error>)> = vec![
        ((vec![], is_boolean), Ok(true)),
        ((core_nested_sequence(), is_boolean), Ok(false)),
        ((vec![MetaVal::Bul(true), MetaVal::Bul(true)], is_boolean), Ok(true)),
        ((vec![MetaVal::Bul(true), MetaVal::Int(0)], is_boolean), Ok(false)),
        ((vec![i(0), i(2), i(4), i(6), i(8)], is_even_int), Ok(true)),
        ((vec![i(0), i(2), i(5), i(6), i(8)], is_even_int), Ok(false)),
        ((vec![i(1), i(3), i(5), i(7), i(9)], is_even_int), Ok(false)),
        ((vec![i(0), i(2), MetaVal::Bul(false), i(6), i(8)], is_even_int), Err(Error::NotNumeric)),
        ((vec![i(1), i(3), MetaVal::Bul(false), i(7), i(9)], is_even_int), Ok(false)),
    ];

    for (inputs, expected) in inputs_and_expected {
        let (input_a, input_b) = inputs;
        let produced = Impl::all_s(input_a, input_b);
        assert_eq!(expected, produced);
    }
}

#[test]
fn test_any_s() {
    let inputs_and_expected: Vec<((Vec<MetaVal>, Pred), Result<bool, Error>)> = vec![
        ((vec![], is_boolean), Ok(false)),
        ((core_nested_sequence(), is_boolean), Ok(true)),
        ((vec![MetaVal::Bul(true), MetaVal::Bul(true)], is_boolean), Ok(true)),
        ((vec![MetaVal::Bul(true), MetaVal::Int(0)], is_boolean), Ok(true)),
        ((vec![i(0), i(2), i(4), i(6), i(8)], is_even_int), Ok(true)),
        ((vec![i(0), i(2), i(5), i(6), i(8)], is_even_int), Ok(true)),
        ((vec![i(1), i(3), i(5), i(7), i(9)], is_even_int), Ok(false)),
        ((vec![i(0), i(2), MetaVal::Bul(false), i(6), i(8)], is_even_int), Ok(true)),
        ((vec![i(1), i(3), MetaVal::Bul(false), i(7), i(9)], is_even_int), Err(Error::NotNumeric)),
    ];

    for (inputs, expected) in inputs_and_expected {
        let (input_a, input_b) = inputs;
        let produced = Impl::any_s(input_a, input_b);
        assert_eq!(expected, produced);
    }
}

#[test]
fn test_find_s() {
    let inputs_and_expected: Vec<((Vec<MetaVal>, Pred), Result<MetaVal, Error>)> = vec![
        ((vec![], is_boolean), Err(Error::ItemNotFound)),
        ((core_nested_sequence(), is_boolean), Ok(sample_boolean())),
        ((vec![MetaVal::Bul(false), MetaVal::Bul(true)], is_boolean), Ok(MetaVal::Bul(false))),
        ((vec![i(0), i(2), i(4), i(6), i(8)], is_even_int), Ok(i(0))),
        ((vec![i(0), i(2), i(5), i(6), i(8)], is_even_int), Ok(i(0))),
        ((vec![i(1), i(3), i(5), i(7), i(9)], is_even_int), Err(Error::ItemNotFound)),
        ((vec![i(0), i(2), MetaVal::Bul(false), i(6), i(8)], is_even_int), Ok(i(0))),
        ((vec![i(1), i(3), MetaVal::Bul(false), i(7), i(9)], is_even_int), Err(Error::NotNumeric)),
    ];

    for (inputs, expected) in inputs_and_expected {
        let (input_a, input_b) = inputs;
        let produced = Impl::find_s(input_a, input_b);
        assert_eq!(expected, produced);
    }
}

#[test]
fn test_position_s() {
    let inputs_and_expected: Vec<((Vec<MetaVal>, Pred), Result<usize, Error>)> = vec![
        ((vec![], is_boolean), Err(Error::ItemNotFound)),
        ((core_nested_sequence(), is_boolean), Ok(3)),
        ((vec![MetaVal::Bul(false), MetaVal::Bul(true)], is_boolean), Ok(0)),
        ((vec![i(0), i(2), i(4), i(6), i(8)], is_even_int), Ok(0)),
        ((vec![i(0), i(2), i(5), i(6), i(8)], is_even_int), Ok(0)),
        ((vec![i(1), i(3), i(5), i(7), i(9)], is_even_int), Err(Error::ItemNotFound)),
        ((vec![i(0), i(2), MetaVal::Bul(false), i(6), i(8)], is_even_int), Ok(0)),
        ((vec![i(1), i(3), MetaVal::Bul(false), i(7), i(9)], is_even_int), Err(Error::NotNumeric)),
    ];

    for (inputs, expected) in inputs_and_expected {
        let (input_a, input_b) = inputs;
        let produced = Impl::position_s(input_a, input_b);
        assert_eq!(expected, produced);
    }
}

#[test]
fn test_filter_s() {
    let inputs_and_expected: Vec<((Vec<MetaVal>, Pred), Result<Vec<MetaVal>, Error>)> = vec![
        ((vec![], is_boolean), Ok(vec![])),
        ((core_nested_sequence(), is_boolean), Ok(vec![sample_boolean()])),
        ((vec![MetaVal::Bul(false), MetaVal::Int(1)], is_boolean), Ok(vec![MetaVal::Bul(false)])),
        ((vec![MetaVal::Bul(false), MetaVal::Int(1)], is_boolean), Ok(vec![MetaVal::Bul(false)])),
        ((vec![i(0), i(2), i(4), i(6), i(8)], is_even_int), Ok(vec![i(0), i(2), i(4), i(6), i(8)])),
        ((vec![i(0), i(2), i(5), i(6), i(8)], is_even_int), Ok(vec![i(0), i(2), i(6), i(8)])),
        ((vec![i(1), i(3), i(5), i(7), i(9)], is_even_int), Ok(vec![])),
        ((vec![i(0), i(2), MetaVal::Bul(false), i(6), i(8)], is_even_int), Err(Error::NotNumeric)),
        ((vec![i(1), i(3), MetaVal::Bul(false), i(7), i(9)], is_even_int), Err(Error::NotNumeric)),
    ];

    for (inputs, expected) in inputs_and_expected {
        let (input_a, input_b) = inputs;
        let produced = Impl::filter_s(input_a, input_b);
        assert_eq!(expected, produced);
    }
}

#[test]
fn test_map_s() {
    let inputs_and_expected: Vec<((Vec<MetaVal>, Conv), Result<Vec<MetaVal>, Error>)> = vec![
        ((vec![], conv_repr), Ok(vec![])),
        (
            (core_nested_sequence(), conv_repr),
            Ok(vec![
                s("string"),
                s("integer"),
                s("decimal"),
                s("boolean"),
                s("null"),
                s("sequence"),
                s("mapping"),
            ]),
        ),
        ((vec![MetaVal::Bul(false), MetaVal::Int(1)], conv_repr), Ok(vec![s("boolean"), s("integer")])),
        (
            (vec![i(0), i(2), i(4), i(6), i(8)], conv_add_3),
            Ok(vec![i(0 + 3), i(2 + 3), i(4 + 3), i(6 + 3), i(8 + 3)]),
        ),
        ((vec![i(0), i(2), MetaVal::Bul(false), i(6), i(8)], conv_add_3), Err(Error::NotNumeric)),
    ];

    for (inputs, expected) in inputs_and_expected {
        let (input_a, input_b) = inputs;
        let produced = Impl::map_s(input_a, input_b);
        assert_eq!(expected, produced);
    }
}

#[test]
fn test_step_by_s() {
    let inputs_and_expected = vec![
        ((vec![], 1), Ok(vec![])),
        ((vec![], 2), Ok(vec![])),
        ((vec![], 0), Err(Error::ZeroStepSize)),
        ((core_nested_sequence(), 1), Ok(core_nested_sequence())),
        ((core_nested_sequence(), 2), Ok(core_nested_sequence().into_iter().step_by(2).collect())),
        ((vec![MetaVal::Bul(false), MetaVal::Int(1)], 10), Ok(vec![MetaVal::Bul(false)])),
        (((0i64..=100).map(i).collect(), 0), Err(Error::ZeroStepSize)),
        (((0i64..=100).map(i).collect(), 1), Ok((0i64..=100).step_by(1).map(i).collect())),
        (((0i64..=100).map(i).collect(), 2), Ok((0i64..=100).step_by(2).map(i).collect())),
        (((0i64..=100).map(i).collect(), 4), Ok((0i64..=100).step_by(4).map(i).collect())),
    ];

    for (inputs, expected) in inputs_and_expected {
        let (input_a, input_b) = inputs;
        let produced = Impl::step_by_s(input_a, input_b);
        assert_eq!(expected, produced);
    }
}

#[test]
fn test_chain_s() {
    let inputs_and_expected = vec![
        ((vec![], vec![]), vec![]),
        (
            (core_nested_sequence(), core_flat_sequence()),
            core_nested_sequence().into_iter().chain(core_flat_sequence()).collect(),
        ),
        (
            (vec![MetaVal::Bul(false), i(1)], vec![i(1), MetaVal::Bul(true)]),
            vec![MetaVal::Bul(false), i(1), i(1), MetaVal::Bul(true)],
        ),
        ((core_nested_sequence(), vec![]), core_nested_sequence()),
        ((vec![], core_nested_sequence()), core_nested_sequence()),
    ];

    for (inputs, expected) in inputs_and_expected {
        let (input_a, input_b) = inputs;
        let produced = Impl::chain_s(input_a, input_b);
        assert_eq!(expected, produced);
    }
}

#[test]
fn test_zip_s() {
    let inputs_and_expected = vec![
        ((vec![], vec![]), vec![]),
        (
            (vec![i(1), i(2), i(3), i(4)], vec![i(4), i(3), i(2), i(1)]),
            vec![
                MetaVal::Sequence(vec![i(1), i(4)]),
                MetaVal::Sequence(vec![i(2), i(3)]),
                MetaVal::Sequence(vec![i(3), i(2)]),
                MetaVal::Sequence(vec![i(4), i(1)]),
            ],
        ),
        (
            (vec![i(1), i(2), i(3)], vec![i(4), i(3), i(2), i(1)]),
            vec![
                MetaVal::Sequence(vec![i(1), i(4)]),
                MetaVal::Sequence(vec![i(2), i(3)]),
                MetaVal::Sequence(vec![i(3), i(2)]),
            ],
        ),
        (
            (vec![i(1), i(2), i(3), i(4)], vec![i(4), i(3), i(2)]),
            vec![
                MetaVal::Sequence(vec![i(1), i(4)]),
                MetaVal::Sequence(vec![i(2), i(3)]),
                MetaVal::Sequence(vec![i(3), i(2)]),
            ],
        ),
        ((vec![], vec![i(4), i(3), i(2), i(1)]), vec![]),
        ((vec![i(1), i(2), i(3), i(4)], vec![]), vec![]),
    ];

    for (inputs, expected) in inputs_and_expected {
        let (input_a, input_b) = inputs;
        let produced = Impl::zip_s(input_a, input_b);
        assert_eq!(expected, produced);
    }
}

#[test]
fn test_skip_s() {
    let inputs_and_expected = vec![
        ((vec![], 0), vec![]),
        ((vec![], 1), vec![]),
        ((vec![i(1), i(2), i(3), i(4), i(5)], 0), vec![i(1), i(2), i(3), i(4), i(5)]),
        ((vec![i(1), i(2), i(3), i(4), i(5)], 1), vec![i(2), i(3), i(4), i(5)]),
        ((vec![i(1), i(2), i(3), i(4), i(5)], 2), vec![i(3), i(4), i(5)]),
        ((vec![i(1), i(2), i(3), i(4), i(5)], 4), vec![i(5)]),
        ((vec![i(1), i(2), i(3), i(4), i(5)], 8), vec![]),
    ];

    for (inputs, expected) in inputs_and_expected {
        let (input_a, input_b) = inputs;
        let produced = Impl::skip_s(input_a, input_b);
        assert_eq!(expected, produced);
    }
}

#[test]
fn test_take_s() {
    let inputs_and_expected = vec![
        ((vec![], 0), vec![]),
        ((vec![], 1), vec![]),
        ((vec![i(1), i(2), i(3), i(4), i(5)], 0), vec![]),
        ((vec![i(1), i(2), i(3), i(4), i(5)], 1), vec![i(1)]),
        ((vec![i(1), i(2), i(3), i(4), i(5)], 2), vec![i(1), i(2)]),
        ((vec![i(1), i(2), i(3), i(4), i(5)], 4), vec![i(1), i(2), i(3), i(4)]),
        ((vec![i(1), i(2), i(3), i(4), i(5)], 8), vec![i(1), i(2), i(3), i(4), i(5)]),
    ];

    for (inputs, expected) in inputs_and_expected {
        let (input_a, input_b) = inputs;
        let produced = Impl::take_s(input_a, input_b);
        assert_eq!(expected, produced);
    }
}

#[test]
fn test_skip_while_s() {
    let inputs_and_expected: Vec<((Vec<MetaVal>, Pred), Result<Vec<MetaVal>, Error>)> = vec![
        ((vec![], is_lt_4_int), Ok(vec![])),
        ((vec![i(1), i(2), i(3)], is_lt_4_int), Ok(vec![])),
        ((vec![i(4), i(5), i(6)], is_lt_4_int), Ok(vec![i(4), i(5), i(6)])),
        ((vec![i(1), i(2), i(3), i(4), i(5), i(6)], is_lt_4_int), Ok(vec![i(4), i(5), i(6)])),
        ((vec![s("a"), i(1), i(2), i(3), i(4), i(5)], is_lt_4_int), Err(Error::NotNumeric)),
        ((vec![i(1), i(2), i(3), i(4), i(5), s("a")], is_lt_4_int), Ok(vec![i(4), i(5), s("a")])),
    ];

    for (inputs, expected) in inputs_and_expected {
        let (input_a, input_b) = inputs;
        let produced = Impl::skip_while_s(input_a, input_b);
        assert_eq!(expected, produced);
    }
}

#[test]
fn test_take_while_s() {
    let inputs_and_expected: Vec<((Vec<MetaVal>, Pred), Result<Vec<MetaVal>, Error>)> = vec![
        ((vec![], is_lt_4_int), Ok(vec![])),
        ((vec![i(1), i(2), i(3)], is_lt_4_int), Ok(vec![i(1), i(2), i(3)])),
        ((vec![i(4), i(5), i(6)], is_lt_4_int), Ok(vec![])),
        ((vec![i(1), i(2), i(3), i(4), i(5), i(6)], is_lt_4_int), Ok(vec![i(1), i(2), i(3)])),
        ((vec![s("a"), i(1), i(2), i(3), i(4), i(5)], is_lt_4_int), Err(Error::NotNumeric)),
        ((vec![i(1), i(2), i(3), i(4), i(5), s("a")], is_lt_4_int), Ok(vec![i(1), i(2), i(3)])),
    ];

    for (inputs, expected) in inputs_and_expected {
        let (input_a, input_b) = inputs;
        let produced = Impl::take_while_s(input_a, input_b);
        assert_eq!(expected, produced);
    }
}

#[test]
fn intersperse_s_follows_each_value_with_the_separator() {
    assert_eq!(Vec::<MetaVal>::new(), Impl::intersperse_s(vec![], s("-")));
    assert_eq!(vec![i(1), s("-"), i(2), s("-")], Impl::intersperse_s(vec![i(1), i(2)], s("-")));
}

#[test]
fn interleave_s_alternates_until_one_runs_out() {
    assert_eq!(vec![i(1), i(9), i(2)], Impl::interleave_s(vec![i(1), i(2), i(3)], vec![i(9)]));
    assert_eq!(vec![i(1), i(8), i(2), i(9)], Impl::interleave_s(vec![i(1), i(2)], vec![i(8), i(9), i(10)]));
    assert_eq!(Vec::<MetaVal>::new(), Impl::interleave_s(vec![], vec![i(8)]));
}

#[test]
fn binary_predicates_compare_values() {
    assert_eq!(Ok(true), Predicate::Eq.process(&i(1), &i(1)));
    assert_eq!(Ok(true), Predicate::Ne.process(&i(1), &i(2)));
    assert_eq!(Ok(true), Predicate::Lt.process(&i(1), &i(2)));
    assert_eq!(Ok(false), Predicate::Gt.process(&i(1), &i(2)));
    assert_eq!(Ok(true), Predicate::Le.process(&s("a"), &s("a")));
    assert_eq!(Ok(true), Predicate::Ge.process(&s("b"), &s("a")));
    // A string comes before an integer whatever their contents.
    assert_eq!(Ok(true), Predicate::Lt.process(&s("z"), &i(0)));
}

#[test]
fn binary_iter_consumer_gives_null() {
    assert_eq!(Ok(MetaVal::Nil), IterConsumer::Nth.process(vec![Ok(i(1))]));
}

/// The error that the test producers yield among their values.
const SENTINEL: Error = Error::InvalidOperand;

fn oks(v: Vec<MetaVal>) -> Vec<Result<MetaVal, Error>> {
    v.into_iter().map(Ok).collect()
}

fn ints_up_to(n: i64) -> Vec<MetaVal> {
    (0i64..=n).map(i).collect()
}

#[test]
fn imp_test_nth() {
    let cases: Vec<((Vec<Result<MetaVal, Error>>, usize), Result<MetaVal, Error>)> = vec![
        ((vec![], 1), Err(Error::OutOfBounds)),
        ((oks(core_nested_sequence()), 0), Ok(sample_string())),
        ((oks(core_nested_sequence()), 100), Err(Error::OutOfBounds)),
        ((vec![Ok(MetaVal::Bul(true)), Ok(MetaVal::Bul(true)), Err(SENTINEL)], 1), Ok(MetaVal::Bul(true))),
        ((vec![Err(SENTINEL), Ok(MetaVal::Bul(true)), Ok(MetaVal::Bul(true))], 1), Err(SENTINEL)),
    ];
    for ((input_a, input_b), expected) in cases {
        assert_eq!(expected, Impl::nth(VP::raw(input_a), input_b));
    }
}

#[test]
fn imp_test_step_by() {
    let cases: Vec<((Vec<Result<MetaVal, Error>>, usize), Result<Vec<Result<MetaVal, Error>>, Error>)> = vec![
        ((vec![], 1), Ok(vec![])),
        ((vec![], 2), Ok(vec![])),
        ((vec![], 0), Err(Error::ZeroStepSize)),
        ((oks(core_nested_sequence()), 1), Ok(oks(core_nested_sequence()))),
        ((oks(core_nested_sequence()), 2), Ok(oks(core_nested_sequence().into_iter().step_by(2).collect()))),
        (
            (vec![Ok(MetaVal::Bul(false)), Ok(MetaVal::Int(1)), Err(SENTINEL)], 10),
            Ok(vec![Ok(MetaVal::Bul(false)), Err(SENTINEL)]),
        ),
        (
            (vec![Err(SENTINEL), Ok(MetaVal::Bul(false)), Ok(MetaVal::Int(1))], 10),
            Ok(vec![Err(SENTINEL), Ok(MetaVal::Bul(false))]),
        ),
        ((oks(ints_up_to(100)), 0), Err(Error::ZeroStepSize)),
        ((oks(ints_up_to(100)), 1), Ok(oks(ints_up_to(100).into_iter().step_by(1).collect()))),
        ((oks(ints_up_to(100)), 2), Ok(oks(ints_up_to(100).into_iter().step_by(2).collect()))),
        ((oks(ints_up_to(100)), 4), Ok(oks(ints_up_to(100).into_iter().step_by(4).collect()))),
    ];
    for ((input_a, input_b), expected) in cases {
        let produced = Impl::step_by(VP::raw(input_a), input_b).map(|sb| VP::StepBy(sb).into_items());
        assert_eq!(expected, produced);
    }
}

#[test]
fn imp_test_chain() {
    let cases: Vec<((Vec<Result<MetaVal, Error>>, Vec<Result<MetaVal, Error>>), Vec<Result<MetaVal, Error>>)> = vec![
        ((vec![], vec![]), vec![]),
        (
            (oks(core_nested_sequence()), oks(core_flat_sequence())),
            oks(core_nested_sequence().into_iter().chain(core_flat_sequence()).collect()),
        ),
        (
            (vec![Ok(MetaVal::Bul(false)), Err(SENTINEL)], vec![Err(SENTINEL), Ok(MetaVal::Bul(true))]),
            vec![Ok(MetaVal::Bul(false)), Err(SENTINEL), Err(SENTINEL), Ok(MetaVal::Bul(true))],
        ),
        ((oks(core_nested_sequence()), vec![]), oks(core_nested_sequence())),
        ((vec![], oks(core_nested_sequence())), oks(core_nested_sequence())),
    ];
    for ((input_a, input_b), expected) in cases {
        let produced = VP::Chain(Impl::chain(VP::raw(input_a), VP::raw(input_b))).into_items();
        assert_eq!(expected, produced);
    }
}

#[test]
fn imp_test_zip() {
    let pair = |a: i64, b: i64| Ok(MetaVal::Sequence(vec![i(a), i(b)]));
    let cases: Vec<((Vec<Result<MetaVal, Error>>, Vec<Result<MetaVal, Error>>), Vec<Result<MetaVal, Error>>)> = vec![
        ((vec![], vec![]), vec![]),
        (
            (oks(vec![i(1), i(2), i(3), i(4)]), oks(vec![i(4), i(3), i(2), i(1)])),
            vec![pair(1, 4), pair(2, 3), pair(3, 2), pair(4, 1)],
        ),
        (
            (oks(vec![i(1), i(2), i(3)]), oks(vec![i(4), i(3), i(2), i(1)])),
            vec![pair(1, 4), pair(2, 3), pair(3, 2)],
        ),
        (
            (oks(vec![i(1), i(2), i(3), i(4)]), oks(vec![i(4), i(3), i(2)])),
            vec![pair(1, 4), pair(2, 3), pair(3, 2)],
        ),
        (
            (vec![Ok(i(1)), Err(SENTINEL), Ok(i(3))], vec![Err(SENTINEL), Ok(i(2)), Ok(i(3))]),
            vec![Err(SENTINEL), Err(SENTINEL), pair(3, 3)],
        ),
        (
            (oks(vec![i(1), i(2), i(3)]), vec![Err(SENTINEL), Err(SENTINEL)]),
            vec![Err(SENTINEL), Err(SENTINEL)],
        ),
        ((vec![], oks(vec![i(4), i(3), i(2), i(1)])), vec![]),
        ((oks(vec![i(1), i(2), i(3), i(4)]), vec![]), vec![]),
    ];
    for ((input_a, input_b), expected) in cases {
        let produced = VP::Zip(Impl::zip(VP::raw(input_a), VP::raw(input_b))).into_items();
        assert_eq!(expected, produced);
    }
}

fn one_to_five() -> Vec<Result<MetaVal, Error>> {
    oks(vec![i(1), i(2), i(3), i(4), i(5)])
}

fn two_errors_then_three() -> Vec<Result<MetaVal, Error>> {
    vec![Err(SENTINEL), Err(SENTINEL), Ok(i(3)), Ok(i(4)), Ok(i(5))]
}

#[test]
fn imp_test_skip() {
    let e = || Err(SENTINEL);
    let cases: Vec<((Vec<Result<MetaVal, Error>>, usize), Vec<Result<MetaVal, Error>>)> = vec![
        ((vec![], 0), vec![]),
        ((vec![], 1), vec![]),
        ((one_to_five(), 0), one_to_five()),
        ((one_to_five(), 1), oks(vec![i(2), i(3), i(4), i(5)])),
        ((one_to_five(), 2), oks(vec![i(3), i(4), i(5)])),
        ((one_to_five(), 4), oks(vec![i(5)])),
        ((one_to_five(), 8), vec![]),
        ((two_errors_then_three(), 0), two_errors_then_three()),
        ((two_errors_then_three(), 1), two_errors_then_three()),
        ((two_errors_then_three(), 2), two_errors_then_three()),
        ((two_errors_then_three(), 3), vec![e(), e(), Ok(i(4)), Ok(i(5))]),
        ((two_errors_then_three(), 4), vec![e(), e(), Ok(i(5))]),
        ((two_errors_then_three(), 6), vec![e(), e()]),
    ];
    for ((input_a, input_b), expected) in cases {
        let produced = VP::Skip(Impl::skip(VP::raw(input_a), input_b)).into_items();
        assert_eq!(expected, produced);
    }
}

#[test]
fn imp_test_take() {
    let e = || Err(SENTINEL);
    let cases: Vec<((Vec<Result<MetaVal, Error>>, usize), Vec<Result<MetaVal, Error>>)> = vec![
        ((vec![], 0), vec![]),
        ((vec![], 1), vec![]),
        ((one_to_five(), 0), vec![]),
        ((one_to_five(), 1), oks(vec![i(1)])),
        ((one_to_five(), 2), oks(vec![i(1), i(2)])),
        ((one_to_five(), 4), oks(vec![i(1), i(2), i(3), i(4)])),
        ((one_to_five(), 8), one_to_five()),
        ((two_errors_then_three(), 0), vec![]),
        ((two_errors_then_three(), 1), vec![e()]),
        ((two_errors_then_three(), 2), vec![e(), e()]),
        ((two_errors_then_three(), 3), vec![e(), e(), Ok(i(3))]),
        ((two_errors_then_three(), 4), vec![e(), e(), Ok(i(3)), Ok(i(4))]),
        ((two_errors_then_three(), 6), two_errors_then_three()),
    ];
    for ((input_a, input_b), expected) in cases {
        let produced = VP::Take(Impl::take(VP::raw(input_a), input_b)).into_items();
        assert_eq!(expected, produced);
    }
}

type Items = Vec<Result<MetaVal, Error>>;

fn oki(v: &[i64]) -> Items {
    v.iter().map(|n| Ok(i(*n))).collect()
}

/// Odd integers with a boolean in the middle.
fn odd_with_boolean() -> Items {
    vec![Ok(i(1)), Ok(i(3)), Ok(MetaVal::Bul(false)), Ok(i(7)), Ok(i(9))]
}

/// Even integers with a boolean in the middle.
fn even_with_boolean() -> Items {
    vec![Ok(i(0)), Ok(i(2)), Ok(MetaVal::Bul(false)), Ok(i(6)), Ok(i(8))]
}

#[test]
fn imp_test_all() {
    let cases: Vec<((Items, Pred), Result<bool, Error>)> = vec![
        ((vec![], is_boolean), Ok(true)),
        ((oks(core_nested_sequence()), is_boolean), Ok(false)),
        ((vec![Ok(MetaVal::Bul(true)), Ok(MetaVal::Bul(true)), Err(SENTINEL)], is_boolean), Err(SENTINEL)),
        ((vec![Err(SENTINEL), Ok(MetaVal::Bul(true)), Ok(MetaVal::Bul(true))], is_boolean), Err(SENTINEL)),
        ((vec![Ok(MetaVal::Bul(true)), Ok(MetaVal::Int(0)), Err(SENTINEL)], is_boolean), Ok(false)),
        ((oki(&[0, 2, 4, 6, 8]), is_even_int), Ok(true)),
        ((oki(&[0, 2, 5, 6, 8]), is_even_int), Ok(false)),
        ((oki(&[1, 3, 5, 7, 9]), is_even_int), Ok(false)),
        ((even_with_boolean(), is_even_int), Err(Error::NotNumeric)),
        ((odd_with_boolean(), is_even_int), Ok(false)),
    ];
    for ((input_a, input_b), expected) in cases {
        assert_eq!(expected, Impl::all(VP::raw(input_a), input_b));
    }
}

#[test]
fn imp_test_any() {
    let cases: Vec<((Items, Pred), Result<bool, Error>)> = vec![
        ((vec![], is_boolean), Ok(false)),
        ((oks(core_nested_sequence()), is_boolean), Ok(true)),
        ((vec![Ok(MetaVal::Bul(true)), Ok(MetaVal::Bul(true)), Err(SENTINEL)], is_boolean), Ok(true)),
        ((vec![Err(SENTINEL), Ok(MetaVal::Bul(true)), Ok(MetaVal::Bul(true))], is_boolean), Err(SENTINEL)),
        ((vec![Ok(MetaVal::Bul(true)), Ok(MetaVal::Int(0)), Err(SENTINEL)], is_boolean), Ok(true)),
        ((oki(&[0, 2, 4, 6, 8]), is_even_int), Ok(true)),
        ((oki(&[0, 2, 5, 6, 8]), is_even_int), Ok(true)),
        ((oki(&[1, 3, 5, 7, 9]), is_even_int), Ok(false)),
        ((even_with_boolean(), is_even_int), Ok(true)),
        ((odd_with_boolean(), is_even_int), Err(Error::NotNumeric)),
    ];
    for ((input_a, input_b), expected) in cases {
        assert_eq!(expected, Impl::any(VP::raw(input_a), input_b));
    }
}

#[test]
fn imp_test_find() {
    let cases: Vec<((Items, Pred), Result<MetaVal, Error>)> = vec![
        ((vec![], is_boolean), Err(Error::ItemNotFound)),
        ((oks(core_nested_sequence()), is_boolean), Ok(sample_boolean())),
        ((vec![Ok(MetaVal::Bul(false)), Ok(MetaVal::Bul(true)), Err(SENTINEL)], is_boolean), Ok(MetaVal::Bul(false))),
        ((vec![Err(SENTINEL), Ok(MetaVal::Bul(true)), Ok(MetaVal::Bul(true))], is_boolean), Err(SENTINEL)),
        ((oki(&[0, 2, 4, 6, 8]), is_even_int), Ok(i(0))),
        ((oki(&[0, 2, 5, 6, 8]), is_even_int), Ok(i(0))),
        ((oki(&[1, 3, 5, 7, 9]), is_even_int), Err(Error::ItemNotFound)),
        ((even_with_boolean(), is_even_int), Ok(i(0))),
        ((odd_with_boolean(), is_even_int), Err(Error::NotNumeric)),
    ];
    for ((input_a, input_b), expected) in cases {
        assert_eq!(expected, Impl::find(VP::raw(input_a), input_b));
    }
}

#[test]
fn imp_test_position() {
    let cases: Vec<((Items, Pred), Result<usize, Error>)> = vec![
        ((vec![], is_boolean), Err(Error::ItemNotFound)),
        ((oks(core_nested_sequence()), is_boolean), Ok(3)),
        ((vec![Ok(MetaVal::Bul(false)), Ok(MetaVal::Bul(true)), Err(SENTINEL)], is_boolean), Ok(0)),
        ((vec![Err(SENTINEL), Ok(MetaVal::Bul(true)), Ok(MetaVal::Bul(true))], is_boolean), Err(SENTINEL)),
        ((oki(&[0, 2, 4, 6, 8]), is_even_int), Ok(0)),
        ((oki(&[0, 2, 5, 6, 8]), is_even_int), Ok(0)),
        ((oki(&[1, 3, 5, 7, 9]), is_even_int), Err(Error::ItemNotFound)),
        ((even_with_boolean(), is_even_int), Ok(0)),
        ((odd_with_boolean(), is_even_int), Err(Error::NotNumeric)),
    ];
    for ((input_a, input_b), expected) in cases {
        assert_eq!(expected, Impl::position(VP::raw(input_a), input_b));
    }
}

fn copies(v: &[MetaVal]) -> Vec<MetaVal> {
    v.iter().map(|x| x.deep_copy()).collect()
}

#[test]
fn position_and_find_agree() {
    let inputs: Vec<(Vec<MetaVal>, Pred)> = vec![
        (core_nested_sequence(), is_boolean),
        (vec![MetaVal::Bul(false), MetaVal::Bul(true)], is_boolean),
        (vec![i(1), i(3), i(4), i(5)], is_even_int),
        (vec![i(1), i(3)], is_even_int),
        (vec![i(1), MetaVal::Bul(true), i(2)], is_even_int),
    ];
    for (input, pred) in inputs {
        let pos = Impl::position_s(copies(&input), pred);
        let found = Impl::find_s(copies(&input), pred);
        match pos {
            Ok(n) => {
                assert_eq!(Ok(true), pred(&input[n]));
                assert!(input[..n].iter().all(|v| pred(v) == Ok(false)));
                assert_eq!(Ok(input[n].deep_copy()), found);
            },
            Err(e) => assert_eq!(Err(e), found),
        }
    }
}

#[test]
fn producer_next_yields_items_in_order() {
    let mut vp = VP::Dedup(taggu::functions::util::value_producer::Dedup::new(VP::raw(vec![
        Ok(i(1)),
        Ok(i(1)),
        Err(SENTINEL),
        Ok(i(2)),
    ])));
    assert_eq!(Some(Ok(i(1))), vp.next());
    assert_eq!(Some(Err(SENTINEL)), vp.next());
    assert_eq!(Some(Ok(i(2))), vp.next());
    assert_eq!(None, vp.next());
    assert_eq!(None, vp.next());
}

#[test]
fn stream_next_yields_items_in_order() {
    let mut sa = SA::Dedup(DedupAdaptor::new(SA::Raw(vec![Ok(i(3)), Ok(i(3)), Ok(i(4))])));
    assert_eq!(Some(Ok(i(3))), sa.next());
    assert_eq!(Some(Ok(i(4))), sa.next());
    assert_eq!(None, sa.next());
}

fn sq(v: &[i64]) -> MetaVal {
    MetaVal::Sequence(v.iter().map(|n| i(*n)).collect())
}

/// Sequences of which some hold equal elements only, with an error and a
/// value that is no sequence among them.
fn mixed_sequences() -> Items {
    vec![Ok(sq(&[1, 1])), Ok(sq(&[1, 2])), Err(SENTINEL), Ok(sq(&[])), Ok(i(3)), Ok(sq(&[4, 4, 4])), Ok(sq(&[5, 6]))]
}

#[test]
fn imp_test_filter() {
    let cases: Vec<(Items, Items)> = vec![
        (vec![], vec![]),
        (oks(vec![sq(&[1, 2]), sq(&[3, 4])]), vec![]),
        (oks(vec![sq(&[1, 1]), sq(&[]), sq(&[2])]), oks(vec![sq(&[1, 1]), sq(&[]), sq(&[2])])),
        (
            mixed_sequences(),
            vec![Ok(sq(&[1, 1])), Err(SENTINEL), Ok(sq(&[])), Err(Error::NotSequence), Ok(sq(&[4, 4, 4]))],
        ),
    ];
    for (input, expected) in cases {
        let produced = VP::Filter(Impl::filter(VP::raw(input), UnaryPredicate::AllEqual)).into_items();
        assert_eq!(expected, produced);
    }
}

#[test]
fn imp_test_map() {
    let cases: Vec<(Items, UnaryConverter, Items)> = vec![
        (vec![], UnaryConverter::Sum, vec![]),
        (oks(vec![sq(&[1, 2]), sq(&[]), sq(&[4, 5, 6])]), UnaryConverter::Sum, oks(vec![i(3), i(0), i(15)])),
        (oks(vec![sq(&[1, 2]), sq(&[]), sq(&[4, 5, 6])]), UnaryConverter::Count, oks(vec![i(2), i(0), i(3)])),
        (
            oks(vec![sq(&[1, 2]), sq(&[])]),
            UnaryConverter::First,
            vec![Ok(i(1)), Err(Error::EmptySequence)],
        ),
        (
            mixed_sequences(),
            UnaryConverter::Predicate(UnaryPredicate::AllEqual),
            vec![
                Ok(MetaVal::Bul(true)),
                Ok(MetaVal::Bul(false)),
                Err(SENTINEL),
                Ok(MetaVal::Bul(true)),
                Err(Error::NotSequence),
                Ok(MetaVal::Bul(true)),
                Ok(MetaVal::Bul(false)),
            ],
        ),
        (
            vec![Ok(sq(&[3, 1, 2])), Err(SENTINEL), Ok(i(7))],
            UnaryConverter::Sort,
            vec![Ok(sq(&[1, 2, 3])), Err(SENTINEL), Err(Error::NotSequence)],
        ),
    ];
    for (input, conv, expected) in cases {
        let produced = VP::MapEach(Impl::map(VP::raw(input), conv)).into_items();
        assert_eq!(expected, produced);
    }
}

#[test]
fn imp_test_skip_while() {
    let cases: Vec<(Items, Items)> = vec![
        (vec![], vec![]),
        (oks(vec![sq(&[1, 1]), sq(&[])]), vec![]),
        (oks(vec![sq(&[1, 2]), sq(&[1, 1])]), oks(vec![sq(&[1, 2]), sq(&[1, 1])])),
        (
            mixed_sequences(),
            vec![Ok(sq(&[1, 2])), Err(SENTINEL), Ok(sq(&[])), Ok(i(3)), Ok(sq(&[4, 4, 4])), Ok(sq(&[5, 6]))],
        ),
        (
            vec![Err(SENTINEL), Ok(sq(&[2, 2])), Ok(i(3)), Ok(sq(&[5, 6])), Ok(sq(&[7, 7]))],
            vec![Err(SENTINEL), Err(Error::NotSequence), Ok(sq(&[5, 6])), Ok(sq(&[7, 7]))],
        ),
    ];
    for (input, expected) in cases {
        let produced = VP::SkipWhile(Impl::skip_while(VP::raw(input), UnaryPredicate::AllEqual)).into_items();
        assert_eq!(expected, produced);
    }
}

#[test]
fn imp_test_take_while() {
    let cases: Vec<(Items, Items)> = vec![
        (vec![], vec![]),
        (oks(vec![sq(&[1, 1]), sq(&[])]), oks(vec![sq(&[1, 1]), sq(&[])])),
        (oks(vec![sq(&[1, 2]), sq(&[1, 1])]), vec![]),
        (mixed_sequences(), vec![Ok(sq(&[1, 1]))]),
        (
            vec![Err(SENTINEL), Ok(sq(&[2, 2])), Ok(i(3)), Ok(sq(&[5, 6])), Ok(sq(&[7, 7]))],
            vec![Err(SENTINEL), Ok(sq(&[2, 2])), Err(Error::NotSequence)],
        ),
    ];
    for (input, expected) in cases {
        let produced = VP::TakeWhile(Impl::take_while(VP::raw(input), UnaryPredicate::AllEqual)).into_items();
        assert_eq!(expected, produced);
    }
}
