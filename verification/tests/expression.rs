use taggu::functions::expr::{BinaryOp as ArgBinaryOp, Expr, Thunk as ArgThunk, UnaryOp as ArgUnaryOp};
use taggu::functions::expression::{Expression, Thunk};
use taggu::functions::operand::Operand;
use taggu::functions::operator::binary::Op as BinaryOp;
use taggu::functions::operator::unary::Op as UnaryOp;
use taggu::functions::Error;
use taggu::metadata::types::MetaVal;

fn i(n: i64) -> MetaVal {
    MetaVal::Int(n)
}

fn seq(v: Vec<MetaVal>) -> MetaVal {
    MetaVal::Sequence(v)
}

fn value_operand(mv: MetaVal) -> Thunk {
    Thunk::Operand(Operand::Value(mv))
}

/// A value result as a value; any other operand as `None`.
fn value(r: Result<Operand, Error>) -> Result<Option<MetaVal>, Error> {
    r.map(|o| match o {
        Operand::Value(mv) => Some(mv),
        _ => None,
    })
}

#[test]
fn expression_applies_the_operator_to_an_operand() {
    let e = Expression::Unary(UnaryOp::Count, value_operand(seq(vec![i(1), i(2), i(3)])));
    assert!(matches!(e.eval(), Ok(Operand::Usize(3))));
}

#[test]
fn expression_evaluates_from_the_inside_out() {
    let inner = Expression::Unary(UnaryOp::First, value_operand(seq(vec![i(5), i(6)])));
    let e = Expression::Unary(UnaryOp::Neg, Thunk::Expression(Box::new(inner)));
    assert_eq!(Ok(Some(i(-5))), value(e.eval()));

    let rev = Expression::Unary(UnaryOp::Rev, value_operand(seq(vec![i(1), i(2), i(3)])));
    let e = Expression::Binary(BinaryOp::Nth, Thunk::Expression(Box::new(rev)), Thunk::Operand(Operand::Usize(0)));
    assert_eq!(Ok(Some(i(3))), value(e.eval()));
}

#[test]
fn expression_stops_at_the_first_error() {
    let inner = Expression::Unary(UnaryOp::First, value_operand(seq(vec![])));
    let e = Expression::Unary(UnaryOp::Sum, Thunk::Expression(Box::new(inner)));
    assert_eq!(Err(Error::EmptySequence), value(e.eval()));

    let bad = Expression::Unary(UnaryOp::Not, value_operand(i(1)));
    let e = Expression::Binary(
        BinaryOp::Nth,
        Thunk::Expression(Box::new(bad)),
        Thunk::Expression(Box::new(Expression::Unary(UnaryOp::First, value_operand(seq(vec![])))))
    );
    assert_eq!(Err(Error::InvalidOperand), value(e.eval()));
}

#[test]
fn thunk_of_an_operand_gives_it() {
    assert_eq!(Ok(Some(i(7))), value(value_operand(i(7)).eval()));
}

#[test]
fn expr_evaluates_arguments_and_operators() {
    let inner = Expr::Unary(ArgUnaryOp::Sort, ArgThunk::Arg(Operand::Value(seq(vec![i(3), i(1), i(2)]))));
    let e = Expr::Binary(ArgBinaryOp::Nth, ArgThunk::Expr(Box::new(inner)), ArgThunk::Arg(Operand::Usize(2)));
    assert_eq!(Ok(Some(i(3))), value(e.eval()));

    let e = Expr::Binary(
        ArgBinaryOp::Take,
        ArgThunk::Arg(Operand::Value(seq(vec![i(3), i(1), i(2)]))),
        ArgThunk::Arg(Operand::Usize(2)),
    );
    assert_eq!(Ok(Some(seq(vec![i(3), i(1)]))), value(e.eval()));

    let e = Expr::Unary(ArgUnaryOp::Abs, ArgThunk::Arg(Operand::Value(MetaVal::Bul(true))));
    assert_eq!(Err(Error::NotNumeric), value(e.eval()));
    assert_eq!(Ok(Some(i(4))), value(ArgThunk::Arg(Operand::Value(i(4))).eval()));
}
