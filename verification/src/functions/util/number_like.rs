//! Values that behave as numbers: integers and decimals, compared and
//! combined by their numeric values.

use vstd::prelude::*;

use core::cmp::Ordering;

use crate::decimal::{Decimal, canonical_decimal, decimal_sum_parts, decimal_product_parts, scaled_value};
use crate::decimal::{lemma_pow10_positive, MAX_SCALE};
use crate::functions::Error;
use crate::metadata::types::{MetaVal, ValView};

verus! {

/// A numeric value: an integer or a decimal.
#[derive(Clone, Copy, Debug, PartialEq, Eq, Structural, Hash)]
pub enum NumberLike {
    Integer(i64),
    Decimal(Decimal),
}

/// The canonical decimal with the value of an integer.
pub open spec fn int_decimal(i: i64) -> Decimal {
    canonical_decimal(i as int, 0)
}

/// What checked decimal addition gives, in canonical form.
pub open spec fn decimal_sum(a: Decimal, b: Decimal) -> Option<Decimal> {
    match decimal_sum_parts(a.mantissa, a.scale, b.mantissa, b.scale) {
        Some(p) => Some(canonical_decimal(p.0 as int, p.1 as nat)),
        None => None,
    }
}

/// What checked decimal multiplication gives, in canonical form.
pub open spec fn decimal_product(a: Decimal, b: Decimal) -> Option<Decimal> {
    match decimal_product_parts(a.mantissa, a.scale, b.mantissa, b.scale) {
        Some(p) => Some(canonical_decimal(p.0 as int, p.1 as nat)),
        None => None,
    }
}

/// The sum of two numbers: integers add exactly (`None` past the range of
/// `i64`); a decimal operand makes the sum a decimal.
pub open spec fn number_sum(a: NumberLike, b: NumberLike) -> Option<NumberLike> {
    match (a, b) {
        (NumberLike::Integer(l), NumberLike::Integer(r)) => if i64::MIN <= l + r <= i64::MAX {
            Some(NumberLike::Integer((l + r) as i64))
        } else {
            None
        },
        (NumberLike::Integer(l), NumberLike::Decimal(r)) => match decimal_sum(int_decimal(l), r) {
            Some(d) => Some(NumberLike::Decimal(d)),
            None => None,
        },
        (NumberLike::Decimal(l), NumberLike::Integer(r)) => match decimal_sum(l, int_decimal(r)) {
            Some(d) => Some(NumberLike::Decimal(d)),
            None => None,
        },
        (NumberLike::Decimal(l), NumberLike::Decimal(r)) => match decimal_sum(l, r) {
            Some(d) => Some(NumberLike::Decimal(d)),
            None => None,
        },
    }
}

/// The product of two numbers, with the same typing rules as the sum.
pub open spec fn number_product(a: NumberLike, b: NumberLike) -> Option<NumberLike> {
    match (a, b) {
        (NumberLike::Integer(l), NumberLike::Integer(r)) => if i64::MIN <= l * r <= i64::MAX {
            Some(NumberLike::Integer((l * r) as i64))
        } else {
            None
        },
        (NumberLike::Integer(l), NumberLike::Decimal(r)) => match decimal_product(
            int_decimal(l),
            r,
        ) {
            Some(d) => Some(NumberLike::Decimal(d)),
            None => None,
        },
        (NumberLike::Decimal(l), NumberLike::Integer(r)) => match decimal_product(
            l,
            int_decimal(r),
        ) {
            Some(d) => Some(NumberLike::Decimal(d)),
            None => None,
        },
        (NumberLike::Decimal(l), NumberLike::Decimal(r)) => match decimal_product(l, r) {
            Some(d) => Some(NumberLike::Decimal(d)),
            None => None,
        },
    }
}

/// The number a value denotes, if it is numeric.
pub open spec fn number_of(v: ValView) -> Option<NumberLike> {
    match v {
        ValView::Int(i) => Some(NumberLike::Integer(i as i64)),
        ValView::Dec(d) => Some(NumberLike::Decimal(d)),
        _ => None,
    }
}

/// The value that denotes a number.
pub open spec fn value_of(n: NumberLike) -> ValView {
    match n {
        NumberLike::Integer(i) => ValView::Int(i as int),
        NumberLike::Decimal(d) => ValView::Dec(d),
    }
}

proof fn lemma_int_scaled_order(l: i64, r: i64)
    ensures
        (l < r) == (scaled_value(l as int, 0) < scaled_value(r as int, 0)),
        (l == r) == (scaled_value(l as int, 0) == scaled_value(r as int, 0)),
{
    let p = crate::decimal::pow10((MAX_SCALE - 0) as nat);
    lemma_pow10_positive((MAX_SCALE - 0) as nat);
    assert((l < r) == ((l as int) * p < (r as int) * p)) by (nonlinear_arith)
        requires
            p > 0,
    ;
    assert((l == r) == ((l as int) * p == (r as int) * p)) by (nonlinear_arith)
        requires
            p > 0,
    ;
}

impl NumberLike {
    /// Well-formedness: a decimal is in canonical form.
    pub open spec fn wf(self) -> bool {
        match self {
            NumberLike::Integer(_) => true,
            NumberLike::Decimal(d) => d.wf(),
        }
    }

    /// The numeric value, times `10^28`.
    pub open spec fn scaled(self) -> int {
        match self {
            NumberLike::Integer(i) => scaled_value(i as int, 0),
            NumberLike::Decimal(d) => d.scaled(),
        }
    }

    /// -1, 0 or 1 as `self` is numerically less than, equal to or greater
    /// than `other`.
    pub fn numeric_order(&self, other: &Self) -> (r: i8)
        requires
            self.wf(),
            other.wf(),
        ensures
            r == (if self.scaled() < other.scaled() {
                -1i8
            } else if self.scaled() == other.scaled() {
                0i8
            } else {
                1i8
            }),
    {
        match (self, other) {
            (NumberLike::Integer(l), NumberLike::Integer(r)) => {
                proof {
                    lemma_int_scaled_order(*l, *r);
                }
                if *l < *r {
                    -1
                } else if *l == *r {
                    0
                } else {
                    1
                }
            },
            (NumberLike::Integer(l), NumberLike::Decimal(r)) => Decimal::from_int(
                *l,
            ).numeric_order(r),
            (NumberLike::Decimal(l), NumberLike::Integer(r)) => l.numeric_order(
                &Decimal::from_int(*r),
            ),
            (NumberLike::Decimal(l), NumberLike::Decimal(r)) => l.numeric_order(r),
        }
    }

    /// Compares by numeric value; a whole decimal compares equal to the
    /// integer with its value.
    pub fn val_cmp(&self, other: &Self) -> (r: Ordering)
        requires
            self.wf(),
            other.wf(),
        ensures
            (r == Ordering::Less) == (self.scaled() < other.scaled()),
            (r == Ordering::Equal) == (self.scaled() == other.scaled()),
            (r == Ordering::Greater) == (self.scaled() > other.scaled()),
    {
        let o = self.numeric_order(other);
        if o < 0 {
            Ordering::Less
        } else if o == 0 {
            Ordering::Equal
        } else {
            Ordering::Greater
        }
    }

    /// Whether the two numbers have the same numeric value.
    pub fn val_eq(&self, other: &Self) -> (r: bool)
        requires
            self.wf(),
            other.wf(),
        ensures
            r == (self.scaled() == other.scaled()),
    {
        self.numeric_order(other) == 0
    }

    /// The larger of two numbers; the second when they are equal.
    pub fn val_max(self, other: Self) -> (r: Self)
        requires
            self.wf(),
            other.wf(),
        ensures
            r == (if self.scaled() > other.scaled() { self } else { other }),
    {
        if self.numeric_order(&other) > 0 {
            self
        } else {
            other
        }
    }

    /// The smaller of two numbers; the first when they are equal.
    pub fn val_min(self, other: Self) -> (r: Self)
        requires
            self.wf(),
            other.wf(),
        ensures
            r == (if self.scaled() > other.scaled() { other } else { self }),
    {
        if self.numeric_order(&other) > 0 {
            other
        } else {
            self
        }
    }

    /// The sum of two numbers; `None` on overflow.
    pub fn checked_add(self, other: Self) -> (r: Option<Self>)
        requires
            self.wf(),
            other.wf(),
        ensures
            r == number_sum(self, other),
            r matches Some(n) ==> n.wf(),
    {
        match (self, other) {
            (NumberLike::Integer(l), NumberLike::Integer(r)) => match l.checked_add(r) {
                Some(s) => Some(NumberLike::Integer(s)),
                None => None,
            },
            (NumberLike::Integer(l), NumberLike::Decimal(r)) => match Decimal::from_int(
                l,
            ).checked_add(&r) {
                Some(d) => Some(NumberLike::Decimal(d)),
                None => None,
            },
            (NumberLike::Decimal(l), NumberLike::Integer(r)) => match l.checked_add(
                &Decimal::from_int(r),
            ) {
                Some(d) => Some(NumberLike::Decimal(d)),
                None => None,
            },
            (NumberLike::Decimal(l), NumberLike::Decimal(r)) => match l.checked_add(&r) {
                Some(d) => Some(NumberLike::Decimal(d)),
                None => None,
            },
        }
    }

    /// The product of two numbers; `None` on overflow.
    pub fn checked_mul(self, other: Self) -> (r: Option<Self>)
        requires
            self.wf(),
            other.wf(),
        ensures
            r == number_product(self, other),
            r matches Some(n) ==> n.wf(),
    {
        match (self, other) {
            (NumberLike::Integer(l), NumberLike::Integer(r)) => match l.checked_mul(r) {
                Some(s) => Some(NumberLike::Integer(s)),
                None => None,
            },
            (NumberLike::Integer(l), NumberLike::Decimal(r)) => match Decimal::from_int(
                l,
            ).checked_mul(&r) {
                Some(d) => Some(NumberLike::Decimal(d)),
                None => None,
            },
            (NumberLike::Decimal(l), NumberLike::Integer(r)) => match l.checked_mul(
                &Decimal::from_int(r),
            ) {
                Some(d) => Some(NumberLike::Decimal(d)),
                None => None,
            },
            (NumberLike::Decimal(l), NumberLike::Decimal(r)) => match l.checked_mul(&r) {
                Some(d) => Some(NumberLike::Decimal(d)),
                None => None,
            },
        }
    }

    /// The number a value denotes; `NotNumeric` for a non-numeric value.
    pub fn try_from_val(mv: MetaVal) -> (r: Result<Self, Error>)
        ensures
            r == (match number_of(mv@) {
                Some(n) => Ok(n),
                None => Err(Error::NotNumeric),
            }),
    {
        match mv {
            MetaVal::Int(i) => Ok(NumberLike::Integer(i)),
            MetaVal::Dec(d) => Ok(NumberLike::Decimal(d)),
            _ => Err(Error::NotNumeric),
        }
    }

    /// The value that denotes this number.
    pub fn to_val(self) -> (r: MetaVal)
        ensures
            r@ == value_of(self),
    {
        match self {
            NumberLike::Integer(i) => MetaVal::Int(i),
            NumberLike::Decimal(d) => MetaVal::Dec(d),
        }
    }
}

} // verus!
