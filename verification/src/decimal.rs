//! Exact decimal numbers, kept in a canonical form so that two decimals are
//! structurally equal exactly when they denote the same number.

use vstd::prelude::*;

verus! {

/// The largest magnitude of a mantissa: 96 bits.
pub const MAX_MANTISSA: i128 = 79228162514264337593543950335i128;

/// The largest number of digits after the decimal point.
pub const MAX_SCALE: u32 = 28u32;

/// Ten to the power `n`.
pub open spec fn pow10(n: nat) -> int
    decreases n,
{
    if n == 0 {
        1
    } else {
        10 * pow10((n - 1) as nat)
    }
}

pub proof fn lemma_pow10_positive(n: nat)
    ensures
        pow10(n) > 0,
    decreases n,
{
    if n > 0 {
        lemma_pow10_positive((n - 1) as nat);
    }
}

/// A decimal number `mantissa / 10^scale`, in canonical form: no trailing
/// zero digits after the decimal point, and zero has scale 0.
#[derive(Clone, Copy, Debug, PartialEq, Eq, Structural, Hash)]
pub struct Decimal {
    pub mantissa: i128,
    pub scale: u32,
}

/// The canonical-form condition on a mantissa and scale.
pub open spec fn parts_canonical(m: int, s: int) -> bool {
    &&& -MAX_MANTISSA <= m <= MAX_MANTISSA
    &&& 0 <= s <= MAX_SCALE
    &&& (s == 0 || m % 10 != 0)
}

/// The number `m / 10^s`, multiplied by `10^28` so that it is an integer.
pub open spec fn scaled_value(m: int, s: nat) -> int {
    m * pow10((MAX_SCALE - s) as nat)
}

impl Decimal {
    /// Well-formedness: the parts are in range and in canonical form.
    pub open spec fn wf(self) -> bool {
        parts_canonical(self.mantissa as int, self.scale as int)
    }

    /// The number this decimal denotes, times `10^28`.
    pub open spec fn scaled(self) -> int {
        scaled_value(self.mantissa as int, self.scale as nat)
    }

    pub fn mantissa(&self) -> (r: i128)
        ensures
            r == self.mantissa,
    {
        self.mantissa
    }

    pub fn scale(&self) -> (r: u32)
        ensures
            r == self.scale,
    {
        self.scale
    }

    /// Builds the decimal `num / 10^scale`.
    pub fn new(num: i64, scale: u32) -> (r: Decimal)
        requires
            scale <= MAX_SCALE,
        ensures
            r.wf(),
            r.scaled() == scaled_value(num as int, scale as nat),
            r == canonical_decimal(num as int, scale as nat),
    {
        let (m, s) = normalize_parts(num as i128, scale);
        Decimal { mantissa: m, scale: s }
    }

    /// Builds the decimal with the same value as an integer.
    pub fn from_int(i: i64) -> (r: Decimal)
        ensures
            r.wf(),
            r.scaled() == scaled_value(i as int, 0),
            r == canonical_decimal(i as int, 0),
    {
        Decimal::new(i, 0)
    }

    /// The negation of a decimal.
    pub fn negated(&self) -> (r: Decimal)
        requires
            self.wf(),
        ensures
            r.wf(),
            r.mantissa == -self.mantissa,
            r.scale == self.scale,
            r.scaled() == -self.scaled(),
    {
        let r = Decimal { mantissa: -self.mantissa, scale: self.scale };
        proof {
            assert((-self.mantissa as int) % 10 == 0 ==> (self.mantissa as int) % 10 == 0)
                by (nonlinear_arith);
            assert(r.scaled() == -self.scaled()) by (nonlinear_arith)
                requires
                    r.scaled() == (-self.mantissa as int) * pow10((MAX_SCALE - self.scale) as nat),
                    self.scaled() == (self.mantissa as int) * pow10((MAX_SCALE - self.scale) as nat),
            ;
        }
        r
    }

    /// The absolute value of a decimal.
    pub fn abs(&self) -> (r: Decimal)
        requires
            self.wf(),
        ensures
            r.wf(),
            r.scale == self.scale,
            r.mantissa == if self.mantissa < 0 { -self.mantissa } else { self.mantissa as int },
    {
        if self.mantissa < 0 {
            self.negated()
        } else {
            *self
        }
    }
}

/// The decimal whose parts are the canonical form of `m / 10^s`.
pub open spec fn canonical_decimal(m: int, s: nat) -> Decimal {
    Decimal { mantissa: strip_zeros(m, s).0 as i128, scale: strip_zeros(m, s).1 as u32 }
}

/// What `rust_decimal`'s checked addition gives for two decimals, as parts.
pub uninterp spec fn decimal_sum_parts(a_m: i128, a_s: u32, b_m: i128, b_s: u32) -> Option<(i128, u32)>;

/// What `rust_decimal`'s checked multiplication gives for two decimals, as parts.
pub uninterp spec fn decimal_product_parts(a_m: i128, a_s: u32, b_m: i128, b_s: u32) -> Option<(i128, u32)>;

/// -1, 0 or 1 as `a_m / 10^a_s` is less than, equal to or greater than
/// `b_m / 10^b_s`.
pub open spec fn parts_order(a_m: i128, a_s: u32, b_m: i128, b_s: u32) -> i8 {
    if scaled_value(a_m as int, a_s as nat) < scaled_value(b_m as int, b_s as nat) {
        -1i8
    } else if scaled_value(a_m as int, a_s as nat) == scaled_value(b_m as int, b_s as nat) {
        0i8
    } else {
        1i8
    }
}

/// Compares the numbers `a_m / 10^a_s` and `b_m / 10^b_s` with
/// `rust_decimal::Decimal`'s `Ord::cmp`, which orders decimals by their
/// numeric value. Claimed: -1, 0 or 1 as the first is less than, equal to or
/// greater than the second.
#[verifier::external_body]
fn numeric_order_of_parts(a_m: i128, a_s: u32, b_m: i128, b_s: u32) -> (r: i8)
    requires
        -MAX_MANTISSA <= a_m <= MAX_MANTISSA,
        a_s <= MAX_SCALE,
        -MAX_MANTISSA <= b_m <= MAX_MANTISSA,
        b_s <= MAX_SCALE,
    ensures
        r == parts_order(a_m, a_s, b_m, b_s),
{
    let a = rust_decimal::Decimal::from_i128_with_scale(a_m, a_s);
    let b = rust_decimal::Decimal::from_i128_with_scale(b_m, b_s);
    match a.cmp(&b) {
        core::cmp::Ordering::Less => -1,
        core::cmp::Ordering::Equal => 0,
        core::cmp::Ordering::Greater => 1,
    }
}

/// Adds two decimals with `rust_decimal::Decimal::checked_add` and returns the
/// mantissa and scale of the result. Claimed: the result is the named
/// `decimal_sum_parts` of the arguments, and its parts are within the 96-bit,
/// scale-28 range of `rust_decimal`. The value of the sum (which the crate
/// may round) is left unsaid.
#[verifier::external_body]
fn sum_of_parts(a_m: i128, a_s: u32, b_m: i128, b_s: u32) -> (r: Option<(i128, u32)>)
    requires
        -MAX_MANTISSA <= a_m <= MAX_MANTISSA,
        a_s <= MAX_SCALE,
        -MAX_MANTISSA <= b_m <= MAX_MANTISSA,
        b_s <= MAX_SCALE,
    ensures
        r == decimal_sum_parts(a_m, a_s, b_m, b_s),
        r matches Some((m, s)) ==> -MAX_MANTISSA <= m <= MAX_MANTISSA && s <= MAX_SCALE,
{
    let a = rust_decimal::Decimal::from_i128_with_scale(a_m, a_s);
    let b = rust_decimal::Decimal::from_i128_with_scale(b_m, b_s);
    a.checked_add(b).map(|d| (d.mantissa(), d.scale()))
}

/// Multiplies two decimals with `rust_decimal::Decimal::checked_mul` and
/// returns the mantissa and scale of the result. Claimed: the result is the
/// named `decimal_product_parts` of the arguments, and its parts are within
/// the 96-bit, scale-28 range of `rust_decimal`. The value of the product
/// (which the crate may round) is left unsaid.
#[verifier::external_body]
fn product_of_parts(a_m: i128, a_s: u32, b_m: i128, b_s: u32) -> (r: Option<(i128, u32)>)
    requires
        -MAX_MANTISSA <= a_m <= MAX_MANTISSA,
        a_s <= MAX_SCALE,
        -MAX_MANTISSA <= b_m <= MAX_MANTISSA,
        b_s <= MAX_SCALE,
    ensures
        r == decimal_product_parts(a_m, a_s, b_m, b_s),
        r matches Some((m, s)) ==> -MAX_MANTISSA <= m <= MAX_MANTISSA && s <= MAX_SCALE,
{
    let a = rust_decimal::Decimal::from_i128_with_scale(a_m, a_s);
    let b = rust_decimal::Decimal::from_i128_with_scale(b_m, b_s);
    a.checked_mul(b).map(|d| (d.mantissa(), d.scale()))
}

impl Decimal {
    /// Numeric order: -1, 0 or 1 as `self` is less than, equal to or greater
    /// than `other`.
    pub fn numeric_order(&self, other: &Decimal) -> (r: i8)
        requires
            self.wf(),
            other.wf(),
        ensures
            r == (if self.scaled() < other.scaled() {
                -1i8
            } else if self.scaled() == other.scaled() {
                0i8
            } else {
                1i8
            }),
    {
        numeric_order_of_parts(self.mantissa, self.scale, other.mantissa, other.scale)
    }

    /// Checked addition; `None` on overflow.
    pub fn checked_add(&self, other: &Decimal) -> (r: Option<Decimal>)
        requires
            self.wf(),
            other.wf(),
        ensures
            r == (match decimal_sum_parts(self.mantissa, self.scale, other.mantissa, other.scale) {
                Some(p) => Some(canonical_decimal(p.0 as int, p.1 as nat)),
                None => None,
            }),
            r matches Some(d) ==> d.wf(),
    {
        match sum_of_parts(self.mantissa, self.scale, other.mantissa, other.scale) {
            Some((m, s)) => {
                let (nm, ns) = normalize_parts(m, s);
                Some(Decimal { mantissa: nm, scale: ns })
            },
            None => None,
        }
    }

    /// Checked multiplication; `None` on overflow.
    pub fn checked_mul(&self, other: &Decimal) -> (r: Option<Decimal>)
        requires
            self.wf(),
            other.wf(),
        ensures
            r == (match decimal_product_parts(
                self.mantissa,
                self.scale,
                other.mantissa,
                other.scale,
            ) {
                Some(p) => Some(canonical_decimal(p.0 as int, p.1 as nat)),
                None => None,
            }),
            r matches Some(d) ==> d.wf(),
    {
        match product_of_parts(self.mantissa, self.scale, other.mantissa, other.scale) {
            Some((m, s)) => {
                let (nm, ns) = normalize_parts(m, s);
                Some(Decimal { mantissa: nm, scale: ns })
            },
            None => None,
        }
    }
}

proof fn lemma_strip_zero_digit(a: int, s: nat)
    requires
        a % 10 == 0,
        1 <= s <= MAX_SCALE,
    ensures
        scaled_value(a / 10, (s - 1) as nat) == scaled_value(a, s),
{
    let p = pow10((MAX_SCALE - s) as nat);
    assert(pow10((MAX_SCALE - (s - 1)) as nat) == 10 * p);
    assert((a / 10) * (10 * p) == a * p) by (nonlinear_arith)
        requires
            a % 10 == 0,
    ;
}

/// The parts with trailing zero digits after the decimal point removed.
pub open spec fn strip_zeros(m: int, s: nat) -> (int, nat)
    decreases s,
{
    if s > 0 && m % 10 == 0 {
        strip_zeros(m / 10, (s - 1) as nat)
    } else {
        (m, s)
    }
}

/// Removes trailing zero digits after the decimal point.
fn normalize_parts(m: i128, s: u32) -> (r: (i128, u32))
    requires
        -MAX_MANTISSA <= m <= MAX_MANTISSA,
        s <= MAX_SCALE,
    ensures
        parts_canonical(r.0 as int, r.1 as int),
        scaled_value(r.0 as int, r.1 as nat) == scaled_value(m as int, s as nat),
        (r.0 as int, r.1 as nat) == strip_zeros(m as int, s as nat),
{
    let neg = m < 0;
    let mut a: u128 = if neg { (-m) as u128 } else { m as u128 };
    let mut sc: u32 = s;
    while sc > 0 && a % 10 == 0
        invariant
            a <= MAX_MANTISSA,
            sc <= s,
            s <= MAX_SCALE,
            scaled_value(if neg { -(a as int) } else { a as int }, sc as nat) == scaled_value(
                m as int,
                s as nat,
            ),
            strip_zeros(if neg { -(a as int) } else { a as int }, sc as nat) == strip_zeros(
                m as int,
                s as nat,
            ),
        decreases sc,
    {
        proof {
            let v = if neg { -(a as int) } else { a as int };
            assert(v % 10 == 0) by (nonlinear_arith)
                requires
                    (a as int) % 10 == 0,
                    v == a as int || v == -(a as int),
            ;
            lemma_strip_zero_digit(v, sc as nat);
            assert((if neg { -((a / 10) as int) } else { (a / 10) as int }) == v / 10)
                by (nonlinear_arith)
                requires
                    (a as int) % 10 == 0,
                    v == if neg { -(a as int) } else { a as int },
            ;
        }
        a = a / 10;
        sc = sc - 1;
    }
    let r_m: i128 = if neg { -(a as i128) } else { a as i128 };
    proof {
        let v = r_m as int;
        assert(sc == 0 || v % 10 != 0) by (nonlinear_arith)
            requires
                sc == 0 || (a as int) % 10 != 0,
                v == a as int || v == -(a as int),
        ;
    }
    proof {
        let v = r_m as int;
        assert(v % 10 != 0 || sc == 0);
        assert(strip_zeros(v, sc as nat) == (v, sc as nat));
    }
    (r_m, sc)
}

} // verus!
