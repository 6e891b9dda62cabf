//! Decimal money amounts.
//!
//! `Amount` holds, as plain values, what a `rust_decimal::Decimal` holds: a sign flag,
//! a 96-bit magnitude and a decimal scale in `0..=28`. Arithmetic is delegated to
//! `rust_decimal`; comparison, sign handling and the named constants are stated here.

use vstd::prelude::*;
use rust_decimal::Decimal;
use vstd::std_specs::cmp::PartialEqSpecImpl;

verus! {

/// `10^n`.
pub open spec fn pow10(n: nat) -> nat
    decreases n,
{
    if n == 0 {
        1
    } else {
        10 * pow10((n - 1) as nat)
    }
}

/// `2^96`: magnitudes of decimals stay strictly below it.
pub open spec fn digits_limit() -> nat {
    0x1_0000_0000_0000_0000_0000_0000
}

/// The largest scale a decimal may carry.
pub open spec fn max_scale() -> nat {
    28
}

/// Mathematical view of a decimal: `(-1)^negative * digits / 10^scale`.
pub struct DecimalView {
    pub negative: bool,
    pub digits: nat,
    pub scale: nat,
}

impl DecimalView {
    pub open spec fn wf(self) -> bool {
        &&& self.digits < digits_limit()
        &&& self.scale <= max_scale()
    }

    /// The signed mantissa.
    pub open spec fn signed(self) -> int {
        if self.negative {
            -(self.digits as int)
        } else {
            self.digits as int
        }
    }

    /// The value counted in units of `10^-28`.
    pub open spec fn units(self) -> int {
        self.signed() * pow10((max_scale() - self.scale) as nat)
    }

    pub open spec fn is_zero(self) -> bool {
        self.digits == 0
    }
}

/// `|x|`.
pub open spec fn abs_int(x: int) -> int {
    if x < 0 {
        -x
    } else {
        x
    }
}

pub open spec fn max_nat(a: nat, b: nat) -> nat {
    if a >= b {
        a
    } else {
        b
    }
}

/// The signed mantissa of `v` rescaled to scale `m`.
pub open spec fn aligned(v: DecimalView, m: nat) -> int {
    v.signed() * pow10((m - v.scale) as nat)
}

/// Exact results whose magnitude stays below this many units never overflow.
pub open spec fn overflow_units() -> int {
    (digits_limit() - 1) * pow10(max_scale())
}

/// Both operands, brought to the larger of their two scales, and `combined`, the result
/// of adding or subtracting them there, fit in 96 bits.
pub open spec fn fits_aligned(a: DecimalView, b: DecimalView, combined: int) -> bool {
    let m = max_nat(a.scale, b.scale);
    &&& abs_int(aligned(a, m)) < digits_limit()
    &&& abs_int(aligned(b, m)) < digits_limit()
    &&& abs_int(combined) < digits_limit()
}

/// What `Decimal + Decimal` returns (rust_decimal's rounding when the exact sum does not
/// fit in 96 bits at the larger scale).
pub uninterp spec fn decimal_sum(a: DecimalView, b: DecimalView) -> DecimalView;

/// What `Decimal - Decimal` returns.
pub uninterp spec fn decimal_difference(a: DecimalView, b: DecimalView) -> DecimalView;

/// What `Decimal * Decimal` returns.
pub uninterp spec fn decimal_product(a: DecimalView, b: DecimalView) -> DecimalView;

/// What `Decimal::from_str` returns on the given text (`None` for an error).
pub uninterp spec fn decimal_parse(text: Seq<char>) -> Option<DecimalView>;

/// What rust_decimal's addition shows of `r = a + b`: a zero operand hands back the
/// other one; two non-zero operands are aligned to the larger scale and added exactly when
/// everything fits in 96 bits; in every case the result is within one unit of the exact
/// sum.
pub open spec fn sum_facts(a: DecimalView, b: DecimalView, r: DecimalView) -> bool {
    let m = max_nat(a.scale, b.scale);
    let exact = aligned(a, m) + aligned(b, m);
    &&& r.wf()
    &&& a.is_zero() ==> r == b
    &&& !a.is_zero() && b.is_zero() ==> r == a
    &&& !a.is_zero() && !b.is_zero() && fits_aligned(a, b, exact) ==> r.scale == m && r.signed() == exact
    &&& abs_int(r.units() - (a.units() + b.units())) <= pow10(max_scale())
}

/// What rust_decimal's subtraction shows of `r = a - b`: `0 - b` is `b` with its sign
/// flipped (or `b` itself when `b` is zero), `a - 0` is `a`; otherwise as for the sum.
pub open spec fn difference_facts(a: DecimalView, b: DecimalView, r: DecimalView) -> bool {
    let m = max_nat(a.scale, b.scale);
    let exact = aligned(a, m) - aligned(b, m);
    &&& r.wf()
    &&& a.is_zero() && b.is_zero() ==> r == b
    &&& a.is_zero() && !b.is_zero() ==> r == negated(b)
    &&& !a.is_zero() && b.is_zero() ==> r == a
    &&& !a.is_zero() && !b.is_zero() && fits_aligned(a, b, exact) ==> r.scale == m && r.signed() == exact
    &&& abs_int(r.units() - (a.units() - b.units())) <= pow10(max_scale())
}

/// What rust_decimal's multiplication shows of `r = a * b`: a zero operand gives
/// `Decimal::ZERO`; otherwise magnitudes multiply, scales add and signs combine, exactly
/// when the product fits in 96 bits at a scale of at most 28; in every case the result is
/// within one unit of the exact product.
pub open spec fn product_facts(a: DecimalView, b: DecimalView, r: DecimalView) -> bool {
    &&& r.wf()
    &&& a.is_zero() || b.is_zero() ==> r == zero_view()
    &&& !a.is_zero() && !b.is_zero() && a.scale + b.scale <= max_scale() && a.digits * b.digits
        < digits_limit() ==> r == (DecimalView {
        negative: a.negative != b.negative,
        digits: a.digits * b.digits,
        scale: a.scale + b.scale,
    })
    &&& abs_int(r.units() * pow10(max_scale()) - a.units() * b.units()) <= pow10(max_scale())
        * pow10(max_scale())
}

/// The view of `v` with its sign flag flipped.
pub open spec fn negated(v: DecimalView) -> DecimalView {
    DecimalView { negative: !v.negative, digits: v.digits, scale: v.scale }
}

/// The view of `Decimal::ZERO`.
pub open spec fn zero_view() -> DecimalView {
    DecimalView { negative: false, digits: 0, scale: 0 }
}

/// `10^28`, one whole unit of money counted in `10^-28`.
pub proof fn lemma_pow10_28()
    ensures
        pow10(28) == 10000000000000000000000000000,
        pow10(26) == 100000000000000000000000000,
{
    reveal_with_fuel(pow10, 29);
}

pub proof fn lemma_zero_units()
    ensures
        zero_view().units() == 0,
        zero_view().wf(),
{
    assert(zero_view().signed() == 0);
}

/// A well-formed amount never exceeds the overflow bound.
pub proof fn lemma_units_bound(v: DecimalView)
    requires
        v.wf(),
    ensures
        abs_int(v.units()) <= overflow_units(),
        v.negative ==> v.units() <= 0,
        !v.negative ==> v.units() >= 0,
        v.units() == 0 <==> v.digits == 0,
{
    let k = (max_scale() - v.scale) as nat;
    lemma_pow10_add(k, v.scale);
    lemma_pow10_positive(k);
    lemma_pow10_positive(v.scale);
    assert(k + v.scale == max_scale());
    let p = pow10(k) as int;
    let q = pow10(v.scale) as int;
    let d = v.digits as int;
    assert(d * p <= (digits_limit() - 1) * pow10(max_scale())) by (nonlinear_arith)
        requires
            0 <= d <= digits_limit() - 1,
            1 <= p,
            1 <= q,
            p * q == pow10(max_scale()),
    ;
    assert(d * p >= 0) by (nonlinear_arith)
        requires d >= 0, p >= 1;
    assert(d * p == 0 <==> d == 0) by (nonlinear_arith)
        requires d >= 0, p >= 1;
    if v.negative {
        assert(v.units() == -(d * p)) by (nonlinear_arith)
            requires v.units() == -d * p;
    }
}

/// `units` of amounts whose scale is at most `t`, small enough to stay exact there.
pub open spec fn exact_room(t: nat) -> int {
    (digits_limit() * pow10((max_scale() - t) as nat)) as int
}

pub proof fn lemma_pow10_monotone(a: nat, b: nat)
    requires
        a <= b,
    ensures
        pow10(a) <= pow10(b),
{
    lemma_pow10_add(a, (b - a) as nat);
    lemma_pow10_positive(a);
    lemma_pow10_positive((b - a) as nat);
    let x = pow10(a) as int;
    let y = pow10((b - a) as nat) as int;
    assert(x <= x * y) by (nonlinear_arith)
        requires x >= 1, y >= 1;
}

/// Rescaling to a larger scale keeps the value.
pub proof fn lemma_aligned_units(v: DecimalView, m: nat)
    requires
        v.scale <= m <= max_scale(),
    ensures
        aligned(v, m) * pow10((max_scale() - m) as nat) == v.units(),
{
    let k1 = (m - v.scale) as nat;
    let k2 = (max_scale() - m) as nat;
    lemma_pow10_add(k1, k2);
    assert(k1 + k2 == (max_scale() - v.scale) as nat);
    let p1 = pow10(k1) as int;
    let p2 = pow10(k2) as int;
    let g = v.signed();
    assert(g * p1 * p2 == g * (p1 * p2)) by (nonlinear_arith);
}

proof fn lemma_fits_from_room(v: DecimalView, m: nat, t: nat)
    requires
        v.scale <= m <= t <= max_scale(),
        abs_int(v.units()) < exact_room(t),
    ensures
        abs_int(aligned(v, m)) < digits_limit(),
{
    lemma_aligned_units(v, m);
    lemma_pow10_monotone((max_scale() - t) as nat, (max_scale() - m) as nat);
    lemma_pow10_positive((max_scale() - t) as nat);
    let a = aligned(v, m);
    let p = pow10((max_scale() - m) as nat) as int;
    let q = pow10((max_scale() - t) as nat) as int;
    let l = digits_limit() as int;
    assert(abs_int(a) < l) by (nonlinear_arith)
        requires
            a * p == v.units(),
            abs_int(v.units()) < l * q,
            1 <= q <= p,
            l > 0,
    ;
}

proof fn lemma_combined_fits(x: int, m: nat, t: nat)
    requires
        m <= t <= max_scale(),
        abs_int(x * pow10((max_scale() - m) as nat)) < exact_room(t),
    ensures
        abs_int(x) < digits_limit(),
{
    lemma_pow10_monotone((max_scale() - t) as nat, (max_scale() - m) as nat);
    lemma_pow10_positive((max_scale() - t) as nat);
    let p = pow10((max_scale() - m) as nat) as int;
    let q = pow10((max_scale() - t) as nat) as int;
    let l = digits_limit() as int;
    assert(abs_int(x) < l) by (nonlinear_arith)
        requires
            abs_int(x * p) < l * q,
            1 <= q <= p,
            l > 0,
    ;
}

/// A sum of amounts of scale at most `t`, all small enough, is computed exactly.
pub proof fn lemma_sum_exact(a: DecimalView, b: DecimalView, r: DecimalView, t: nat)
    requires
        a.wf(),
        b.wf(),
        sum_facts(a, b, r),
        a.scale <= t,
        b.scale <= t,
        t <= max_scale(),
        abs_int(a.units()) < exact_room(t),
        abs_int(b.units()) < exact_room(t),
        abs_int(a.units() + b.units()) < exact_room(t),
    ensures
        r.units() == a.units() + b.units(),
        r.scale <= t,
        !a.is_zero() && !b.is_zero() ==> r.scale == max_nat(a.scale, b.scale),
{
    lemma_units_bound(a);
    lemma_units_bound(b);
    if !a.is_zero() && !b.is_zero() {
        let m = max_nat(a.scale, b.scale);
        lemma_fits_from_room(a, m, t);
        lemma_fits_from_room(b, m, t);
        lemma_aligned_units(a, m);
        lemma_aligned_units(b, m);
        let p = pow10((max_scale() - m) as nat) as int;
        let x = aligned(a, m);
        let y = aligned(b, m);
        assert((x + y) * p == x * p + y * p) by (nonlinear_arith);
        lemma_combined_fits(x + y, m, t);
        assert(r.units() == r.signed() * p);
    }
}

/// A difference of amounts of scale at most `t`, all small enough, is computed exactly.
pub proof fn lemma_difference_exact(a: DecimalView, b: DecimalView, r: DecimalView, t: nat)
    requires
        a.wf(),
        b.wf(),
        difference_facts(a, b, r),
        a.scale <= t,
        b.scale <= t,
        t <= max_scale(),
        abs_int(a.units()) < exact_room(t),
        abs_int(b.units()) < exact_room(t),
        abs_int(a.units() - b.units()) < exact_room(t),
    ensures
        r.units() == a.units() - b.units(),
        r.scale <= t,
        !a.is_zero() && !b.is_zero() ==> r.scale == max_nat(a.scale, b.scale),
{
    lemma_units_bound(a);
    lemma_units_bound(b);
    if a.is_zero() && !b.is_zero() {
        let p = pow10((max_scale() - b.scale) as nat) as int;
        assert(negated(b).signed() == -b.signed());
        assert(negated(b).units() == -b.signed() * p);
        assert(-b.signed() * p == -(b.signed() * p)) by (nonlinear_arith);
    }
    if !a.is_zero() && !b.is_zero() {
        let m = max_nat(a.scale, b.scale);
        lemma_fits_from_room(a, m, t);
        lemma_fits_from_room(b, m, t);
        lemma_aligned_units(a, m);
        lemma_aligned_units(b, m);
        let p = pow10((max_scale() - m) as nat) as int;
        let x = aligned(a, m);
        let y = aligned(b, m);
        assert((x - y) * p == x * p - y * p) by (nonlinear_arith);
        lemma_combined_fits(x - y, m, t);
        assert(r.units() == r.signed() * p);
    }
}

/// Two non-negative amounts of the same scale compare like their magnitudes.
pub proof fn lemma_digits_le(v: DecimalView, w: DecimalView)
    requires
        v.scale == w.scale,
        v.scale <= max_scale(),
        0 <= v.units() <= w.units(),
        !v.negative || v.digits == 0,
        !w.negative,
    ensures
        v.digits <= w.digits,
{
    let p = pow10((max_scale() - v.scale) as nat) as int;
    lemma_pow10_positive((max_scale() - v.scale) as nat);
    let dv = v.digits as int;
    let dw = w.digits as int;
    assert(v.units() == dv * p) by {
        if v.negative {
            assert(dv == 0);
        }
    }
    assert(dv <= dw) by (nonlinear_arith)
        requires
            dv * p <= dw * p,
            p >= 1,
    ;
}

/// The view of `v` with its sign flag cleared (`Decimal::abs`).
pub open spec fn abs_view(v: DecimalView) -> DecimalView {
    DecimalView { negative: false, digits: v.digits, scale: v.scale }
}

pub proof fn lemma_abs_units(v: DecimalView)
    requires
        v.wf(),
    ensures
        abs_view(v).wf(),
        abs_view(v).units() == abs_int(v.units()),
        !v.negative ==> abs_view(v) == v,
{
    lemma_units_bound(v);
    lemma_units_bound(abs_view(v));
    let p = pow10((max_scale() - v.scale) as nat) as int;
    let d = v.digits as int;
    assert(abs_view(v).units() == d * p);
    if v.negative {
        assert(v.units() == (-d) * p);
        assert((-d) * p == -(d * p)) by (nonlinear_arith);
    }
}

pub proof fn lemma_pow10_positive(n: nat)
    ensures
        pow10(n) >= 1,
    decreases n,
{
    if n > 0 {
        lemma_pow10_positive((n - 1) as nat);
    }
}

pub proof fn lemma_pow10_add(a: nat, b: nat)
    ensures
        pow10(a + b) == pow10(a) * pow10(b),
    decreases a,
{
    if a > 0 {
        let a1 = (a - 1) as nat;
        lemma_pow10_add(a1, b);
        assert(pow10(a + b) == 10 * pow10(a1 + b));
        let x = pow10(a1);
        let y = pow10(b);
        assert(pow10(a) * y == 10 * (x * y)) by (nonlinear_arith)
            requires pow10(a) == 10 * x;
        assert(pow10(a1 + b) == x * y);
        assert(pow10(a + b) == pow10(a) * pow10(b));
    } else {
        assert(pow10(a) == 1);
        assert(pow10(a + b) == pow10(b));
    }
}

/// A decimal amount of money.
#[derive(Clone, Copy, Debug)]
pub struct Amount {
    negative: bool,
    digits: u128,
    scale: u32,
}

/// Amounts are equal when their values are, whatever their scales.
impl PartialEq for Amount {
    fn eq(&self, other: &Self) -> (r: bool) {
        self.le(other) && other.le(self)
    }
}

impl PartialEqSpecImpl for Amount {
    open spec fn obeys_eq_spec() -> bool {
        true
    }

    open spec fn eq_spec(&self, other: &Self) -> bool {
        self@.units() == other@.units()
    }
}

impl View for Amount {
    type V = DecimalView;

    closed spec fn view(&self) -> DecimalView {
        DecimalView { negative: self.negative, digits: self.digits as nat, scale: self.scale as nat }
    }
}

// Each trusted item below rebuilds the two `Decimal`s from their parts, makes one call
// into rust_decimal, and takes the parts of the result back.

/// `<Decimal as Add>::add`. Besides naming the result, states what rust_decimal's
/// `add_sub_internal` shows: a zero operand hands back the other one; two non-zero
/// operands are aligned to the larger scale and added exactly when everything fits in 96
/// bits; otherwise the scale is reduced with rounding, so the result is within one unit of
/// the exact sum. It panics only when the rounded sum leaves 96 bits, which `requires`
/// rules out.
#[verifier::external_body]
fn decimal_add(a: Amount, b: Amount) -> (r: Amount)
    requires
        a@.wf(),
        b@.wf(),
        abs_int(a@.units() + b@.units()) < overflow_units(),
    ensures
        r@ == decimal_sum(a@, b@),
        sum_facts(a@, b@, r@),
{
    let mut x = Decimal::from_i128_with_scale(a.digits as i128, a.scale);
    x.set_sign_negative(a.negative);
    let mut y = Decimal::from_i128_with_scale(b.digits as i128, b.scale);
    y.set_sign_negative(b.negative);
    let z = x + y;
    Amount { negative: z.is_sign_negative(), digits: z.mantissa().unsigned_abs(), scale: z.scale() }
}

/// `<Decimal as Sub>::sub`, stated as `decimal_add` with the second operand's sign
/// flipped: `0 - y` is `y` with its sign flipped (or `y` itself when `y` is zero), `x - 0`
/// is `x`.
#[verifier::external_body]
fn decimal_sub(a: Amount, b: Amount) -> (r: Amount)
    requires
        a@.wf(),
        b@.wf(),
        abs_int(a@.units() - b@.units()) < overflow_units(),
    ensures
        r@ == decimal_difference(a@, b@),
        difference_facts(a@, b@, r@),
{
    let mut x = Decimal::from_i128_with_scale(a.digits as i128, a.scale);
    x.set_sign_negative(a.negative);
    let mut y = Decimal::from_i128_with_scale(b.digits as i128, b.scale);
    y.set_sign_negative(b.negative);
    let z = x - y;
    Amount { negative: z.is_sign_negative(), digits: z.mantissa().unsigned_abs(), scale: z.scale() }
}

/// `<Decimal as Mul>::mul`. As rust_decimal's `mul_impl` shows: a zero operand gives
/// `Decimal::ZERO`; otherwise the magnitudes multiply, the scales add and the signs
/// combine, exactly when the product fits in 96 bits at a scale of at most 28; otherwise
/// the product is rounded to fit, staying within one unit of the exact product.
#[verifier::external_body]
fn decimal_mul(a: Amount, b: Amount) -> (r: Amount)
    requires
        a@.wf(),
        b@.wf(),
        abs_int(a@.units() * b@.units()) < overflow_units() * pow10(max_scale()),
    ensures
        r@ == decimal_product(a@, b@),
        product_facts(a@, b@, r@),
{
    let mut x = Decimal::from_i128_with_scale(a.digits as i128, a.scale);
    x.set_sign_negative(a.negative);
    let mut y = Decimal::from_i128_with_scale(b.digits as i128, b.scale);
    y.set_sign_negative(b.negative);
    let z = x * y;
    Amount { negative: z.is_sign_negative(), digits: z.mantissa().unsigned_abs(), scale: z.scale() }
}

/// `<Decimal as PartialOrd>::le`: rust_decimal compares by value (`cmp_impl`), zero of
/// either sign being equal to zero.
#[verifier::external_body]
fn decimal_le(a: Amount, b: Amount) -> (r: bool)
    requires
        a@.wf(),
        b@.wf(),
    ensures
        r == (a@.units() <= b@.units()),
{
    let mut x = Decimal::from_i128_with_scale(a.digits as i128, a.scale);
    x.set_sign_negative(a.negative);
    let mut y = Decimal::from_i128_with_scale(b.digits as i128, b.scale);
    y.set_sign_negative(b.negative);
    x <= y
}

/// `<Decimal as FromStr>::from_str`, the error mapped to `None`. Only a leading `-` makes
/// the parsed value negative, so text without one never parses to a negative value.
#[verifier::external_body]
fn decimal_from_str(text: &str) -> (r: Option<Amount>)
    ensures
        r matches Some(v) ==> v@.wf(),
        !text@.contains('-') ==> (r matches Some(v) ==> !v@.negative),
        r.is_some() == decimal_parse(text@).is_some(),
        r matches Some(v) ==> decimal_parse(text@) == Some(v@),
{
    match <Decimal as std::str::FromStr>::from_str(text) {
        Ok(z) => Some(Amount { negative: z.is_sign_negative(), digits: z.mantissa().unsigned_abs(), scale: z.scale() }),
        Err(_) => None,
    }
}

/// What `Decimal`'s `Display` writes for a value: its sign, digits and decimal point.
pub uninterp spec fn decimal_text(v: DecimalView) -> Seq<char>;

/// `Decimal::to_string`: the value written out by `Display`, a function of its sign,
/// mantissa and scale.
#[verifier::external_body]
fn decimal_to_string(a: Amount) -> (r: String)
    requires
        a@.wf(),
    ensures
        r@ == decimal_text(a@),
{
    let mut x = Decimal::from_i128_with_scale(a.digits as i128, a.scale);
    x.set_sign_negative(a.negative);
    x.to_string()
}

impl Amount {
    /// The amount as `Decimal` writes it (`to_string`), such as `-12.50`.
    pub fn to_text(&self) -> (r: String)
        ensures
            r@ == decimal_text(self@),
    {
        proof { use_type_invariant(self); }
        decimal_to_string(*self)
    }

    #[verifier::type_invariant]
    pub open spec fn well_formed(self) -> bool {
        self@.wf()
    }

    pub fn new(num: i64, scale: u32) -> (r: Amount)
        requires
            scale <= max_scale(),
        ensures
            r@ == (DecimalView { negative: num < 0, digits: abs_int(num as int) as nat, scale: scale as nat }),
    {
        let digits: u128 = if num < 0 { (0i128 - num as i128) as u128 } else { num as u128 };
        Amount { negative: num < 0, digits, scale }
    }

    /// A positive amount from its magnitude and scale.
    pub fn from_digits(digits: u128, scale: u32) -> (r: Amount)
        requires
            digits < digits_limit(),
            scale <= max_scale(),
        ensures
            r@ == (DecimalView { negative: false, digits: digits as nat, scale: scale as nat }),
    {
        Amount { negative: false, digits, scale }
    }

    /// Rebuilds an amount from the parts of a decimal; `None` when they are out of range.
    pub fn try_from_parts(negative: bool, digits: u128, scale: u32) -> (r: Option<Amount>)
        ensures
            r is Some <==> (digits < digits_limit() && scale <= max_scale()),
            r matches Some(a) ==> a@ == (DecimalView { negative, digits: digits as nat, scale: scale as nat }),
    {
        if digits < 0x1_0000_0000_0000_0000_0000_0000u128 && scale <= 28 {
            Some(Amount { negative, digits, scale })
        } else {
            None
        }
    }

    pub fn digits(&self) -> (r: u128)
        ensures
            r == self@.digits,
    {
        self.digits
    }

    pub fn scale(&self) -> (r: u32)
        ensures
            r == self@.scale,
            r <= max_scale(),
    {
        proof { use_type_invariant(self); }
        self.scale
    }

    /// `Decimal::mantissa`: the signed magnitude.
    pub fn mantissa(&self) -> (r: i128)
        ensures
            r == self@.signed(),
    {
        proof { use_type_invariant(self); }
        if self.negative { 0i128 - self.digits as i128 } else { self.digits as i128 }
    }

    pub fn is_sign_negative(&self) -> (r: bool)
        ensures
            r == self@.negative,
    {
        self.negative
    }

    pub fn is_sign_positive(&self) -> (r: bool)
        ensures
            r == !self@.negative,
    {
        !self.negative
    }

    pub fn is_zero(&self) -> (r: bool)
        ensures
            r == self@.is_zero(),
    {
        self.digits == 0
    }

    /// `-x`: the sign flag flips, zero included.
    pub fn neg(&self) -> (r: Amount)
        ensures
            r@ == negated(self@),
    {
        proof { use_type_invariant(self); }
        Amount { negative: !self.negative, digits: self.digits, scale: self.scale }
    }

    /// `Decimal::abs`: the sign flag cleared.
    pub fn abs(&self) -> (r: Amount)
        ensures
            r@ == abs_view(self@),
    {
        proof { use_type_invariant(self); }
        Amount { negative: false, digits: self.digits, scale: self.scale }
    }

    pub fn wf(&self) -> (r: bool)
        ensures
            r,
            self@.wf(),
    {
        proof { use_type_invariant(self); }
        true
    }

    /// `x <= y`, by value.
    pub fn le(&self, other: &Amount) -> (r: bool)
        ensures
            r == (self@.units() <= other@.units()),
            self@.wf(),
            other@.wf(),
    {
        proof { use_type_invariant(self); use_type_invariant(other); }
        decimal_le(*self, *other)
    }

    /// `Ord::min`: `self` unless `other` is strictly smaller.
    pub fn min(&self, other: &Amount) -> (r: Amount)
        ensures
            r@ == (if self@.units() <= other@.units() { self@ } else { other@ }),
    {
        if self.le(other) { *self } else { *other }
    }

    pub fn plus(&self, other: &Amount) -> (r: Amount)
        requires
            abs_int(self@.units() + other@.units()) < overflow_units(),
        ensures
            r@ == decimal_sum(self@, other@),
            sum_facts(self@, other@, r@),
    {
        proof { use_type_invariant(self); use_type_invariant(other); }
        decimal_add(*self, *other)
    }

    pub fn minus(&self, other: &Amount) -> (r: Amount)
        requires
            abs_int(self@.units() - other@.units()) < overflow_units(),
        ensures
            r@ == decimal_difference(self@, other@),
            difference_facts(self@, other@, r@),
    {
        proof { use_type_invariant(self); use_type_invariant(other); }
        decimal_sub(*self, *other)
    }

    pub fn times(&self, other: &Amount) -> (r: Amount)
        requires
            abs_int(self@.units() * other@.units()) < overflow_units() * pow10(max_scale()),
        ensures
            r@ == decimal_product(self@, other@),
            product_facts(self@, other@, r@),
    {
        proof { use_type_invariant(self); use_type_invariant(other); }
        decimal_mul(*self, *other)
    }

    /// `Decimal::from_str`.
    pub fn parse(text: &str) -> (r: Option<Amount>)
        ensures
            !text@.contains('-') ==> (r matches Some(v) ==> !v@.negative),
            r.is_some() == decimal_parse(text@).is_some(),
            r matches Some(v) ==> decimal_parse(text@) == Some(v@),
    {
        decimal_from_str(text)
    }

    /// `Decimal::ZERO`.
    pub fn zero() -> (r: Amount)
        ensures
            r@ == zero_view(),
    {
        Amount { negative: false, digits: 0, scale: 0 }
    }
}

} // verus!
