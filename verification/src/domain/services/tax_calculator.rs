//! Personal income tax, company income tax, development levy and the per-statement
//! calculation that keeps a user's year-to-date state.

use vstd::prelude::*;
use crate::domain::entities::{ParsedTransaction, TransactionRole, UserTaxState, CalculationResult, PitTaxState, LLCTaxState};
use crate::money::{
    Amount, DecimalView, abs_int, abs_view, lemma_abs_units, decimal_difference, decimal_product, decimal_sum, difference_facts,
    digits_limit, exact_room, lemma_difference_exact, lemma_digits_le, lemma_pow10_28,
    lemma_pow10_add, lemma_pow10_monotone, lemma_pow10_positive, lemma_sum_exact, lemma_units_bound, lemma_zero_units,
    max_scale, overflow_units, pow10, product_facts, sum_facts, zero_view,
};

verus! {

pub struct TaxCalculator;

/// `10^28`: one naira counted in units.
pub open spec fn one() -> int {
    pow10(max_scale()) as int
}

/// The smaller of two amounts, the first one on a tie (`Ord::min`).
pub open spec fn min_view(a: DecimalView, b: DecimalView) -> DecimalView {
    if a.units() <= b.units() {
        a
    } else {
        b
    }
}

pub open spec fn whole(n: nat) -> DecimalView {
    DecimalView { negative: false, digits: n, scale: 0 }
}

pub open spec fn hundredths(n: nat) -> DecimalView {
    DecimalView { negative: false, digits: n, scale: 2 }
}

/// Width of each PIT band, in naira.
pub open spec fn band_width(i: nat) -> nat {
    if i == 0 {
        800000
    } else if i == 1 {
        2200000
    } else if i == 2 {
        9000000
    } else if i == 3 {
        13000000
    } else {
        25000000
    }
}

/// Rate of each PIT band, in percent.
pub open spec fn band_percent(i: nat) -> nat {
    if i == 0 {
        0
    } else if i == 1 {
        15
    } else if i == 2 {
        18
    } else if i == 3 {
        21
    } else {
        23
    }
}

/// The band width as the decimal literal the calculator uses.
pub open spec fn band_width_view(i: nat) -> DecimalView {
    whole(band_width(i))
}

/// The band rate as the decimal literal the calculator uses (`0`, `0.15`, ...).
pub open spec fn band_rate_view(i: nat) -> DecimalView {
    if i == 0 {
        zero_view()
    } else {
        hundredths(band_percent(i))
    }
}

/// The walk through the bands: each band takes the smaller of what remains and its width,
/// taxed at its rate. Returns what remains and the tax so far.
pub open spec fn pit_bands(rem: DecimalView, tax: DecimalView, i: nat) -> (DecimalView, DecimalView)
    decreases 5 - i,
{
    if i >= 5 || rem.units() <= 0 {
        (rem, tax)
    } else {
        let slice = min_view(rem, band_width_view(i));
        pit_bands(
            decimal_difference(rem, slice),
            decimal_sum(tax, decimal_product(slice, band_rate_view(i))),
            i + 1,
        )
    }
}

/// What `calculate_pit_tax` returns, through rust_decimal's operations.
pub open spec fn pit_tax_view(income: DecimalView) -> DecimalView {
    if income.units() <= 0 {
        zero_view()
    } else {
        let (rem, tax) = pit_bands(income, zero_view(), 0);
        if rem.units() > 0 {
            decimal_sum(tax, decimal_product(rem, hundredths(25)))
        } else {
            tax
        }
    }
}

/// Where each PIT band starts, in naira: 0, 800,000, 3,000,000, 12,000,000, 25,000,000,
/// and 50,000,000 where the top rate starts.
pub open spec fn band_floor(i: nat) -> nat
    decreases i,
{
    if i == 0 {
        0
    } else {
        band_floor((i - 1) as nat) + band_width((i - 1) as nat)
    }
}

/// The part of an income of `u` units that falls inside band `i`.
pub open spec fn band_slice(u: int, i: nat) -> int {
    let lo = band_floor(i) * one();
    let w = band_width(i) * one();
    if u <= lo {
        0
    } else if u - lo <= w {
        u - lo
    } else {
        w
    }
}

/// The part of an income of `u` units below band `i`.
pub open spec fn band_consumed(u: int, i: nat) -> int {
    if u <= band_floor(i) * one() {
        u
    } else {
        band_floor(i) * one()
    }
}

/// Hundred times the tax due on the first `i` bands.
pub open spec fn pit_partial(u: int, i: nat) -> int
    decreases i,
{
    if i == 0 {
        0
    } else {
        pit_partial(u, (i - 1) as nat) + band_percent((i - 1) as nat) * band_slice(u, (i - 1) as nat)
    }
}

/// Hundred times the progressive tax due on an income of `u` units: each band's
/// percentage of the part of the income inside that band, and 25% of the part above
/// 50,000,000.
pub open spec fn pit_tax_hundredths(u: int) -> int {
    if u <= 0 {
        0
    } else {
        let top = band_floor(5) * one();
        pit_partial(u, 5) + 25 * (if u > top { u - top } else { 0 })
    }
}

proof fn lemma_band_slice_grows(u: int, v: int, i: nat)
    requires
        u <= v,
        i < 5,
        one() > 0,
    ensures
        0 <= band_slice(u, i) <= band_slice(v, i),
        band_slice(v, i) - band_slice(u, i) <= v - u,
{
}

/// The progressive tax is never negative, never falls as income grows, takes at most 25%
/// of any increase in income, and at most 25% of a positive income.
pub proof fn lemma_pit_tax_progressive(u: int, v: int)
    requires
        u <= v,
    ensures
        0 <= pit_tax_hundredths(u) <= pit_tax_hundredths(v),
        pit_tax_hundredths(v) - pit_tax_hundredths(u) <= 25 * (v - u),
        pit_tax_hundredths(u) <= 25 * (if u > 0 { u } else { 0 }),
{
    lemma_band_floors();
    lemma_pow10_28();
    reveal_with_fuel(pit_partial, 6);
    let top = band_floor(5) * one();
    assert(top == 50000000 * one());
    let mu = if u > 0 { u } else { 0 };
    let mv = if v > 0 { v } else { 0 };
    lemma_band_slice_grows(mu, mv, 0);
    lemma_band_slice_grows(mu, mv, 1);
    lemma_band_slice_grows(mu, mv, 2);
    lemma_band_slice_grows(mu, mv, 3);
    lemma_band_slice_grows(mu, mv, 4);
    lemma_band_slice_grows(0, mu, 0);
    lemma_band_slice_grows(0, mu, 1);
    lemma_band_slice_grows(0, mu, 2);
    lemma_band_slice_grows(0, mu, 3);
    lemma_band_slice_grows(0, mu, 4);
    assert(forall|x: int| 0 <= x ==> #[trigger] band_slice(x, 0) + band_slice(x, 1) + band_slice(x, 2) + band_slice(x, 3)
        + band_slice(x, 4) + (if x > top { x - top } else { 0 }) == x);
    assert(pit_tax_hundredths(u) == pit_partial(mu, 5) + 25 * (if mu > top { mu - top } else { 0 }));
    assert(pit_tax_hundredths(v) == pit_partial(mv, 5) + 25 * (if mv > top { mv - top } else { 0 }));
    assert(pit_partial(mu, 5) == 15 * band_slice(mu, 1) + 18 * band_slice(mu, 2) + 21 * band_slice(mu, 3) + 23
        * band_slice(mu, 4));
    assert(pit_partial(mu, 5) <= 25 * (band_slice(mu, 0) + band_slice(mu, 1) + band_slice(mu, 2) + band_slice(mu, 3)
        + band_slice(mu, 4)));
}

/// The progressive tax band by band, as a hundred times the tax on an income of `u` units
/// (`N` units to the naira): nothing up to 800,000; 15% of the part above that up to
/// 3,000,000; then 18% up to 12,000,000; 21% up to 25,000,000; 23% up to 50,000,000; and
/// 25% of everything above.
pub proof fn lemma_pit_tax_bands(u: int)
    ensures
        ({
            let n = one();
            &&& u <= 800000 * n ==> pit_tax_hundredths(u) == 0
            &&& 800000 * n < u <= 3000000 * n ==> pit_tax_hundredths(u) == 15 * (u - 800000 * n)
            &&& 3000000 * n < u <= 12000000 * n ==> pit_tax_hundredths(u) == 33000000 * n + 18 * (u - 3000000 * n)
            &&& 12000000 * n < u <= 25000000 * n ==> pit_tax_hundredths(u) == 195000000 * n + 21 * (u - 12000000 * n)
            &&& 25000000 * n < u <= 50000000 * n ==> pit_tax_hundredths(u) == 468000000 * n + 23 * (u - 25000000 * n)
            &&& 50000000 * n < u ==> pit_tax_hundredths(u) == 1043000000 * n + 25 * (u - 50000000 * n)
        }),
{
    lemma_band_floors();
    lemma_pow10_28();
    reveal_with_fuel(pit_partial, 6);
}

/// Incomes on which no decimal operation of the PIT walk rounds: at most 21 decimal
/// places, and room for a factor of 100 in the magnitude.
pub open spec fn exact_pit_domain(v: DecimalView) -> bool {
    v.scale <= 21 && v.digits * 100 < digits_limit()
}

proof fn lemma_band_floors()
    ensures
        band_floor(0) == 0,
        band_floor(1) == 800000,
        band_floor(2) == 3000000,
        band_floor(3) == 12000000,
        band_floor(4) == 25000000,
        band_floor(5) == 50000000,
{
    reveal_with_fuel(band_floor, 6);
}

proof fn lemma_pit_partial_bounds(u: int, i: nat)
    requires
        u > 0,
        i <= 5,
        one() > 0,
    ensures
        0 <= pit_partial(u, i) <= 23 * band_consumed(u, i),
        0 <= band_consumed(u, i) <= u,
    decreases i,
{
    lemma_band_floors();
    lemma_pow10_28();
    if i > 0 {
        let j = (i - 1) as nat;
        lemma_pit_partial_bounds(u, j);
        assert(band_floor(i) == band_floor(j) + band_width(j));
        assert(band_floor(i) * one() == band_floor(j) * one() + band_width(j) * one());
        assert(band_consumed(u, i) == band_consumed(u, j) + band_slice(u, j));
        assert(band_percent(j) <= 23);
        let p = band_percent(j) as int;
        let sl = band_slice(u, j);
        assert(0 <= p * sl <= 23 * sl) by (nonlinear_arith)
            requires 0 <= p <= 23, sl >= 0;
    }
}

proof fn lemma_pit_partial_stable(u: int, i: nat)
    requires
        i <= 5,
        u <= band_floor(i) * one(),
        one() > 0,
    ensures
        pit_partial(u, 5) == pit_partial(u, i),
        band_consumed(u, 5) == u,
    decreases 5 - i,
{
    lemma_band_floors();
    if i < 5 {
        assert(band_slice(u, i) == 0);
        assert(band_floor(i) <= band_floor(i + 1));
        assert(band_floor(i) * one() <= band_floor(i + 1) * one()) by (nonlinear_arith)
            requires band_floor(i) <= band_floor(i + 1), one() > 0;
        lemma_pit_partial_stable(u, i + 1);
    }
}

/// One band of the PIT walk on an income where nothing rounds.
proof fn lemma_pit_exact_step(
    income: DecimalView,
    i: nat,
    rem: DecimalView,
    tax: DecimalView,
    slice: DecimalView,
    product: DecimalView,
    tax2: DecimalView,
    rem2: DecimalView,
)
    requires
        income.wf(),
        exact_pit_domain(income),
        income.units() > 0,
        i < 5,
        rem.wf(),
        rem.scale == income.scale,
        rem.units() > 0,
        rem.units() == income.units() - band_consumed(income.units(), i),
        tax.wf(),
        tax.scale <= income.scale + 2,
        100 * tax.units() == pit_partial(income.units(), i),
        slice == min_view(rem, band_width_view(i)),
        product_facts(slice, band_rate_view(i), product),
        sum_facts(tax, product, tax2),
        difference_facts(rem, slice, rem2),
    ensures
        rem2.scale == income.scale,
        rem2.units() == income.units() - band_consumed(income.units(), i + 1),
        tax2.scale <= income.scale + 2,
        100 * tax2.units() == pit_partial(income.units(), i + 1),
{
    let u = income.units();
    let s = income.scale;
    lemma_pow10_28();
    lemma_band_floors();
    lemma_zero_units();
    lemma_rate_units_small(i);
    lemma_units_bound(income);
    lemma_units_bound(rem);
    lemma_units_bound(tax);
    lemma_pit_partial_bounds(u, i);
    lemma_pit_partial_bounds(u, i + 1);
    // the room left at scales s and s + 2
    let k = (26 - s) as nat;
    lemma_pow10_add(2, k);
    reveal_with_fuel(pow10, 3);
    assert((max_scale() - s) as nat == 2 + k);
    assert((max_scale() - (s + 2)) as nat == k);
    let p = pow10(k) as int;
    lemma_pow10_positive(k);
    let d = income.digits as int;
    assert(u == d * (100 * p));
    assert(u < exact_room(s + 2)) by (nonlinear_arith)
        requires
            u == d * (100 * p),
            d * 100 < digits_limit(),
            exact_room(s + 2) == digits_limit() * p,
            p >= 1,
    ;
    lemma_pow10_monotone(k, 2 + k);
    assert(exact_room(s + 2) <= exact_room(s)) by (nonlinear_arith)
        requires
            exact_room(s + 2) == digits_limit() * p,
            exact_room(s) == digits_limit() * pow10(2 + k),
            p <= pow10(2 + k),
    ;
    // the slice
    let w = band_width(i) * one();
    assert(band_width(i) >= 800000);
    assert(band_width_view(i).units() > 0);
    assert(slice.units() == band_slice(u, i));
    assert(slice.units() > 0);
    assert(slice.units() <= rem.units());
    assert(!slice.is_zero());
    assert(slice.scale == s || slice.scale == 0);
    // its product with the band rate
    if i == 0 {
        assert(product == zero_view());
        assert(band_percent(i) == 0);
        assert(0 * slice.units() == 0);
        assert(100 * product.units() == band_percent(i) * slice.units());
    } else {
        let pct = band_percent(i);
        assert(band_rate_view(i) == hundredths(pct));
        if slice == rem {
            lemma_digits_le(rem, income);
        }
        assert(slice.digits <= income.digits || slice.digits <= 25000000);
        assert(slice.digits * pct < digits_limit()) by (nonlinear_arith)
            requires
                slice.digits <= income.digits || slice.digits <= 25000000,
                income.digits * 100 < digits_limit(),
                pct <= 23,
                digits_limit() == 0x1_0000_0000_0000_0000_0000_0000,
        ;
        lemma_exact_rate_product(slice, pct, product);
    }
    assert(100 * product.units() == band_percent(i) * slice.units());
    assert(band_percent(i) * slice.units() <= 23 * slice.units()) by (nonlinear_arith)
        requires band_percent(i) <= 23, slice.units() > 0;
    assert(band_percent(i) * slice.units() >= 0) by (nonlinear_arith)
        requires slice.units() > 0;
    assert(product.scale <= s + 2);
    // the running tax
    lemma_sum_exact(tax, product, tax2, s + 2);
    // what remains
    lemma_difference_exact(rem, slice, rem2, s);
}

/// The top rate on an income where nothing rounds.
proof fn lemma_pit_exact_top(
    income: DecimalView,
    rem: DecimalView,
    tax: DecimalView,
    product: DecimalView,
    tax2: DecimalView,
)
    requires
        income.wf(),
        exact_pit_domain(income),
        income.units() > 0,
        rem.wf(),
        rem.scale == income.scale,
        rem.units() > 0,
        rem.units() == income.units() - band_consumed(income.units(), 5),
        tax.wf(),
        tax.scale <= income.scale + 2,
        100 * tax.units() == pit_partial(income.units(), 5),
        product_facts(rem, hundredths(25), product),
        sum_facts(tax, product, tax2),
    ensures
        100 * tax2.units() == pit_tax_hundredths(income.units()),
        tax2.scale <= income.scale + 2,
{
    let u = income.units();
    let s = income.scale;
    lemma_pow10_28();
    lemma_band_floors();
    lemma_units_bound(income);
    lemma_units_bound(rem);
    lemma_pit_partial_bounds(u, 5);
    let k = (26 - s) as nat;
    lemma_pow10_add(2, k);
    reveal_with_fuel(pow10, 3);
    assert((max_scale() - s) as nat == 2 + k);
    assert((max_scale() - (s + 2)) as nat == k);
    let p = pow10(k) as int;
    lemma_pow10_positive(k);
    let d = income.digits as int;
    assert(u == d * (100 * p));
    assert(u < exact_room(s + 2)) by (nonlinear_arith)
        requires
            u == d * (100 * p),
            d * 100 < digits_limit(),
            exact_room(s + 2) == digits_limit() * p,
            p >= 1,
    ;
    lemma_digits_le(rem, income);
    assert(rem.digits * 25 < digits_limit()) by (nonlinear_arith)
        requires
            rem.digits <= income.digits,
            income.digits * 100 < digits_limit(),
    ;
    lemma_exact_rate_product(rem, 25, product);
    lemma_sum_exact(tax, product, tax2, s + 2);
}

/// The largest income (in units) the PIT walk accepts: everything the 96-bit decimal
/// holds but its last eight naira. The margin is this library's choice: it leaves room
/// for the rounding of the band walk's operations, each within one unit of exact, so that
/// none of them can overflow.
pub open spec fn pit_income_limit() -> int {
    overflow_units() - 8 * one()
}

proof fn lemma_rate_product_bounds(p: int, a: int, r: int, e: int)
    requires
        e > 0,
        0 <= r,
        4 * r <= e,
        a >= 0,
        -(e * e) <= p * e - a * r <= e * e,
    ensures
        4 * p <= a + 4 * e,
        p >= -e,
{
    assert(4 * p <= a + 4 * e) by (nonlinear_arith)
        requires
            e > 0,
            0 <= r,
            4 * r <= e,
            a >= 0,
            p * e - a * r <= e * e,
    ;
    assert(p >= -e) by (nonlinear_arith)
        requires
            e > 0,
            0 <= r,
            a >= 0,
            -(e * e) <= p * e - a * r,
    ;
}

proof fn lemma_rate_units_small(i: nat)
    ensures
        0 <= band_rate_view(i).units(),
        4 * band_rate_view(i).units() <= one(),
        band_rate_view(i).wf(),
        hundredths(25).units() * 4 == one(),
        hundredths(25).wf(),
        band_width_view(i).units() == band_width(i) * one(),
        band_width_view(i).wf(),
{
    lemma_pow10_28();
    assert(pow10(0) == 1);
    lemma_zero_units();
    assert((max_scale() - 2) as nat == 26);
    assert((max_scale() - 0) as nat == 28);
    assert(hundredths(25).units() == 25 * pow10(26));
    if i > 0 {
        let p = band_percent(i) as int;
        assert(p <= 23);
        assert(band_rate_view(i).units() == p * pow10(26));
        assert(4 * (p * 100000000000000000000000000) <= 10000000000000000000000000000) by (nonlinear_arith)
            requires p <= 23, p >= 0;
        assert(0 <= p * 100000000000000000000000000) by (nonlinear_arith)
            requires p >= 0;
    }
}

/// A company is small, and pays neither company income tax nor the development levy,
/// when its gross turnover is at most 100,000,000 and its fixed assets at most
/// 250,000,000.
pub open spec fn is_small_company_spec(gross_turnover: DecimalView, fixed_assets_value: DecimalView) -> bool {
    gross_turnover.units() <= 100000000 * one() && fixed_assets_value.units() <= 250000000 * one()
}

/// What `calculate_llc_tax` returns: 30% of a positive profit, unless the company is small.
pub open spec fn llc_tax_view(profit: DecimalView, turnover: DecimalView, assets: DecimalView) -> DecimalView {
    if profit.units() <= 0 || is_small_company_spec(turnover, assets) {
        zero_view()
    } else {
        decimal_product(profit, hundredths(30))
    }
}

/// What `calculate_development_levy` returns: 4% of a positive profit, unless the company
/// is small.
pub open spec fn development_levy_view(profit: DecimalView, turnover: DecimalView, assets: DecimalView) -> DecimalView {
    if profit.units() <= 0 || is_small_company_spec(turnover, assets) {
        zero_view()
    } else {
        decimal_product(profit, hundredths(4))
    }
}

/// A hundred times a company rate of `pct`% on an exact profit: nothing on a loss or for a
/// small company.
pub open spec fn llc_rate_hundredths(pct: int, profit: int, turnover: int, assets: int) -> int {
    if profit <= 0 || (turnover <= 100000000 * one() && assets <= 250000000 * one()) {
        0
    } else {
        pct * profit
    }
}

/// A hundred times the company income tax (30%) of an LLC state, in exact arithmetic.
pub open spec fn llc_tax_hundredths(s: UserTaxState) -> int {
    match s {
        UserTaxState::LLC(l) => llc_rate_hundredths(
            30,
            l.taxable_income_ytd@.units(),
            l.gross_turnover_ytd@.units(),
            l.fixed_assets_value@.units(),
        ),
        UserTaxState::PIT(_) => 0,
    }
}

/// A hundred times the development levy (4%) of an LLC state, in exact arithmetic.
pub open spec fn levy_hundredths(s: UserTaxState) -> int {
    match s {
        UserTaxState::LLC(l) => llc_rate_hundredths(
            4,
            l.taxable_income_ytd@.units(),
            l.gross_turnover_ytd@.units(),
            l.fixed_assets_value@.units(),
        ),
        UserTaxState::PIT(_) => 0,
    }
}

/// `p` is an amount whose multiplication by a two-decimal rate stays exact: its scale
/// leaves room for two more digits and its magnitude for a factor of 100.
pub open spec fn exact_rate_domain(p: DecimalView) -> bool {
    p.scale <= 26 && p.digits * 100 < digits_limit()
}

/// Multiplying an amount by `pct/100` where the product is exact.
pub proof fn lemma_exact_rate_product(a: DecimalView, pct: nat, r: DecimalView)
    requires
        a.wf(),
        a.scale <= 26,
        r == (DecimalView { negative: a.negative != false, digits: a.digits * pct, scale: a.scale + 2 }),
    ensures
        100 * r.units() == pct * a.units(),
{
    let k = (26 - a.scale) as nat;
    lemma_pow10_add(2, k);
    reveal_with_fuel(pow10, 3);
    assert(pow10(2) == 100);
    assert((max_scale() - a.scale) as nat == 2 + k);
    assert((max_scale() - r.scale) as nat == k);
    let p = pow10(k) as int;
    let d = a.digits as int;
    let q = pct as int;
    if a.negative {
        assert(r.units() == -(d * q) * p);
        assert(a.units() == -d * (100 * p));
        assert(100 * (-(d * q) * p) == q * (-d * (100 * p))) by (nonlinear_arith);
    } else {
        assert(r.units() == (d * q) * p);
        assert(a.units() == d * (100 * p));
        assert(100 * ((d * q) * p) == q * (d * (100 * p))) by (nonlinear_arith);
    }
}

proof fn lemma_profit_product_bounds(a: DecimalView, pct: nat)
    requires
        a.wf(),
        pct <= 30,
    ensures
        abs_int(a.units() * hundredths(pct).units()) < overflow_units() * pow10(max_scale()),
        hundredths(pct).wf(),
        hundredths(pct).units() == pct * pow10(26),
{
    lemma_pow10_28();
    assert((max_scale() - 2) as nat == 26);
    let u = a.units();
    let r = hundredths(pct).units();
    lemma_units_bound(a);
    assert(abs_int(u * r) < overflow_units() * pow10(max_scale())) by (nonlinear_arith)
        requires
            abs_int(u) <= overflow_units(),
            r == pct * 100000000000000000000000000,
            pct <= 30,
            overflow_units() > 0,
            pow10(max_scale()) == 10000000000000000000000000000,
    ;
}


/// Running totals of the PIT pass over a statement.
pub struct PitTotals {
    pub delta: DecimalView,
    pub credit: DecimalView,
    pub rent_used: DecimalView,
}

/// Running totals of the LLC pass over a statement.
pub struct LlcTotals {
    pub delta: DecimalView,
    pub credit: DecimalView,
    pub turnover: DecimalView,
    pub expenses: DecimalView,
}

/// Inflows (amounts whose sign is not negative) add their magnitude to the credit flow.
pub open spec fn credit_after(credit: DecimalView, a: DecimalView) -> DecimalView {
    if !a.negative {
        decimal_sum(credit, abs_view(a))
    } else {
        credit
    }
}

/// One transaction of a PIT statement. Every inflow counts towards the credit flow;
/// income and salary add to the taxable income; rent earns a relief of 20% of the rent
/// paid, capped so that the year's relief stays within 500,000; deductions and reliefs
/// subtract their magnitude; unknown transactions change nothing else.
pub open spec fn pit_step(acc: PitTotals, t: ParsedTransaction) -> PitTotals {
    let a = t.amount@;
    let credit = credit_after(acc.credit, a);
    if t.role == TransactionRole::Unknown {
        PitTotals { credit, ..acc }
    } else {
        if t.role == TransactionRole::Income || t.role == TransactionRole::Salary {
            PitTotals { delta: decimal_sum(acc.delta, a), credit, rent_used: acc.rent_used }
        } else if t.role == TransactionRole::Rent {
            let applicable = decimal_product(abs_view(a), hundredths(20));
            let remaining = decimal_difference(whole(500000), acc.rent_used);
            if remaining.units() > 0 {
                let relief = min_view(applicable, remaining);
                PitTotals {
                    delta: decimal_difference(acc.delta, relief),
                    credit,
                    rent_used: decimal_sum(acc.rent_used, relief),
                }
            } else {
                PitTotals { delta: acc.delta, credit, rent_used: acc.rent_used }
            }
        } else if t.role == TransactionRole::Deduction || t.role == TransactionRole::Relief {
            PitTotals { delta: decimal_difference(acc.delta, abs_view(a)), credit, rent_used: acc.rent_used }
        } else {
            PitTotals { delta: acc.delta, credit, rent_used: acc.rent_used }
        }
    }
}

/// 10^20 naira, counted in units.
pub open spec fn cents_total() -> int {
    100000000000000000000 * one()
}

/// The PIT pass in exact arithmetic on units, from a delta `acc.0` and a relief used
/// `acc.1`: income and salary add, rent earns a fifth of its magnitude up to what remains
/// of the 500,000 cap, deductions and reliefs subtract their magnitude.
pub open spec fn pit_units_step(acc: (int, int), t: ParsedTransaction) -> (int, int) {
    let a = t.amount@.units();
    let m = abs_int(a);
    if t.role == TransactionRole::Income || t.role == TransactionRole::Salary {
        (acc.0 + a, acc.1)
    } else if t.role == TransactionRole::Rent {
        let remaining = 500000 * one() - acc.1;
        if remaining > 0 {
            let relief = if m / 5 <= remaining { m / 5 } else { remaining };
            (acc.0 - relief, acc.1 + relief)
        } else {
            acc
        }
    } else if t.role == TransactionRole::Deduction || t.role == TransactionRole::Relief {
        (acc.0 - m, acc.1)
    } else {
        acc
    }
}

pub open spec fn pit_units(txns: Seq<ParsedTransaction>, n: nat, acc: (int, int)) -> (int, int)
    decreases n,
{
    if n == 0 {
        acc
    } else {
        pit_units_step(pit_units(txns, (n - 1) as nat, acc), txns[n - 1])
    }
}

/// The LLC pass in exact arithmetic on units: (delta, turnover, expenses).
pub open spec fn llc_units_step(acc: (int, int, int), t: ParsedTransaction) -> (int, int, int) {
    let a = t.amount@.units();
    let m = abs_int(a);
    if t.role == TransactionRole::Income {
        (acc.0 + a, if a >= 0 { acc.1 + m } else { acc.1 }, acc.2)
    } else if t.role == TransactionRole::BusinessExp || t.role == TransactionRole::Deduction {
        (acc.0 - m, acc.1, acc.2 + m)
    } else {
        acc
    }
}

pub open spec fn llc_units(txns: Seq<ParsedTransaction>, n: nat, acc: (int, int, int)) -> (int, int, int)
    decreases n,
{
    if n == 0 {
        acc
    } else {
        llc_units_step(llc_units(txns, (n - 1) as nat, acc), txns[n - 1])
    }
}

/// Every amount of the statement has at most two decimal places.
pub open spec fn cents_amounts(txns: Seq<ParsedTransaction>) -> bool {
    forall|k: int| 0 <= k < txns.len() ==> (#[trigger] txns[k]).amount@.scale <= 2
}

/// Statements and states on which the calculator's decimal arithmetic is exact: amounts
/// with at most two decimal places, year-to-date figures with at most four, and the
/// figures and twice the statement's magnitude together within 10^20 naira.
pub open spec fn exact_domain(statement: Seq<ParsedTransaction>, state: UserTaxState) -> bool {
    &&& cents_amounts(statement)
    &&& match state {
        UserTaxState::PIT(p) => {
            &&& p.taxable_income_ytd@.scale <= 4
            &&& p.rent_relief_used_ytd@.scale <= 4
            &&& abs_int(p.taxable_income_ytd@.units()) + abs_int(p.rent_relief_used_ytd@.units())
                + 2 * statement_magnitude(statement, statement.len()) <= cents_total()
        },
        UserTaxState::LLC(l) => {
            &&& l.taxable_income_ytd@.scale <= 4
            &&& l.gross_turnover_ytd@.scale <= 4
            &&& l.business_expenses_ytd@.scale <= 4
            &&& abs_int(l.taxable_income_ytd@.units()) + abs_int(l.gross_turnover_ytd@.units()) + abs_int(
                l.business_expenses_ytd@.units(),
            ) + 2 * statement_magnitude(statement, statement.len()) <= cents_total()
        },
    }
}

/// On the exact domain the calculator's figures are the exact sums: the report's delta,
/// and the new state's taxable income and relief used (PIT) or turnover and expenses (LLC),
/// are those of the passes in exact arithmetic, each with at most four decimal places; the
/// report's tax (and an LLC's levy) and their changes are the exact rates of the incomes.
pub open spec fn exact_outcome(statement: Seq<ParsedTransaction>, old: UserTaxState, res: CalculationResult, new: UserTaxState) -> bool {
    let n = statement.len();
    exact_domain(statement, old) ==> match (old, new) {
        (UserTaxState::PIT(o), UserTaxState::PIT(w)) => {
            let (d, u) = pit_units(statement, n, (0, o.rent_relief_used_ytd@.units()));
            &&& 100 * res.tax_payable_ytd@.units() == pit_tax_hundredths(w.taxable_income_ytd@.units())
            &&& 100 * res.tax_delta@.units() == pit_tax_hundredths(w.taxable_income_ytd@.units()) - pit_tax_hundredths(
                o.taxable_income_ytd@.units(),
            )
            &&& res.taxable_income_delta@.units() == d
            &&& w.taxable_income_ytd@.units() == o.taxable_income_ytd@.units() + d
            &&& w.rent_relief_used_ytd@.units() == u
            &&& w.taxable_income_ytd@.scale <= 4
            &&& w.rent_relief_used_ytd@.scale <= 4
        },
        (UserTaxState::LLC(o), UserTaxState::LLC(w)) => {
            let (d, tv, ex) = llc_units(statement, n, (0, o.gross_turnover_ytd@.units(), o.business_expenses_ytd@.units()));
            &&& 100 * res.tax_payable_ytd@.units() == llc_tax_hundredths(new)
            &&& 100 * res.tax_delta@.units() == llc_tax_hundredths(new) - llc_tax_hundredths(old)
            &&& 100 * res.development_levy_ytd@.units() == levy_hundredths(new)
            &&& 100 * res.development_levy_delta@.units() == levy_hundredths(new) - levy_hundredths(old)
            &&& res.taxable_income_delta@.units() == d
            &&& w.taxable_income_ytd@.units() == o.taxable_income_ytd@.units() + d
            &&& w.gross_turnover_ytd@.units() == tv
            &&& w.business_expenses_ytd@.units() == ex
            &&& w.taxable_income_ytd@.scale <= 4
            &&& w.gross_turnover_ytd@.scale <= 4
            &&& w.business_expenses_ytd@.scale <= 4
        },
        _ => false,
    }
}

/// Room for exact operations at four decimal places.
proof fn lemma_cents_room()
    ensures
        one() == 10000000000000000000000000000,
        4 * cents_total() < exact_room(4),
        4 * cents_total() < exact_room(6),
        cents_total() < overflow_units(),
{
    lemma_pow10_28();
    reveal_with_fuel(pow10, 25);
    assert(pow10(24) == 1000000000000000000000000);
    assert(pow10(22) == 10000000000000000000000);
    assert((max_scale() - 4) as nat == 24);
    assert((max_scale() - 6) as nat == 22);
}

/// A figure of at most four decimal places within the room is in the exact PIT domain.
proof fn lemma_small_exact_pit(v: DecimalView)
    requires
        v.wf(),
        v.scale <= 4,
        abs_int(v.units()) <= 2 * cents_total(),
    ensures
        exact_pit_domain(v),
{
    lemma_cents_room();
    let k = (max_scale() - v.scale) as nat;
    lemma_pow10_monotone(24, k);
    reveal_with_fuel(pow10, 25);
    assert(pow10(24) == 1000000000000000000000000);
    lemma_abs_units(v);
    let d = v.digits as int;
    let p = pow10(k) as int;
    assert(abs_view(v).units() == d * p);
    assert(d <= 2000000000000000000000000) by (nonlinear_arith)
        requires
            d * p <= 2 * 100000000000000000000 * 10000000000000000000000000000,
            p >= 1000000000000000000000000,
            d >= 0,
    ;
}

/// Exact addition of two figures of at most four decimal places within the room.
proof fn lemma_add4(a: DecimalView, b: DecimalView, r: DecimalView)
    requires
        a.wf(),
        b.wf(),
        sum_facts(a, b, r),
        a.scale <= 4,
        b.scale <= 4,
        abs_int(a.units()) <= 2 * cents_total(),
        abs_int(b.units()) <= 2 * cents_total(),
    ensures
        r.units() == a.units() + b.units(),
        r.scale <= 4,
        r.wf(),
{
    lemma_cents_room();
    lemma_sum_exact(a, b, r, 4);
}

/// Exact subtraction of two figures of at most four decimal places within the room.
proof fn lemma_sub4(a: DecimalView, b: DecimalView, r: DecimalView)
    requires
        a.wf(),
        b.wf(),
        difference_facts(a, b, r),
        a.scale <= 4,
        b.scale <= 4,
        abs_int(a.units()) <= 2 * cents_total(),
        abs_int(b.units()) <= 2 * cents_total(),
    ensures
        r.units() == a.units() - b.units(),
        r.scale <= 4,
        r.wf(),
{
    lemma_cents_room();
    lemma_difference_exact(a, b, r, 4);
}

/// 20% of a rent of at most two decimal places within the room is exact: a fifth of its
/// magnitude, at most four decimal places.
proof fn lemma_rent_applicable(a: DecimalView, rent_paid: DecimalView, applicable: DecimalView)
    requires
        a.wf(),
        a.scale <= 2,
        abs_int(a.units()) <= cents_total(),
        rent_paid == abs_view(a),
        product_facts(rent_paid, hundredths(20), applicable),
    ensures
        5 * applicable.units() == abs_int(a.units()),
        applicable.scale <= 4,
        applicable.wf(),
{
    lemma_cents_room();
    lemma_abs_units(a);
    lemma_zero_units();
    if a.digits == 0 {
        lemma_units_bound(a);
        assert(applicable == zero_view());
    } else {
        let k = (max_scale() - a.scale) as nat;
        lemma_pow10_monotone(26, k);
        lemma_pow10_28();
        assert(rent_paid.units() == rent_paid.digits * pow10(k));
        let d = rent_paid.digits as int;
        let p = pow10(k) as int;
        assert(d <= 10000000000000000000000) by (nonlinear_arith)
            requires
                d * p <= 100000000000000000000 * 10000000000000000000000000000,
                p >= 100000000000000000000000000,
                d >= 0,
        ;
        assert(rent_paid.digits * 20 < digits_limit());
        lemma_exact_rate_product(rent_paid, 20, applicable);
    }
}

/// The PIT totals after the first `n` transactions.
pub open spec fn pit_totals(txns: Seq<ParsedTransaction>, n: nat, rent_used: DecimalView) -> PitTotals
    decreases n,
{
    if n == 0 {
        PitTotals { delta: zero_view(), credit: zero_view(), rent_used }
    } else {
        pit_step(pit_totals(txns, (n - 1) as nat, rent_used), txns[n - 1])
    }
}

/// One transaction of an LLC statement. Every inflow counts towards the credit flow;
/// income adds to the taxable income (and inflows to the turnover); business expenses and
/// deductions subtract their magnitude and add it to the expenses.
pub open spec fn llc_step(acc: LlcTotals, t: ParsedTransaction) -> LlcTotals {
    let a = t.amount@;
    let credit = credit_after(acc.credit, a);
    if t.role == TransactionRole::Unknown {
        LlcTotals { credit, ..acc }
    } else if t.role == TransactionRole::Income {
        LlcTotals {
            delta: decimal_sum(acc.delta, a),
            credit,
            turnover: credit_after(acc.turnover, a),
            expenses: acc.expenses,
        }
    } else if t.role == TransactionRole::BusinessExp || t.role == TransactionRole::Deduction {
        LlcTotals {
            delta: decimal_difference(acc.delta, abs_view(a)),
            credit,
            turnover: acc.turnover,
            expenses: decimal_sum(acc.expenses, abs_view(a)),
        }
    } else {
        LlcTotals { credit, ..acc }
    }
}

/// The LLC totals after the first `n` transactions.
pub open spec fn llc_totals(txns: Seq<ParsedTransaction>, n: nat, turnover: DecimalView, expenses: DecimalView) -> LlcTotals
    decreases n,
{
    if n == 0 {
        LlcTotals { delta: zero_view(), credit: zero_view(), turnover, expenses }
    } else {
        llc_step(llc_totals(txns, (n - 1) as nat, turnover, expenses), txns[n - 1])
    }
}

/// The credit flow of the first `n` transactions: the magnitudes of every inflow (an
/// amount whose sign is not negative), whatever its role, added up in order.
pub open spec fn credit_flow(txns: Seq<ParsedTransaction>, n: nat) -> DecimalView
    decreases n,
{
    if n == 0 {
        zero_view()
    } else {
        credit_after(credit_flow(txns, (n - 1) as nat), txns[n - 1].amount@)
    }
}

proof fn lemma_pit_credit(txns: Seq<ParsedTransaction>, n: nat, rent_used: DecimalView)
    ensures
        pit_totals(txns, n, rent_used).credit == credit_flow(txns, n),
    decreases n,
{
    if n > 0 {
        lemma_pit_credit(txns, (n - 1) as nat, rent_used);
    }
}

proof fn lemma_llc_credit(txns: Seq<ParsedTransaction>, n: nat, turnover: DecimalView, expenses: DecimalView)
    ensures
        llc_totals(txns, n, turnover, expenses).credit == credit_flow(txns, n),
    decreases n,
{
    if n > 0 {
        lemma_llc_credit(txns, (n - 1) as nat, turnover, expenses);
    }
}

/// A statement is reliable unless more than 30% of its transactions are unknown.
pub open spec fn reliable_share(unknown: nat, n: nat) -> bool {
    n == 0 || 10 * unknown <= 3 * n
}

/// The transactions among the first `n` whose role is unknown, in order.
pub open spec fn unknowns(txns: Seq<ParsedTransaction>, n: nat) -> Seq<ParsedTransaction>
    decreases n,
{
    if n == 0 {
        Seq::empty()
    } else if txns[n - 1].role == TransactionRole::Unknown {
        unknowns(txns, (n - 1) as nat).push(txns[n - 1])
    } else {
        unknowns(txns, (n - 1) as nat)
    }
}

/// The sum of the magnitudes of the first `n` amounts, with four naira of headroom each
/// for the rounding of the decimal operations.
pub open spec fn statement_magnitude(txns: Seq<ParsedTransaction>, n: nat) -> int
    decreases n,
{
    if n == 0 {
        0
    } else {
        statement_magnitude(txns, (n - 1) as nat) + abs_int(txns[n - 1].amount@.units()) + 4 * one()
    }
}

/// The magnitude of the year-to-date values a statement adds to.
pub open spec fn state_magnitude(state: UserTaxState) -> int {
    match state {
        UserTaxState::PIT(p) => abs_int(p.taxable_income_ytd@.units()) + abs_int(p.rent_relief_used_ytd@.units()),
        UserTaxState::LLC(l) => abs_int(l.taxable_income_ytd@.units()) + abs_int(l.gross_turnover_ytd@.units())
            + abs_int(l.business_expenses_ytd@.units()),
    }
}

/// 3 x 10^28 naira: statements and states stay below this so that no decimal operation
/// of the calculation leaves the 96-bit range. The bound is this library's choice, not
/// rust_decimal's limit (about 7.9 x 10^28): it is a simple sum of magnitudes that covers
/// every intermediate total, the rent relief and the tax on the result at once.
pub open spec fn statement_limit() -> int {
    30000000000000000000000000000 * one()
}

/// Statements on which the rent relief arithmetic is exact: the relief used so far is
/// between 0 and the 500,000 cap at no more than 22 decimal places, and every rent
/// payment has at most 20 decimal places and room for a factor of 100.
pub open spec fn rent_cap_domain(statement: Seq<ParsedTransaction>, rent_used: DecimalView) -> bool {
    &&& 0 <= rent_used.units() <= 500000 * one()
    &&& rent_used.scale <= 22
    &&& forall|k: int|
        0 <= k < statement.len() && (#[trigger] statement[k]).role == TransactionRole::Rent ==> statement[k].amount@.scale
            <= 20 && statement[k].amount@.digits * 100 < digits_limit()
}

/// For a PIT user, the rent relief used after the statement stays within the cap. Outside
/// `rent_cap_domain` rust_decimal's rounding decides: with a negative relief used so far
/// at 23 decimal places, the rounded remaining allowance can carry it just past the cap.
pub open spec fn rent_relief_capped(statement: Seq<ParsedTransaction>, old: UserTaxState, new: UserTaxState) -> bool {
    match (old, new) {
        (UserTaxState::PIT(o), UserTaxState::PIT(w)) => rent_cap_domain(statement, o.rent_relief_used_ytd@)
            ==> 0 <= w.rent_relief_used_ytd@.units() <= 500000 * one(),
        _ => true,
    }
}

/// Two reports agree on every figure.
pub open spec fn same_report(a: CalculationResult, b: CalculationResult) -> bool {
    &&& a.taxable_income_delta@ == b.taxable_income_delta@
    &&& a.annual_taxable_income@ == b.annual_taxable_income@
    &&& a.tax_payable_ytd@ == b.tax_payable_ytd@
    &&& a.tax_delta@ == b.tax_delta@
    &&& a.development_levy_ytd@ == b.development_levy_ytd@
    &&& a.development_levy_delta@ == b.development_levy_delta@
    &&& a.total_credit_flow@ == b.total_credit_flow@
    &&& a.is_valid_for_use == b.is_valid_for_use
    &&& a.unknown_transactions@ == b.unknown_transactions@
}

pub open spec fn within_statement_limit(statement: Seq<ParsedTransaction>, state: UserTaxState) -> bool {
    state_magnitude(state) + statement_magnitude(statement, statement.len()) <= statement_limit()
}

/// A decimal's magnitude rounded up to whole naira.
pub open spec fn naira_ceiling(v: DecimalView) -> nat {
    ((v.digits + pow10(v.scale) - 1) / (pow10(v.scale) as int)) as nat
}

/// The first `n` amounts' magnitudes in whole naira, rounded up, with four naira each
/// for rounding.
pub open spec fn statement_naira(txns: Seq<ParsedTransaction>, n: nat) -> nat
    decreases n,
{
    if n == 0 {
        0
    } else {
        statement_naira(txns, (n - 1) as nat) + naira_ceiling(txns[n - 1].amount@) + 4
    }
}

pub open spec fn state_naira(state: UserTaxState) -> nat {
    match state {
        UserTaxState::PIT(p) => naira_ceiling(p.taxable_income_ytd@) + naira_ceiling(p.rent_relief_used_ytd@),
        UserTaxState::LLC(l) => naira_ceiling(l.taxable_income_ytd@) + naira_ceiling(l.gross_turnover_ytd@)
            + naira_ceiling(l.business_expenses_ytd@),
    }
}

/// The statement and state counted in whole naira stay within 3 x 10^28.
pub open spec fn fits_in_naira(statement: Seq<ParsedTransaction>, state: UserTaxState) -> bool {
    state_naira(state) + statement_naira(statement, statement.len()) <= 30000000000000000000000000000
}

proof fn lemma_naira_ceiling(v: DecimalView)
    requires
        v.wf(),
    ensures
        abs_int(v.units()) <= naira_ceiling(v) * one(),
{
    let p = pow10(v.scale);
    let q = pow10((max_scale() - v.scale) as nat);
    lemma_pow10_positive(v.scale);
    lemma_pow10_positive((max_scale() - v.scale) as nat);
    lemma_pow10_add(v.scale, (max_scale() - v.scale) as nat);
    assert(v.scale + (max_scale() - v.scale) as nat == max_scale());
    let d = v.digits as int;
    let c = naira_ceiling(v) as int;
    assert(c * p >= d) by (nonlinear_arith)
        requires
            p >= 1,
            d >= 0,
            c == (d + p - 1) / (p as int),
    {
    }
    assert(abs_int(v.units()) == d * q) by (nonlinear_arith)
        requires
            v.units() == v.signed() * q,
            v.signed() == d || v.signed() == -d,
            d >= 0,
            q >= 1,
    {
    }
    assert(d * q <= c * p * q) by (nonlinear_arith)
        requires
            c * p >= d,
            q >= 1,
    {
    }
    assert(c * p * q == c * one()) by (nonlinear_arith)
        requires
            one() == p * q,
    {
    }
}

proof fn lemma_statement_naira(txns: Seq<ParsedTransaction>, n: nat)
    requires
        n <= txns.len(),
        forall|k: int| 0 <= k < n ==> (#[trigger] txns[k]).amount@.wf(),
    ensures
        statement_magnitude(txns, n) <= statement_naira(txns, n) * one(),
    decreases n,
{
    if n > 0 {
        lemma_statement_naira(txns, (n - 1) as nat);
        lemma_naira_ceiling(txns[n - 1].amount@);
        let a = statement_naira(txns, (n - 1) as nat) as int;
        let c = naira_ceiling(txns[n - 1].amount@) as int;
        assert((a + c + 4) * one() == a * one() + c * one() + 4 * one()) by (nonlinear_arith);
    }
}

/// Naira-rounded figures within the bound keep the statement within the calculator's
/// limit.
pub proof fn lemma_fits_in_naira(statement: Seq<ParsedTransaction>, state: UserTaxState)
    requires
        fits_in_naira(statement, state),
        forall|k: int| 0 <= k < statement.len() ==> (#[trigger] statement[k]).amount@.wf(),
        state_wf(state),
    ensures
        within_statement_limit(statement, state),
{
    lemma_statement_naira(statement, statement.len());
    lemma_pow10_positive(max_scale());
    match state {
        UserTaxState::PIT(p) => {
            lemma_naira_ceiling(p.taxable_income_ytd@);
            lemma_naira_ceiling(p.rent_relief_used_ytd@);
            let c1 = naira_ceiling(p.taxable_income_ytd@) as int;
            let c2 = naira_ceiling(p.rent_relief_used_ytd@) as int;
            assert((c1 + c2) * one() == c1 * one() + c2 * one()) by (nonlinear_arith);
        },
        UserTaxState::LLC(l) => {
            lemma_naira_ceiling(l.taxable_income_ytd@);
            lemma_naira_ceiling(l.gross_turnover_ytd@);
            lemma_naira_ceiling(l.business_expenses_ytd@);
            let c1 = naira_ceiling(l.taxable_income_ytd@) as int;
            let c2 = naira_ceiling(l.gross_turnover_ytd@) as int;
            let c3 = naira_ceiling(l.business_expenses_ytd@) as int;
            assert((c1 + c2 + c3) * one() == c1 * one() + c2 * one() + c3 * one()) by (nonlinear_arith);
        },
    }
    assert(state_magnitude(state) <= state_naira(state) * one());
    let s = state_naira(state) as int;
    let t = statement_naira(statement, statement.len()) as int;
    assert(s * one() + t * one() <= 30000000000000000000000000000 * one()) by (nonlinear_arith)
        requires
            s + t <= 30000000000000000000000000000,
            one() >= 1,
    {
    }
}

/// The amounts a state holds are well formed.
pub open spec fn state_wf(state: UserTaxState) -> bool {
    match state {
        UserTaxState::PIT(p) => p.taxable_income_ytd@.wf() && p.rent_relief_used_ytd@.wf(),
        UserTaxState::LLC(l) => l.taxable_income_ytd@.wf() && l.gross_turnover_ytd@.wf() && l.business_expenses_ytd@.wf(),
    }
}

/// `10^n` for a scale.
fn pow10_exec(n: u32) -> (r: u128)
    requires
        n <= 28,
    ensures
        r == pow10(n as nat),
{
    let mut p: u128 = 1;
    let mut k: u32 = 0;
    while k < n
        invariant
            k <= n <= 28,
            p == pow10(k as nat),
        decreases n - k,
    {
        proof {
            lemma_pow10_monotone(k as nat, 28);
            lemma_pow10_28();
        }
        p = p * 10;
        k = k + 1;
    }
    p
}

/// An amount's magnitude rounded up to whole naira.
fn naira_ceiling_exec(a: &Amount) -> (r: u128)
    ensures
        r == naira_ceiling(a@),
        r <= a@.digits,
        a@.wf(),
{
    a.wf();
    let p = pow10_exec(a.scale());
    let d = a.digits();
    proof {
        lemma_pow10_positive(a@.scale);
        lemma_pow10_monotone(a@.scale, 28);
        lemma_pow10_28();
        assert((d + p - 1) / (p as int) <= d) by (nonlinear_arith)
            requires
                p >= 1,
                d >= 0,
        {
        }
    }
    (d + (p - 1)) / p
}

/// Whether a statement and a state, rounded up to whole naira, stay within 3 x 10^28;
/// when they do, the calculator's limit holds.
pub fn fits_statement_limit(statement: &Vec<ParsedTransaction>, state: &UserTaxState) -> (r: bool)
    ensures
        r == fits_in_naira(statement@, *state),
        r ==> within_statement_limit(statement@, *state),
{
    let bound: u128 = 30000000000000000000000000000;
    let mut total: u128 = match state {
        UserTaxState::PIT(p) => naira_ceiling_exec(&p.taxable_income_ytd) + naira_ceiling_exec(&p.rent_relief_used_ytd),
        UserTaxState::LLC(l) => naira_ceiling_exec(&l.taxable_income_ytd) + naira_ceiling_exec(&l.gross_turnover_ytd)
            + naira_ceiling_exec(&l.business_expenses_ytd),
    };
    let mut i: usize = 0;
    while i < statement.len()
        invariant
            i <= statement.len(),
            bound == 30000000000000000000000000000,
            total == state_naira(*state) + statement_naira(statement@, i as nat),
            total <= 3 * digits_limit(),
            forall|k: int| 0 <= k < i ==> (#[trigger] statement@[k]).amount@.wf(),
        decreases statement.len() - i,
    {
        if total > bound {
            proof {
                lemma_statement_naira_grows(statement@, i as nat, statement.len() as nat);
            }
            return false;
        }
        let c = naira_ceiling_exec(&statement[i].amount);
        total = total + c + 4;
        i = i + 1;
    }
    let r = total <= bound;
    proof {
        if r {
            lemma_fits_in_naira(statement@, *state);
        }
    }
    r
}

proof fn lemma_statement_naira_grows(txns: Seq<ParsedTransaction>, i: nat, n: nat)
    requires
        i <= n <= txns.len(),
    ensures
        statement_naira(txns, i) <= statement_naira(txns, n),
    decreases n - i,
{
    if i < n {
        lemma_statement_naira_grows(txns, i, (n - 1) as nat);
    }
}

pub open spec fn taxable_view(s: UserTaxState) -> DecimalView {
    match s {
        UserTaxState::PIT(p) => p.taxable_income_ytd@,
        UserTaxState::LLC(l) => l.taxable_income_ytd@,
    }
}

pub open spec fn tax_payable_view(s: UserTaxState) -> DecimalView {
    match s {
        UserTaxState::PIT(p) => pit_tax_view(p.taxable_income_ytd@),
        UserTaxState::LLC(l) => llc_tax_view(l.taxable_income_ytd@, l.gross_turnover_ytd@, l.fixed_assets_value@),
    }
}

pub open spec fn levy_view(s: UserTaxState) -> DecimalView {
    match s {
        UserTaxState::PIT(_) => zero_view(),
        UserTaxState::LLC(l) => development_levy_view(
            l.taxable_income_ytd@,
            l.gross_turnover_ytd@,
            l.fixed_assets_value@,
        ),
    }
}

/// The state after a statement: the taxable income grows by the statement's delta, the
/// rent relief used (PIT) or turnover and expenses (LLC) by what the statement brought,
/// the LLC development levy is recomputed, and everything else stays.
pub open spec fn state_after(statement: Seq<ParsedTransaction>, old: UserTaxState, new: UserTaxState) -> bool {
    let n = statement.len();
    match (old, new) {
        (UserTaxState::PIT(o), UserTaxState::PIT(w)) => {
            let acc = pit_totals(statement, n, o.rent_relief_used_ytd@);
            &&& w.user_id == o.user_id
            &&& w.tax_year == o.tax_year
            &&& w.taxable_income_ytd@ == decimal_sum(o.taxable_income_ytd@, acc.delta)
            &&& w.rent_relief_used_ytd@ == acc.rent_used
            &&& w.pension_deduction_ytd == o.pension_deduction_ytd
            &&& w.nhis_deduction_ytd == o.nhis_deduction_ytd
            &&& w.nhf_deduction_ytd == o.nhf_deduction_ytd
            &&& w.life_insurance_ytd == o.life_insurance_ytd
        },
        (UserTaxState::LLC(o), UserTaxState::LLC(w)) => {
            let acc = llc_totals(statement, n, o.gross_turnover_ytd@, o.business_expenses_ytd@);
            &&& w.user_id == o.user_id
            &&& w.tax_year == o.tax_year
            &&& w.taxable_income_ytd@ == decimal_sum(o.taxable_income_ytd@, acc.delta)
            &&& w.gross_turnover_ytd@ == acc.turnover
            &&& w.business_expenses_ytd@ == acc.expenses
            &&& w.fixed_assets_value == o.fixed_assets_value
            &&& w.development_levy_ytd@ == development_levy_view(
                w.taxable_income_ytd@,
                w.gross_turnover_ytd@,
                w.fixed_assets_value@,
            )
        },
        _ => false,
    }
}

/// The statement's taxable income delta and credit flow.
pub open spec fn delta_and_credit(statement: Seq<ParsedTransaction>, old: UserTaxState) -> (DecimalView, DecimalView) {
    let n = statement.len();
    match old {
        UserTaxState::PIT(o) => {
            let acc = pit_totals(statement, n, o.rent_relief_used_ytd@);
            (acc.delta, credit_flow(statement, n))
        },
        UserTaxState::LLC(o) => {
            let acc = llc_totals(statement, n, o.gross_turnover_ytd@, o.business_expenses_ytd@);
            (acc.delta, credit_flow(statement, n))
        },
    }
}

/// The year-to-date taxable income after the statement.
pub open spec fn new_taxable_view(statement: Seq<ParsedTransaction>, old: UserTaxState) -> DecimalView {
    decimal_sum(taxable_view(old), delta_and_credit(statement, old).0)
}

/// The year-to-date tax payable after the statement.
pub open spec fn new_tax_view(statement: Seq<ParsedTransaction>, old: UserTaxState) -> DecimalView {
    match old {
        UserTaxState::PIT(_) => pit_tax_view(new_taxable_view(statement, old)),
        UserTaxState::LLC(o) => llc_tax_view(
            new_taxable_view(statement, old),
            llc_totals(statement, statement.len(), o.gross_turnover_ytd@, o.business_expenses_ytd@).turnover,
            o.fixed_assets_value@,
        ),
    }
}

/// The year-to-date development levy after the statement.
pub open spec fn new_levy_view(statement: Seq<ParsedTransaction>, old: UserTaxState) -> DecimalView {
    match old {
        UserTaxState::PIT(_) => zero_view(),
        UserTaxState::LLC(o) => development_levy_view(
            new_taxable_view(statement, old),
            llc_totals(statement, statement.len(), o.gross_turnover_ytd@, o.business_expenses_ytd@).turnover,
            o.fixed_assets_value@,
        ),
    }
}

/// The report of a statement: its delta and credit flow, its unknown transactions (in
/// order), whether at most 30% of its transactions are unknown, and the year-to-date
/// taxable income, tax and levy after it, with their change.
pub open spec fn result_after(statement: Seq<ParsedTransaction>, old: UserTaxState, res: CalculationResult) -> bool {
    let n = statement.len();
    &&& res.taxable_income_delta@ == delta_and_credit(statement, old).0
    &&& res.total_credit_flow@ == delta_and_credit(statement, old).1
    &&& res.unknown_transactions@ == unknowns(statement, n)
    &&& res.is_valid_for_use == reliable_share(unknowns(statement, n).len(), n)
    &&& res.annual_taxable_income@ == new_taxable_view(statement, old)
    &&& res.tax_payable_ytd@ == new_tax_view(statement, old)
    &&& res.tax_delta@ == decimal_difference(new_tax_view(statement, old), tax_payable_view(old))
    &&& res.development_levy_ytd@ == new_levy_view(statement, old)
    &&& res.development_levy_delta@ == decimal_difference(new_levy_view(statement, old), levy_view(old))
}

proof fn lemma_magnitude_monotone(txns: Seq<ParsedTransaction>, i: nat, n: nat)
    requires
        i <= n,
        one() > 0,
    ensures
        0 <= statement_magnitude(txns, i) <= statement_magnitude(txns, n),
    decreases n,
{
    if n > 0 {
        if i < n {
            lemma_magnitude_monotone(txns, i, (n - 1) as nat);
        } else {
            lemma_magnitude_monotone(txns, (n - 1) as nat, (n - 1) as nat);
        }
    }
}

proof fn lemma_twenty_percent()
    ensures
        hundredths(20).wf(),
        0 <= hundredths(20).units(),
        4 * hundredths(20).units() <= one(),
        whole(500000).wf(),
        whole(500000).units() == 500000 * one(),
{
    lemma_pow10_28();
    assert((max_scale() - 2) as nat == 26);
    assert((max_scale() - 0) as nat == 28);
}

/// One rent payment where the relief arithmetic is exact keeps the relief used within
/// the cap.
proof fn lemma_rent_cap_step(
    amount: DecimalView,
    rent_paid: DecimalView,
    applicable: DecimalView,
    used: DecimalView,
    remaining: DecimalView,
    relief: DecimalView,
    used2: DecimalView,
)
    requires
        amount.wf(),
        amount.scale <= 20,
        amount.digits * 100 < digits_limit(),
        rent_paid == abs_view(amount),
        product_facts(rent_paid, hundredths(20), applicable),
        used.wf(),
        0 <= used.units() <= 500000 * one(),
        used.scale <= 22,
        difference_facts(whole(500000), used, remaining),
        remaining.units() > 0,
        relief == min_view(applicable, remaining),
        sum_facts(used, relief, used2),
    ensures
        0 <= used2.units() <= 500000 * one(),
        used2.scale <= 22,
{
    lemma_pow10_28();
    lemma_twenty_percent();
    lemma_abs_units(amount);
    lemma_units_bound(amount);
    lemma_units_bound(used);
    lemma_units_bound(applicable);
    lemma_pow10_monotone(6, (max_scale() - 22) as nat);
    reveal_with_fuel(pow10, 7);
    assert(exact_room(22) >= digits_limit() * 1000000);
    assert(digits_limit() * 1000000 > 2000000 * one());
    // 500,000 less what is used, exactly
    lemma_difference_exact(whole(500000), used, remaining, 22);
    // the applicable relief is 20% of the rent, exactly
    if amount.digits == 0 {
        assert(applicable == zero_view());
        lemma_zero_units();
    } else {
        assert(rent_paid.digits * 20 < digits_limit()) by (nonlinear_arith)
            requires rent_paid.digits == amount.digits, amount.digits * 100 < digits_limit();
        lemma_exact_rate_product(rent_paid, 20, applicable);
        assert(applicable.units() >= 0) by (nonlinear_arith)
            requires 100 * applicable.units() == 20 * rent_paid.units(), rent_paid.units() >= 0;
    }
    assert(applicable.scale <= 22);
    assert(0 <= relief.units() <= remaining.units());
    assert(relief.scale <= 22);
    lemma_sum_exact(used, relief, used2, 22);
}

/// What the preview shows is what finalising reports: both give the same figures for
/// the same statement and state.
pub proof fn lemma_preview_matches_finalize(
    statement: Seq<ParsedTransaction>,
    state: UserTaxState,
    preview: CalculationResult,
    finalized: CalculationResult,
)
    requires
        result_after(statement, state, preview),
        result_after(statement, state, finalized),
    ensures
        same_report(preview, finalized),
{
}

/// The year-to-date figures of a finalised report are those of the state it leads to.
pub proof fn lemma_report_matches_new_state(
    statement: Seq<ParsedTransaction>,
    old: UserTaxState,
    new: UserTaxState,
    res: CalculationResult,
)
    requires
        state_after(statement, old, new),
        result_after(statement, old, res),
    ensures
        res.annual_taxable_income@ == taxable_view(new),
        res.tax_payable_ytd@ == tax_payable_view(new),
        res.development_levy_ytd@ == levy_view(new),
{
}

proof fn lemma_totals_of_prefix(txns: Seq<ParsedTransaction>, u: ParsedTransaction, k: nat, rent_used: DecimalView, turnover: DecimalView, expenses: DecimalView)
    requires
        k <= txns.len(),
    ensures
        pit_totals(txns.push(u), k, rent_used) == pit_totals(txns, k, rent_used),
        llc_totals(txns.push(u), k, turnover, expenses) == llc_totals(txns, k, turnover, expenses),
        unknowns(txns.push(u), k) == unknowns(txns, k),
    decreases k,
{
    if k > 0 {
        lemma_totals_of_prefix(txns, u, (k - 1) as nat, rent_used, turnover, expenses);
        assert(txns.push(u)[k - 1] == txns[k - 1]);
    }
}

/// The unknown transactions of two statements read one after the other are those of the
/// first followed by those of the second.
pub proof fn lemma_unknowns_concatenate(first: Seq<ParsedTransaction>, second: Seq<ParsedTransaction>)
    ensures
        unknowns(first + second, first.len() + second.len()) == unknowns(first, first.len()) + unknowns(
            second,
            second.len(),
        ),
    decreases second.len(),
{
    let all = first + second;
    if second.len() == 0 {
        assert(all =~= first);
        assert(unknowns(first, first.len()) + unknowns(second, 0) =~= unknowns(first, first.len()));
    } else {
        let rest = second.drop_last();
        lemma_unknowns_concatenate(first, rest);
        let n = first.len() + rest.len();
        lemma_unknowns_of_prefix(all, first + rest, n);
        lemma_unknowns_of_prefix(second, rest, rest.len());
        assert(all[n as int] == second.last());
        assert(second[rest.len() as int] == second.last());
        if second.last().role == TransactionRole::Unknown {
            assert(unknowns(first, first.len()) + unknowns(rest, rest.len()).push(second.last()) =~= (unknowns(
                first,
                first.len(),
            ) + unknowns(rest, rest.len())).push(second.last()));
        }
    }
}

pub proof fn lemma_unknowns_of_prefix(longer: Seq<ParsedTransaction>, shorter: Seq<ParsedTransaction>, k: nat)
    requires
        k <= shorter.len() <= longer.len(),
        forall|i: int| 0 <= i < shorter.len() ==> longer[i] == shorter[i],
    ensures
        unknowns(longer, k) == unknowns(shorter, k),
    decreases k,
{
    if k > 0 {
        lemma_unknowns_of_prefix(longer, shorter, (k - 1) as nat);
    }
}

proof fn lemma_magnitude_concat(s1: Seq<ParsedTransaction>, s2: Seq<ParsedTransaction>, k: nat)
    requires
        k <= s2.len(),
    ensures
        statement_magnitude(s1 + s2, s1.len() + k) == statement_magnitude(s1, s1.len()) + statement_magnitude(s2, k),
        statement_magnitude(s1 + s2, s1.len()) == statement_magnitude(s1, s1.len()),
    decreases k,
{
    lemma_magnitude_prefix(s1 + s2, s1, s1.len());
    if k > 0 {
        lemma_magnitude_concat(s1, s2, (k - 1) as nat);
        assert((s1 + s2)[s1.len() + k - 1] == s2[k - 1]);
    }
}

pub proof fn lemma_magnitude_prefix(longer: Seq<ParsedTransaction>, shorter: Seq<ParsedTransaction>, k: nat)
    requires
        k <= shorter.len() <= longer.len(),
        forall|i: int| 0 <= i < shorter.len() ==> longer[i] == shorter[i],
    ensures
        statement_magnitude(longer, k) == statement_magnitude(shorter, k),
    decreases k,
{
    if k > 0 {
        lemma_magnitude_prefix(longer, shorter, (k - 1) as nat);
    }
}

pub proof fn lemma_pit_units_prefix(longer: Seq<ParsedTransaction>, shorter: Seq<ParsedTransaction>, k: nat, acc: (int, int))
    requires
        k <= shorter.len() <= longer.len(),
        forall|i: int| 0 <= i < shorter.len() ==> longer[i] == shorter[i],
    ensures
        pit_units(longer, k, acc) == pit_units(shorter, k, acc),
    decreases k,
{
    if k > 0 {
        lemma_pit_units_prefix(longer, shorter, (k - 1) as nat, acc);
    }
}

pub proof fn lemma_llc_units_prefix(longer: Seq<ParsedTransaction>, shorter: Seq<ParsedTransaction>, k: nat, acc: (int, int, int))
    requires
        k <= shorter.len() <= longer.len(),
        forall|i: int| 0 <= i < shorter.len() ==> longer[i] == shorter[i],
    ensures
        llc_units(longer, k, acc) == llc_units(shorter, k, acc),
    decreases k,
{
    if k > 0 {
        lemma_llc_units_prefix(longer, shorter, (k - 1) as nat, acc);
    }
}

/// The exact PIT pass over two statements joined is the pass over the second from where
/// the first left off; the delta it starts from is carried through unchanged.
proof fn lemma_pit_units_concat(s1: Seq<ParsedTransaction>, s2: Seq<ParsedTransaction>, k: nat, acc: (int, int))
    requires
        k <= s2.len(),
    ensures
        pit_units(s1 + s2, s1.len() + k, acc) == pit_units(s2, k, pit_units(s1, s1.len(), acc)),
    decreases k,
{
    if k == 0 {
        lemma_pit_units_prefix(s1 + s2, s1, s1.len(), acc);
    } else {
        lemma_pit_units_concat(s1, s2, (k - 1) as nat, acc);
        assert((s1 + s2)[s1.len() + k - 1] == s2[k - 1]);
    }
}

proof fn lemma_llc_units_concat(s1: Seq<ParsedTransaction>, s2: Seq<ParsedTransaction>, k: nat, acc: (int, int, int))
    requires
        k <= s2.len(),
    ensures
        llc_units(s1 + s2, s1.len() + k, acc) == llc_units(s2, k, llc_units(s1, s1.len(), acc)),
    decreases k,
{
    if k == 0 {
        lemma_llc_units_prefix(s1 + s2, s1, s1.len(), acc);
    } else {
        lemma_llc_units_concat(s1, s2, (k - 1) as nat, acc);
        assert((s1 + s2)[s1.len() + k - 1] == s2[k - 1]);
    }
}

/// The delta a pass starts from is carried through unchanged, and the figures move by at
/// most the statement's magnitude (twice it for the LLC figures).
proof fn lemma_pit_units_shift(s: Seq<ParsedTransaction>, k: nat, d: int, u: int)
    requires
        k <= s.len(),
        one() > 0,
    ensures
        pit_units(s, k, (d, u)).0 == d + pit_units(s, k, (0, u)).0,
        pit_units(s, k, (d, u)).1 == pit_units(s, k, (0, u)).1,
        abs_int(pit_units(s, k, (0, u)).0) + abs_int(pit_units(s, k, (0, u)).1 - u) <= statement_magnitude(s, k),
    decreases k,
{
    if k > 0 {
        lemma_pit_units_shift(s, (k - 1) as nat, d, u);
    }
}

proof fn lemma_llc_units_shift(s: Seq<ParsedTransaction>, k: nat, d: int, tv: int, ex: int)
    requires
        k <= s.len(),
        one() > 0,
    ensures
        llc_units(s, k, (d, tv, ex)).0 == d + llc_units(s, k, (0, tv, ex)).0,
        llc_units(s, k, (d, tv, ex)).1 == llc_units(s, k, (0, tv, ex)).1,
        llc_units(s, k, (d, tv, ex)).2 == llc_units(s, k, (0, tv, ex)).2,
        abs_int(llc_units(s, k, (0, tv, ex)).0) + abs_int(llc_units(s, k, (0, tv, ex)).1 - tv) + abs_int(
            llc_units(s, k, (0, tv, ex)).2 - ex,
        ) <= 2 * statement_magnitude(s, k),
    decreases k,
{
    if k > 0 {
        lemma_llc_units_shift(s, (k - 1) as nat, d, tv, ex);
    }
}

/// The year-to-date figures two states agree on after the same statements: the same
/// taxable income, relief used (PIT) or turnover and expenses (LLC) in value, and the same
/// user, year and other fields.
pub open spec fn same_figures(a: UserTaxState, b: UserTaxState) -> bool {
    match (a, b) {
        (UserTaxState::PIT(x), UserTaxState::PIT(y)) => {
            &&& x.user_id == y.user_id
            &&& x.tax_year == y.tax_year
            &&& x.taxable_income_ytd@.units() == y.taxable_income_ytd@.units()
            &&& x.rent_relief_used_ytd@.units() == y.rent_relief_used_ytd@.units()
            &&& x.pension_deduction_ytd == y.pension_deduction_ytd
            &&& x.nhis_deduction_ytd == y.nhis_deduction_ytd
            &&& x.nhf_deduction_ytd == y.nhf_deduction_ytd
            &&& x.life_insurance_ytd == y.life_insurance_ytd
        },
        (UserTaxState::LLC(x), UserTaxState::LLC(y)) => {
            &&& x.user_id == y.user_id
            &&& x.tax_year == y.tax_year
            &&& x.taxable_income_ytd@.units() == y.taxable_income_ytd@.units()
            &&& x.gross_turnover_ytd@.units() == y.gross_turnover_ytd@.units()
            &&& x.business_expenses_ytd@.units() == y.business_expenses_ytd@.units()
            &&& x.fixed_assets_value == y.fixed_assets_value
        },
        _ => false,
    }
}

/// Finalising two statements one after the other gives what finalising them joined
/// gives, where the arithmetic is exact: the same year-to-date figures, a taxable income
/// delta that is the sum of the two deltas, the unknown transactions of the first
/// followed by those of the second, and the same tax (and, for a company, levy), each
/// change being the sum of the two changes.
pub proof fn lemma_statements_chain(
    s1: Seq<ParsedTransaction>,
    s2: Seq<ParsedTransaction>,
    st: UserTaxState,
    r1: CalculationResult,
    st1: UserTaxState,
    r2: CalculationResult,
    st2: UserTaxState,
    r: CalculationResult,
    st12: UserTaxState,
)
    requires
        exact_domain(s1 + s2, st),
        result_after(s1, st, r1),
        state_after(s1, st, st1),
        exact_outcome(s1, st, r1, st1),
        result_after(s2, st1, r2),
        state_after(s2, st1, st2),
        exact_outcome(s2, st1, r2, st2),
        result_after(s1 + s2, st, r),
        state_after(s1 + s2, st, st12),
        exact_outcome(s1 + s2, st, r, st12),
    ensures
        r.taxable_income_delta@.units() == r1.taxable_income_delta@.units() + r2.taxable_income_delta@.units(),
        same_figures(st12, st2),
        r.unknown_transactions@ == r1.unknown_transactions@ + r2.unknown_transactions@,
        r.tax_payable_ytd@.units() == r2.tax_payable_ytd@.units(),
        r.tax_delta@.units() == r1.tax_delta@.units() + r2.tax_delta@.units(),
        st is LLC ==> r.development_levy_ytd@.units() == r2.development_levy_ytd@.units()
            && r.development_levy_delta@.units() == r1.development_levy_delta@.units()
            + r2.development_levy_delta@.units(),
{
    lemma_pow10_28();
    let s = s1 + s2;
    let n1 = s1.len();
    let n2 = s2.len();
    lemma_magnitude_concat(s1, s2, n2);
    lemma_magnitude_monotone(s1, 0, n1);
    lemma_magnitude_monotone(s2, 0, n2);
    assert(s.len() == n1 + n2);
    assert(cents_amounts(s1)) by {
        assert forall|k: int| 0 <= k < s1.len() implies (#[trigger] s1[k]).amount@.scale <= 2 by {
            assert(s[k] == s1[k]);
        }
    }
    assert(cents_amounts(s2)) by {
        assert forall|k: int| 0 <= k < s2.len() implies (#[trigger] s2[k]).amount@.scale <= 2 by {
            assert(s[n1 + k] == s2[k]);
        }
    }
    lemma_unknowns_concatenate(s1, s2);
    match st {
        UserTaxState::PIT(o) => {
            let u0 = o.rent_relief_used_ytd@.units();
            lemma_pit_units_concat(s1, s2, n2, (0, u0));
            let m1 = pit_units(s1, n1, (0, u0));
            lemma_pit_units_shift(s1, n1, 0, u0);
            lemma_pit_units_shift(s2, n2, m1.0, m1.1);
            assert(exact_domain(s1, st));
            assert(exact_domain(s2, st1));
        },
        UserTaxState::LLC(o) => {
            let t0 = o.gross_turnover_ytd@.units();
            let x0 = o.business_expenses_ytd@.units();
            lemma_llc_units_concat(s1, s2, n2, (0, t0, x0));
            let m1 = llc_units(s1, n1, (0, t0, x0));
            lemma_llc_units_shift(s1, n1, 0, t0, x0);
            lemma_llc_units_shift(s2, n2, m1.0, m1.1, m1.2);
            assert(exact_domain(s1, st));
            assert(exact_domain(s2, st1));
        },
    }
}

/// Appending a transaction of unknown role to a statement leaves the state the statement
/// leads to, and the report's taxable income, tax and levy figures, as they were; the
/// report's list of unknown transactions gains that transaction at its end.
pub proof fn lemma_unknown_row_changes_no_figure(
    statement: Seq<ParsedTransaction>,
    u: ParsedTransaction,
    old: UserTaxState,
    res: CalculationResult,
    res2: CalculationResult,
)
    requires
        u.role == TransactionRole::Unknown,
        result_after(statement, old, res),
        result_after(statement.push(u), old, res2),
    ensures
        forall|w: UserTaxState| #[trigger] state_after(statement.push(u), old, w) <==> state_after(statement, old, w),
        res2.taxable_income_delta@ == res.taxable_income_delta@,
        res2.annual_taxable_income@ == res.annual_taxable_income@,
        res2.tax_payable_ytd@ == res.tax_payable_ytd@,
        res2.tax_delta@ == res.tax_delta@,
        res2.development_levy_ytd@ == res.development_levy_ytd@,
        res2.development_levy_delta@ == res.development_levy_delta@,
        res2.unknown_transactions@ == res.unknown_transactions@.push(u),
{
    let n = statement.len();
    let s2 = statement.push(u);
    assert(s2[n as int] == u);
    match old {
        UserTaxState::PIT(o) => {
            lemma_totals_of_prefix(statement, u, n, o.rent_relief_used_ytd@, zero_view(), zero_view());
        },
        UserTaxState::LLC(o) => {
            lemma_totals_of_prefix(statement, u, n, zero_view(), o.gross_turnover_ytd@, o.business_expenses_ytd@);
        },
    }
    assert(unknowns(s2, n + 1) == unknowns(s2, n).push(u));
}

impl TaxCalculator {
    pub fn new() -> (r: Self) {
        TaxCalculator
    }

    fn band_width(i: usize) -> (r: Amount)
        requires
            i < 5,
        ensures
            r@ == band_width_view(i as nat),
    {
        let w: u128 = if i == 0 {
            800000
        } else if i == 1 {
            2200000
        } else if i == 2 {
            9000000
        } else if i == 3 {
            13000000
        } else {
            25000000
        };
        Amount::from_digits(w, 0)
    }

    fn band_rate(i: usize) -> (r: Amount)
        requires
            i < 5,
        ensures
            r@ == band_rate_view(i as nat),
    {
        if i == 0 {
            Amount::zero()
        } else {
            let p: u128 = if i == 1 {
                15
            } else if i == 2 {
                18
            } else if i == 3 {
                21
            } else {
                23
            };
            Amount::from_digits(p, 2)
        }
    }

    /// Progressive personal income tax: the first 800,000 is free, the next 2,200,000
    /// is taxed at 15%, the next 9,000,000 at 18%, the next 13,000,000 at 21%, the next
    /// 25,000,000 at 23%, and everything above 50,000,000 at 25%. Only the part of the
    /// income inside a band gets that band's rate.
    pub fn calculate_pit_tax(chargeable_income: Amount) -> (tax: Amount)
        requires
            chargeable_income@.units() <= pit_income_limit(),
        ensures
            tax@ == pit_tax_view(chargeable_income@),
            exact_pit_domain(chargeable_income@) ==> 100 * tax@.units() == pit_tax_hundredths(
                chargeable_income@.units(),
            ) && tax@.scale <= chargeable_income@.scale + 2,
            tax@.units() >= -12 * one(),
            4 * tax@.units() <= abs_int(chargeable_income@.units()) + 60 * one(),
            tax@.wf(),
    {
        let zero = Amount::zero();
        proof {
            lemma_zero_units();
        }
        if chargeable_income.le(&zero) {
            proof {
                lemma_pow10_28();
            }
            return Amount::zero();
        }
        let ghost u = chargeable_income@.units();
        let ghost exact = exact_pit_domain(chargeable_income@);
        proof {
            lemma_pow10_28();
            lemma_band_floors();
        }
        let mut remaining = chargeable_income;
        let mut tax = Amount::zero();
        let mut i: usize = 0;
        while i < 5
            invariant
                0 < u <= pit_income_limit(),
                one() == 10000000000000000000000000000,
                zero@ == zero_view(),
                zero_view().units() == 0,
                i <= 5,
                pit_bands(remaining@, tax@, i as nat) == pit_bands(chargeable_income@, zero_view(), 0),
                -one() <= remaining@.units() <= u + i * one(),
                4 * tax@.units() <= u - remaining@.units() + 9 * i * one(),
                tax@.units() >= -2 * i * one(),
                chargeable_income@.wf(),
                tax@.wf(),
                remaining@.wf(),
                u == chargeable_income@.units(),
                exact == exact_pit_domain(chargeable_income@),
                exact ==> remaining@.wf() && tax@.wf() && remaining@.scale == chargeable_income@.scale
                    && tax@.scale <= chargeable_income@.scale + 2 && remaining@.units() == u
                    - band_consumed(u, i as nat) && 100 * tax@.units() == pit_partial(u, i as nat),
            decreases 5 - i,
        {
            if remaining.le(&zero) {
                assert(pit_bands(remaining@, tax@, i as nat) == (remaining@, tax@));
                assert(pit_bands(remaining@, tax@, 5) == (remaining@, tax@));
                proof {
                    if exact {
                        lemma_pit_partial_bounds(u, i as nat);
                        lemma_band_floors();
                        lemma_pit_partial_stable(u, i as nat);
                    }
                }
                i = 5;
            } else {
                let band = Self::band_width(i);
                let rate = Self::band_rate(i);
                proof {
                    lemma_rate_units_small(i as nat);
                }
                let slice = remaining.min(&band);
                assert(0 < slice@.units() <= remaining@.units());
                assert(abs_int(slice@.units() * rate@.units()) < overflow_units() * pow10(max_scale())) by (nonlinear_arith)
                    requires
                        0 < slice@.units() <= u + 5 * one(),
                        0 <= rate@.units(),
                        4 * rate@.units() <= one(),
                        u <= pit_income_limit(),
                        pit_income_limit() == overflow_units() - 8 * one(),
                        one() == pow10(max_scale()),
                        one() == 10000000000000000000000000000,
                ;
                let product = slice.times(&rate);
                proof {
                    lemma_rate_product_bounds(product@.units(), slice@.units(), rate@.units(), one());
                }
                let ghost old_rem = remaining@;
                let ghost old_tax = tax@;
                tax = tax.plus(&product);
                remaining = remaining.minus(&slice);
                assert(pit_bands(old_rem, old_tax, i as nat) == pit_bands(remaining@, tax@, (i + 1) as nat));
                proof {
                    if exact {
                        lemma_pit_exact_step(chargeable_income@, i as nat, old_rem, old_tax, slice@, product@, tax@, remaining@);
                    }
                }
                i = i + 1;
            }
        }
        if !remaining.le(&zero) {
            proof {
                lemma_rate_units_small(0);
            }
            let top = Amount::from_digits(25, 2);
            assert(abs_int(remaining@.units() * top@.units()) < overflow_units() * pow10(max_scale())) by (nonlinear_arith)
                requires
                    0 < remaining@.units() <= u + 5 * one(),
                    top@.units() * 4 == one(),
                    u <= pit_income_limit(),
                    pit_income_limit() == overflow_units() - 8 * one(),
                    one() == pow10(max_scale()),
                    one() == 10000000000000000000000000000,
            ;
            let product = remaining.times(&top);
            proof {
                lemma_rate_product_bounds(product@.units(), remaining@.units(), top@.units(), one());
            }
            let ghost old_tax = tax@;
            tax = tax.plus(&product);
            proof {
                if exact {
                    lemma_pit_exact_top(chargeable_income@, remaining@, old_tax, product@, tax@);
                }
            }
        } else {
            proof {
                if exact {
                    lemma_pit_partial_bounds(u, 5);
                }
            }
        }
        tax
    }


    /// The PIT pass: taxable income delta, credit flow, rent relief used and the unknown
    /// transactions.
    #[verifier::rlimit(50)]
    fn pit_pass(statement: &Vec<ParsedTransaction>, rent_used0: Amount) -> (r: (Amount, Amount, Amount, Vec<ParsedTransaction>))
        requires
            abs_int(rent_used0@.units()) + statement_magnitude(statement@, statement.len() as nat) <= statement_limit(),
        ensures
            ({
                let n = statement.len() as nat;
                let acc = pit_totals(statement@, n, rent_used0@);
                &&& r.0@ == acc.delta
                &&& r.1@ == acc.credit
                &&& r.2@ == acc.rent_used
                &&& r.3@ == unknowns(statement@, n)
                &&& abs_int(r.0@.units()) <= statement_magnitude(statement@, n)
                &&& r.0@.wf()
                &&& r.1@.wf()
                &&& r.2@.wf()
                &&& rent_cap_domain(statement@, rent_used0@) ==> 0 <= r.2@.units() <= 500000 * one()
                &&& cents_amounts(statement@) && rent_used0@.scale <= 4 && abs_int(rent_used0@.units())
                    + statement_magnitude(statement@, n) <= cents_total() ==> (r.0@.units(), r.2@.units()) == pit_units(
                    statement@,
                    n,
                    (0, rent_used0@.units()),
                ) && r.0@.scale <= 4 && r.2@.scale <= 4
            }),
    {
        let zero = Amount::zero();
        let mut delta = Amount::zero();
        let mut credit = Amount::zero();
        let mut used = rent_used0;
        let mut unknown: Vec<ParsedTransaction> = Vec::new();
        let max_relief = Amount::from_digits(500000, 0);
        let relief_rate = Amount::from_digits(20, 2);
        proof {
            lemma_pow10_28();
            lemma_zero_units();
            lemma_twenty_percent();
            use_type_invariant(&rent_used0);
            lemma_units_bound(rent_used0@);
        }
        let ghost n = statement.len() as nat;
        let ghost u0 = abs_int(rent_used0@.units());
        let ghost exact = cents_amounts(statement@) && rent_used0@.scale <= 4 && u0 + statement_magnitude(statement@, n)
            <= cents_total();
        let mut i: usize = 0;
        while i < statement.len()
            invariant
                i <= statement.len(),
                n == statement.len(),
                exact == (cents_amounts(statement@) && rent_used0@.scale <= 4 && u0 + statement_magnitude(statement@, n)
                    <= cents_total()),
                exact ==> (delta@.units(), used@.units()) == pit_units(statement@, i as nat, (0, rent_used0@.units()))
                    && delta@.scale <= 4 && used@.scale <= 4,
                one() == 10000000000000000000000000000,
                overflow_units() == 79228162514264337593543950335 * one(),
                zero@ == zero_view(),
                zero_view().units() == 0,
                max_relief@ == whole(500000),
                max_relief@.units() == 500000 * one(),
                relief_rate@ == hundredths(20),
                0 <= relief_rate@.units(),
                4 * relief_rate@.units() <= one(),
                u0 == abs_int(rent_used0@.units()),
                u0 + statement_magnitude(statement@, n) <= statement_limit(),
                pit_totals(statement@, i as nat, rent_used0@) == (PitTotals { delta: delta@, credit: credit@, rent_used: used@ }),
                unknown@ == unknowns(statement@, i as nat),
                delta@.wf(),
                credit@.wf(),
                used@.wf(),
                abs_int(delta@.units()) <= statement_magnitude(statement@, i as nat),
                abs_int(credit@.units()) <= statement_magnitude(statement@, i as nat),
                abs_int(used@.units()) <= u0 + statement_magnitude(statement@, i as nat),
                rent_cap_domain(statement@, rent_used0@) ==> 0 <= used@.units() <= 500000 * one() && used@.scale <= 22,
            decreases statement.len() - i,
        {
            let t = &statement[i];
            let ghost s_i = statement_magnitude(statement@, i as nat);
            let ghost acc = PitTotals { delta: delta@, credit: credit@, rent_used: used@ };
            proof {
                use_type_invariant(&t.amount);
                lemma_magnitude_monotone(statement@, (i + 1) as nat, n);
                lemma_abs_units(t.amount@);
                lemma_units_bound(t.amount@);
                assert(statement_magnitude(statement@, (i + 1) as nat) == s_i + abs_int(t.amount@.units()) + 4 * one());
                if exact {
                    assert(statement@[i as int] == *t);
                    assert(t.amount@.scale <= 2);
                    lemma_cents_room();
                }
            }
            if t.amount.is_sign_positive() {
                credit = credit.plus(&t.amount.abs());
            }
            if t.role == TransactionRole::Unknown {
                unknown.push(t.duplicate());
            } else {
                match t.role {
                    TransactionRole::Income | TransactionRole::Salary => {
                        delta = delta.plus(&t.amount);
                        proof {
                            if exact {
                                lemma_add4(acc.delta, t.amount@, delta@);
                            }
                        }
                    },
                    TransactionRole::Rent => {
                        let rent_paid = t.amount.abs();
                        assert(abs_int(rent_paid@.units() * relief_rate@.units()) < overflow_units() * pow10(max_scale())) by (nonlinear_arith)
                            requires
                                0 <= rent_paid@.units() <= statement_limit(),
                                0 <= relief_rate@.units(),
                                4 * relief_rate@.units() <= one(),
                                statement_limit() == 30000000000000000000000000000 * one(),
                                overflow_units() == 79228162514264337593543950335 * one(),
                                pow10(max_scale()) == one(),
                                one() == 10000000000000000000000000000,
                        ;
                        let applicable = rent_paid.times(&relief_rate);
                        proof {
                            lemma_rate_product_bounds(applicable@.units(), rent_paid@.units(), relief_rate@.units(), one());
                            if exact {
                                lemma_rent_applicable(t.amount@, rent_paid@, applicable@);
                            }
                        }
                        let remaining = max_relief.minus(&used);
                        proof {
                            if exact {
                                lemma_sub4(max_relief@, used@, remaining@);
                            }
                        }
                        if !remaining.le(&zero) {
                            let relief = applicable.min(&remaining);
                            delta = delta.minus(&relief);
                            let ghost old_used = used@;
                            used = used.plus(&relief);
                            proof {
                                if rent_cap_domain(statement@, rent_used0@) {
                                    lemma_rent_cap_step(t.amount@, rent_paid@, applicable@, old_used, remaining@, relief@, used@);
                                }
                                if exact {
                                    lemma_sub4(acc.delta, relief@, delta@);
                                    lemma_add4(old_used, relief@, used@);
                                }
                            }
                        }
                    },
                    TransactionRole::Deduction | TransactionRole::Relief => {
                        delta = delta.minus(&t.amount.abs());
                        proof {
                            if exact {
                                lemma_sub4(acc.delta, abs_view(t.amount@), delta@);
                            }
                        }
                    },
                    _ => {},
                }
            }
            assert(pit_step(acc, statement@[i as int]) == (PitTotals { delta: delta@, credit: credit@, rent_used: used@ }));
            proof {
                if exact {
                    assert(pit_units(statement@, (i + 1) as nat, (0, rent_used0@.units())) == pit_units_step(
                        pit_units(statement@, i as nat, (0, rent_used0@.units())),
                        statement@[i as int],
                    ));
                }
            }
            i = i + 1;
        }
        (delta, credit, used, unknown)
    }


    /// The LLC pass: taxable income delta, credit flow, turnover, expenses and the unknown
    /// transactions.
    #[verifier::rlimit(50)]
    fn llc_pass(statement: &Vec<ParsedTransaction>, turnover0: Amount, expenses0: Amount) -> (r: (Amount, Amount, Amount, Amount, Vec<ParsedTransaction>))
        requires
            abs_int(turnover0@.units()) + abs_int(expenses0@.units()) + statement_magnitude(statement@, statement.len() as nat)
                <= statement_limit(),
        ensures
            ({
                let n = statement.len() as nat;
                let acc = llc_totals(statement@, n, turnover0@, expenses0@);
                &&& r.0@ == acc.delta
                &&& r.1@ == acc.credit
                &&& r.2@ == acc.turnover
                &&& r.3@ == acc.expenses
                &&& r.4@ == unknowns(statement@, n)
                &&& abs_int(r.0@.units()) <= statement_magnitude(statement@, n)
                &&& abs_int(r.2@.units()) <= abs_int(turnover0@.units()) + statement_magnitude(statement@, n)
                &&& r.0@.wf()
                &&& r.2@.wf()
                &&& r.3@.wf()
                &&& cents_amounts(statement@) && turnover0@.scale <= 4 && expenses0@.scale <= 4 && abs_int(
                    turnover0@.units(),
                ) + abs_int(expenses0@.units()) + statement_magnitude(statement@, n) <= cents_total() ==> (
                r.0@.units(),
                r.2@.units(),
                r.3@.units(),
            ) == llc_units(statement@, n, (0, turnover0@.units(), expenses0@.units())) && r.0@.scale <= 4
                    && r.2@.scale <= 4 && r.3@.scale <= 4
            }),
    {
        let mut delta = Amount::zero();
        let mut credit = Amount::zero();
        let mut turnover = turnover0;
        let mut expenses = expenses0;
        let mut unknown: Vec<ParsedTransaction> = Vec::new();
        proof {
            lemma_pow10_28();
            lemma_zero_units();
            use_type_invariant(&turnover0);
            use_type_invariant(&expenses0);
        }
        let ghost n = statement.len() as nat;
        let ghost t0 = abs_int(turnover0@.units());
        let ghost x0 = abs_int(expenses0@.units());
        let ghost exact = cents_amounts(statement@) && turnover0@.scale <= 4 && expenses0@.scale <= 4 && t0 + x0
            + statement_magnitude(statement@, n) <= cents_total();
        let mut i: usize = 0;
        while i < statement.len()
            invariant
                i <= statement.len(),
                n == statement.len(),
                exact == (cents_amounts(statement@) && turnover0@.scale <= 4 && expenses0@.scale <= 4 && t0 + x0
                    + statement_magnitude(statement@, n) <= cents_total()),
                exact ==> (delta@.units(), turnover@.units(), expenses@.units()) == llc_units(
                    statement@,
                    i as nat,
                    (0, turnover0@.units(), expenses0@.units()),
                ) && delta@.scale <= 4 && turnover@.scale <= 4 && expenses@.scale <= 4,
                one() == 10000000000000000000000000000,
                overflow_units() == 79228162514264337593543950335 * one(),
                zero_view().units() == 0,
                t0 == abs_int(turnover0@.units()),
                x0 == abs_int(expenses0@.units()),
                t0 + x0 + statement_magnitude(statement@, n) <= statement_limit(),
                llc_totals(statement@, i as nat, turnover0@, expenses0@) == (LlcTotals {
                    delta: delta@,
                    credit: credit@,
                    turnover: turnover@,
                    expenses: expenses@,
                }),
                unknown@ == unknowns(statement@, i as nat),
                delta@.wf(),
                credit@.wf(),
                turnover@.wf(),
                expenses@.wf(),
                abs_int(delta@.units()) <= statement_magnitude(statement@, i as nat),
                abs_int(credit@.units()) <= statement_magnitude(statement@, i as nat),
                abs_int(turnover@.units()) <= t0 + statement_magnitude(statement@, i as nat),
                abs_int(expenses@.units()) <= x0 + statement_magnitude(statement@, i as nat),
            decreases statement.len() - i,
        {
            let t = &statement[i];
            let ghost s_i = statement_magnitude(statement@, i as nat);
            let ghost acc = LlcTotals { delta: delta@, credit: credit@, turnover: turnover@, expenses: expenses@ };
            proof {
                use_type_invariant(&t.amount);
                lemma_magnitude_monotone(statement@, (i + 1) as nat, n);
                lemma_abs_units(t.amount@);
                lemma_units_bound(t.amount@);
                assert(statement_magnitude(statement@, (i + 1) as nat) == s_i + abs_int(t.amount@.units()) + 4 * one());
                if exact {
                    assert(statement@[i as int] == *t);
                    assert(t.amount@.scale <= 2);
                    lemma_cents_room();
                }
            }
            if t.amount.is_sign_positive() {
                credit = credit.plus(&t.amount.abs());
            }
            if t.role == TransactionRole::Unknown {
                unknown.push(t.duplicate());
            } else {
                match t.role {
                    TransactionRole::Income => {
                        delta = delta.plus(&t.amount);
                        proof {
                            if exact {
                                lemma_add4(acc.delta, t.amount@, delta@);
                            }
                        }
                        if t.amount.is_sign_positive() {
                            turnover = turnover.plus(&t.amount.abs());
                            proof {
                                if exact {
                                    lemma_add4(acc.turnover, abs_view(t.amount@), turnover@);
                                }
                            }
                        }
                    },
                    TransactionRole::BusinessExp | TransactionRole::Deduction => {
                        let expense = t.amount.abs();
                        delta = delta.minus(&expense);
                        expenses = expenses.plus(&expense);
                        proof {
                            if exact {
                                lemma_sub4(acc.delta, expense@, delta@);
                                lemma_add4(acc.expenses, expense@, expenses@);
                            }
                        }
                    },
                    _ => {},
                }
            }
            assert(llc_step(acc, statement@[i as int]) == (LlcTotals {
                delta: delta@,
                credit: credit@,
                turnover: turnover@,
                expenses: expenses@,
            }));
            proof {
                if exact {
                    assert(llc_units(statement@, (i + 1) as nat, (0, turnover0@.units(), expenses0@.units()))
                        == llc_units_step(
                        llc_units(statement@, i as nat, (0, turnover0@.units(), expenses0@.units())),
                        statement@[i as int],
                    ));
                }
            }
            i = i + 1;
        }
        (delta, credit, turnover, expenses, unknown)
    }


    fn taxable_income_for_state(&self, user_state: &UserTaxState) -> (r: Amount)
        ensures
            r@ == taxable_view(*user_state),
    {
        match user_state {
            UserTaxState::PIT(pit_state) => pit_state.taxable_income_ytd,
            UserTaxState::LLC(llc_state) => llc_state.taxable_income_ytd,
        }
    }

    fn tax_payable_for_state(&self, user_state: &UserTaxState) -> (r: Amount)
        requires
            abs_int(taxable_view(*user_state).units()) <= pit_income_limit(),
        ensures
            r@ == tax_payable_view(*user_state),
            abs_int(r@.units()) <= abs_int(taxable_view(*user_state).units()) + 60 * one(),
            user_state is PIT && exact_pit_domain(taxable_view(*user_state)) ==> 100 * r@.units() == pit_tax_hundredths(
                taxable_view(*user_state).units(),
            ) && r@.scale <= taxable_view(*user_state).scale + 2,
            user_state is LLC && exact_rate_domain(taxable_view(*user_state)) ==> 100 * r@.units() == llc_tax_hundredths(
                *user_state,
            ) && r@.scale <= taxable_view(*user_state).scale + 2,
    {
        proof {
            lemma_zero_units();
        }
        match user_state {
            UserTaxState::PIT(pit_state) => Self::calculate_pit_tax(pit_state.taxable_income_ytd),
            UserTaxState::LLC(llc_state) => Self::calculate_llc_tax(
                llc_state.taxable_income_ytd,
                llc_state.gross_turnover_ytd,
                llc_state.fixed_assets_value,
            ),
        }
    }

    fn development_levy_for_state(&self, user_state: &UserTaxState) -> (r: Amount)
        ensures
            r@ == levy_view(*user_state),
            abs_int(r@.units()) <= abs_int(taxable_view(*user_state).units()) + 60 * one(),
            exact_rate_domain(taxable_view(*user_state)) ==> 100 * r@.units() == levy_hundredths(*user_state) && r@.scale
                <= taxable_view(*user_state).scale + 2,
    {
        proof {
            lemma_zero_units();
            lemma_pow10_28();
        }
        match user_state {
            UserTaxState::PIT(_) => Amount::zero(),
            UserTaxState::LLC(llc_state) => Self::calculate_development_levy(
                llc_state.taxable_income_ytd,
                llc_state.gross_turnover_ytd,
                llc_state.fixed_assets_value,
            ),
        }
    }

    #[verifier::rlimit(60)]
    fn calculate_statement(&self, statement: Vec<ParsedTransaction>, user_state: &UserTaxState) -> (r: (CalculationResult, UserTaxState))
        requires
            within_statement_limit(statement@, *user_state),
        ensures
            state_after(statement@, *user_state, r.1),
            result_after(statement@, *user_state, r.0),
            rent_relief_capped(statement@, *user_state, r.1),
            exact_outcome(statement@, *user_state, r.0, r.1),
    {
        let total = statement.len();
        let ghost n = total as nat;
        proof {
            lemma_pow10_28();
            lemma_magnitude_monotone(statement@, 0, n);
        }
        let previous_tax_payable = self.tax_payable_for_state(user_state);
        let previous_development_levy = self.development_levy_for_state(user_state);
        let (taxable_inc_delta, total_credit_inflow, unknown_trans, updated_state) = match user_state {
            UserTaxState::PIT(pit_state) => {
                proof {
                    use_type_invariant(&pit_state.taxable_income_ytd);
                    lemma_units_bound(pit_state.taxable_income_ytd@);
                }
                let (delta, credit, used, unknown) = Self::pit_pass(&statement, pit_state.rent_relief_used_ytd);
                proof {
                    lemma_pit_credit(statement@, n, pit_state.rent_relief_used_ytd@);
                }
                let taxable = pit_state.taxable_income_ytd.plus(&delta);
                proof {
                    if exact_domain(statement@, *user_state) {
                        lemma_add4(pit_state.taxable_income_ytd@, delta@, taxable@);
                    }
                }
                let st = PitTaxState {
                    user_id: pit_state.user_id.clone(),
                    tax_year: pit_state.tax_year,
                    taxable_income_ytd: taxable,
                    rent_relief_used_ytd: used,
                    pension_deduction_ytd: pit_state.pension_deduction_ytd,
                    nhis_deduction_ytd: pit_state.nhis_deduction_ytd,
                    nhf_deduction_ytd: pit_state.nhf_deduction_ytd,
                    life_insurance_ytd: pit_state.life_insurance_ytd,
                };
                (delta, credit, unknown, UserTaxState::PIT(st))
            },
            UserTaxState::LLC(llc_state) => {
                proof {
                    use_type_invariant(&llc_state.taxable_income_ytd);
                    lemma_units_bound(llc_state.taxable_income_ytd@);
                }
                let (delta, credit, turnover, expenses, unknown) = Self::llc_pass(
                    &statement,
                    llc_state.gross_turnover_ytd,
                    llc_state.business_expenses_ytd,
                );
                proof {
                    lemma_llc_credit(statement@, n, llc_state.gross_turnover_ytd@, llc_state.business_expenses_ytd@);
                }
                let taxable = llc_state.taxable_income_ytd.plus(&delta);
                proof {
                    if exact_domain(statement@, *user_state) {
                        lemma_add4(llc_state.taxable_income_ytd@, delta@, taxable@);
                    }
                }
                let levy = Self::calculate_development_levy(taxable, turnover, llc_state.fixed_assets_value);
                let st = LLCTaxState {
                    user_id: llc_state.user_id.clone(),
                    tax_year: llc_state.tax_year,
                    taxable_income_ytd: taxable,
                    business_expenses_ytd: expenses,
                    development_levy_ytd: levy,
                    gross_turnover_ytd: turnover,
                    fixed_assets_value: llc_state.fixed_assets_value,
                };
                (delta, credit, unknown, UserTaxState::LLC(st))
            },
        };
        let unknown_count = unknown_trans.len();
        let is_valid = if total == 0 {
            true
        } else {
            (unknown_count as u128) * 10 <= (total as u128) * 3
        };
        let tax_payable_ytd = self.tax_payable_for_state(&updated_state);
        let development_levy_ytd = self.development_levy_for_state(&updated_state);
        let annual_taxable_income = self.taxable_income_for_state(&updated_state);
        let tax_delta = tax_payable_ytd.minus(&previous_tax_payable);
        proof {
            if exact_domain(statement@, *user_state) && user_state is PIT {
                let t0 = taxable_view(*user_state);
                let t1 = taxable_view(updated_state);
                lemma_small_exact_pit(t0);
                lemma_small_exact_pit(t1);
                lemma_pit_tax_progressive(0, abs_int(t0.units()));
                lemma_pit_tax_progressive(0, abs_int(t1.units()));
                lemma_pit_tax_progressive(t0.units(), abs_int(t0.units()));
                lemma_pit_tax_progressive(t1.units(), abs_int(t1.units()));
                lemma_cents_room();
                lemma_pow10_monotone(22, 24);
                use_type_invariant(&previous_tax_payable);
                use_type_invariant(&tax_payable_ytd);
                lemma_difference_exact(tax_payable_ytd@, previous_tax_payable@, tax_delta@, 6);
            }
        }
        let development_levy_delta = development_levy_ytd.minus(&previous_development_levy);
        proof {
            if exact_domain(statement@, *user_state) && user_state is LLC {
                let t0 = taxable_view(*user_state);
                let t1 = taxable_view(updated_state);
                lemma_small_exact_pit(t0);
                lemma_small_exact_pit(t1);
                lemma_cents_room();
                lemma_pow10_monotone(22, 24);
                use_type_invariant(&previous_tax_payable);
                use_type_invariant(&tax_payable_ytd);
                use_type_invariant(&previous_development_levy);
                use_type_invariant(&development_levy_ytd);
                lemma_difference_exact(tax_payable_ytd@, previous_tax_payable@, tax_delta@, 6);
                lemma_difference_exact(development_levy_ytd@, previous_development_levy@, development_levy_delta@, 6);
            }
        }
        (
            CalculationResult {
                taxable_income_delta: taxable_inc_delta,
                annual_taxable_income,
                tax_payable_ytd,
                tax_delta,
                development_levy_ytd,
                development_levy_delta,
                total_credit_flow: total_credit_inflow,
                is_valid_for_use: is_valid,
                unknown_transactions: unknown_trans,
            },
            updated_state,
        )
    }

    /// The report a statement would give, leaving the user's state untouched: what the
    /// user sees before accepting it.
    pub fn preview_calculation(&self, statement: Vec<ParsedTransaction>, user_state: &UserTaxState) -> (r: CalculationResult)
        requires
            within_statement_limit(statement@, *user_state),
        ensures
            result_after(statement@, *user_state, r),
    {
        let (result, _) = self.calculate_statement(statement, user_state);
        result
    }

    /// The report of an accepted statement together with the state it leads to.
    pub fn finalize_calculation(&self, transactions: Vec<ParsedTransaction>, current_state: &UserTaxState) -> (r: (CalculationResult, UserTaxState))
        requires
            within_statement_limit(transactions@, *current_state),
        ensures
            result_after(transactions@, *current_state, r.0),
            state_after(transactions@, *current_state, r.1),
            rent_relief_capped(transactions@, *current_state, r.1),
            exact_outcome(transactions@, *current_state, r.0, r.1),
    {
        self.calculate_statement(transactions, current_state)
    }

    /// Small companies are not taxed.
    pub fn is_small_company(gross_turnover: Amount, fixed_assets_value: Amount) -> (r: bool)
        ensures
            r == is_small_company_spec(gross_turnover@, fixed_assets_value@),
    {
        proof {
            lemma_pow10_28();
        }
        let turnover_cap = Amount::from_digits(100000000, 0);
        let assets_cap = Amount::from_digits(250000000, 0);
        proof {
            assert(turnover_cap@.units() == 100000000 * one());
            assert(assets_cap@.units() == 250000000 * one());
        }
        gross_turnover.le(&turnover_cap) && fixed_assets_value.le(&assets_cap)
    }

    /// Company income tax: 30% of a positive taxable profit; nothing for small companies.
    pub fn calculate_llc_tax(taxable_profit: Amount, gross_turnover: Amount, fixed_assets_value: Amount) -> (r: Amount)
        ensures
            r@ == llc_tax_view(taxable_profit@, gross_turnover@, fixed_assets_value@),
            taxable_profit@.units() > 0 && !is_small_company_spec(gross_turnover@, fixed_assets_value@)
                && exact_rate_domain(taxable_profit@) ==> 100 * r@.units() == 30 * taxable_profit@.units() && r@.scale
                <= taxable_profit@.scale + 2,
            10 * abs_int(r@.units()) <= 3 * abs_int(taxable_profit@.units()) + 10 * one(),
            r@.wf(),
    {
        let zero = Amount::zero();
        proof {
            lemma_zero_units();
        }
        if taxable_profit.le(&zero) || Self::is_small_company(gross_turnover, fixed_assets_value) {
            proof {
                lemma_pow10_28();
            }
            return Amount::zero();
        }
        let rate = Amount::from_digits(30, 2);
        proof {
            lemma_profit_product_bounds(taxable_profit@, 30);
        }
        let r = taxable_profit.times(&rate);
        proof {
            if exact_rate_domain(taxable_profit@) {
                lemma_units_bound(taxable_profit@);
                let d = taxable_profit@.digits;
                assert(d * 30 < digits_limit()) by (nonlinear_arith)
                    requires d * 100 < digits_limit();
                lemma_exact_rate_product(taxable_profit@, 30, r@);
            }
            lemma_pow10_28();
            let x = r@.units();
            let p = taxable_profit@.units();
            assert(10 * abs_int(x) <= 3 * abs_int(p) + 10 * one()) by (nonlinear_arith)
                requires
                    abs_int(x * 10000000000000000000000000000 - p * 3000000000000000000000000000)
                        <= 10000000000000000000000000000 * 10000000000000000000000000000,
                    one() == 10000000000000000000000000000,
            ;
        }
        r
    }

    /// Development levy: 4% of a positive taxable profit; nothing for small companies.
    pub fn calculate_development_levy(taxable_profit: Amount, gross_turnover: Amount, fixed_assets_value: Amount) -> (r: Amount)
        ensures
            r@ == development_levy_view(taxable_profit@, gross_turnover@, fixed_assets_value@),
            taxable_profit@.units() > 0 && !is_small_company_spec(gross_turnover@, fixed_assets_value@)
                && exact_rate_domain(taxable_profit@) ==> 100 * r@.units() == 4 * taxable_profit@.units() && r@.scale
                <= taxable_profit@.scale + 2,
            25 * abs_int(r@.units()) <= abs_int(taxable_profit@.units()) + 25 * one(),
            r@.wf(),
    {
        let zero = Amount::zero();
        proof {
            lemma_zero_units();
        }
        if taxable_profit.le(&zero) || Self::is_small_company(gross_turnover, fixed_assets_value) {
            proof {
                lemma_pow10_28();
            }
            return Amount::zero();
        }
        let rate = Amount::from_digits(4, 2);
        proof {
            lemma_profit_product_bounds(taxable_profit@, 4);
        }
        let r = taxable_profit.times(&rate);
        proof {
            if exact_rate_domain(taxable_profit@) {
                lemma_units_bound(taxable_profit@);
                let d = taxable_profit@.digits;
                assert(d * 4 < digits_limit()) by (nonlinear_arith)
                    requires d * 100 < digits_limit();
                lemma_exact_rate_product(taxable_profit@, 4, r@);
            }
            lemma_pow10_28();
            let x = r@.units();
            let p = taxable_profit@.units();
            assert(25 * abs_int(x) <= abs_int(p) + 25 * one()) by (nonlinear_arith)
                requires
                    abs_int(x * 10000000000000000000000000000 - p * 400000000000000000000000000)
                        <= 10000000000000000000000000000 * 10000000000000000000000000000,
                    one() == 10000000000000000000000000000,
            ;
        }
        r
    }
}

} // verus!
