//! Sums over a statement's transactions, which do not depend on their order, and the law
//! that the calculator's figures do not depend on it either where its arithmetic is exact.

use vstd::prelude::*;
use crate::domain::entities::{CalculationResult, ParsedTransaction, TransactionRole, UserTaxState};
use crate::domain::services::tax_calculator::{
    cents_amounts, exact_domain, exact_outcome, lemma_llc_units_prefix, lemma_magnitude_prefix, lemma_pit_units_prefix, lemma_unknowns_of_prefix,
    llc_units, one, pit_units, result_after, same_figures, state_after, statement_magnitude, unknowns,
};
use crate::money::{abs_int, lemma_pow10_28};

verus! {

/// The sum of `f` over the transactions.
pub open spec fn sum_by(s: Seq<ParsedTransaction>, f: spec_fn(ParsedTransaction) -> int) -> int
    decreases s.len(),
{
    if s.len() == 0 {
        0
    } else {
        sum_by(s.drop_last(), f) + f(s.last())
    }
}

proof fn lemma_sum_by_remove(p: Seq<ParsedTransaction>, f: spec_fn(ParsedTransaction) -> int, j: int)
    requires
        0 <= j < p.len(),
    ensures
        sum_by(p, f) == sum_by(p.remove(j), f) + f(p[j]),
    decreases p.len(),
{
    if j == p.len() - 1 {
        assert(p.remove(j) =~= p.drop_last());
    } else {
        lemma_sum_by_remove(p.drop_last(), f, j);
        assert(p.remove(j).drop_last() =~= p.drop_last().remove(j));
        assert(p.remove(j).last() == p.last());
    }
}

/// A sum over the transactions is the same in any order.
pub proof fn lemma_sum_by_permutation(s: Seq<ParsedTransaction>, p: Seq<ParsedTransaction>, f: spec_fn(ParsedTransaction) -> int)
    requires
        s.to_multiset() == p.to_multiset(),
    ensures
        sum_by(s, f) == sum_by(p, f),
    decreases s.len(),
{
    broadcast use vstd::seq_lib::group_to_multiset_ensures;

    if s.len() == 0 {
        assert(p.to_multiset().len() == 0);
        assert(p.len() == 0);
    } else {
        let q = s.drop_last();
        let x = s.last();
        assert(q.push(x) =~= s);
        assert(s.to_multiset() =~= q.to_multiset().insert(x));
        assert(s.to_multiset().count(x) > 0);
        assert(p.contains(x));
        let j = choose|j: int| 0 <= j < p.len() && p[j] == x;
        assert(p.remove(j).to_multiset() =~= p.to_multiset().remove(x));
        assert(q.to_multiset() =~= p.to_multiset().remove(x));
        lemma_sum_by_permutation(q, p.remove(j), f);
        lemma_sum_by_remove(p, f, j);
    }
}

/// What an income or salary adds to the PIT delta.
pub open spec fn pit_income_part(t: ParsedTransaction) -> int {
    if t.role == TransactionRole::Income || t.role == TransactionRole::Salary {
        t.amount@.units()
    } else {
        0
    }
}

/// What a deduction or relief takes off the PIT delta.
pub open spec fn pit_deduction_part(t: ParsedTransaction) -> int {
    if t.role == TransactionRole::Deduction || t.role == TransactionRole::Relief {
        abs_int(t.amount@.units())
    } else {
        0
    }
}

/// The relief a rent payment would earn without the cap: a fifth of it.
pub open spec fn rent_fifth(t: ParsedTransaction) -> int {
    if t.role == TransactionRole::Rent {
        abs_int(t.amount@.units()) / 5
    } else {
        0
    }
}

/// The relief a statement earns from rents earning `rents` in all, with `used` of the
/// 500,000 cap already used.
pub open spec fn capped_relief(rents: int, used: int) -> int {
    let room = 500000 * one() - used;
    if room > 0 {
        if rents <= room {
            rents
        } else {
            room
        }
    } else {
        0
    }
}

proof fn lemma_rent_fifths_nonnegative(s: Seq<ParsedTransaction>)
    ensures
        sum_by(s, |t: ParsedTransaction| rent_fifth(t)) >= 0,
    decreases s.len(),
{
    if s.len() > 0 {
        lemma_rent_fifths_nonnegative(s.drop_last());
    }
}

/// The exact PIT pass in closed form: the incomes less the deductions and the capped
/// rent relief, which is added to the relief used.
proof fn lemma_pit_units_closed(s: Seq<ParsedTransaction>, u: int)
    ensures
        ({
            let rel = capped_relief(sum_by(s, |t: ParsedTransaction| rent_fifth(t)), u);
            pit_units(s, s.len(), (0, u)) == (sum_by(s, |t: ParsedTransaction| pit_income_part(t)) - sum_by(
                s,
                |t: ParsedTransaction| pit_deduction_part(t),
            ) - rel, u + rel)
        }),
    decreases s.len(),
{
    if s.len() > 0 {
        let q = s.drop_last();
        lemma_pit_units_closed(q, u);
        lemma_pit_units_prefix(s, q, q.len(), (0, u));
        lemma_rent_fifths_nonnegative(q);
        assert(s[s.len() - 1] == s.last());
    }
}

/// What an income adds to the LLC delta.
pub open spec fn llc_income_part(t: ParsedTransaction) -> int {
    if t.role == TransactionRole::Income {
        t.amount@.units()
    } else {
        0
    }
}

/// What an income inflow adds to the turnover.
pub open spec fn llc_turnover_part(t: ParsedTransaction) -> int {
    if t.role == TransactionRole::Income && t.amount@.units() >= 0 {
        abs_int(t.amount@.units())
    } else {
        0
    }
}

/// What a business expense or deduction adds to the expenses.
pub open spec fn llc_expense_part(t: ParsedTransaction) -> int {
    if t.role == TransactionRole::BusinessExp || t.role == TransactionRole::Deduction {
        abs_int(t.amount@.units())
    } else {
        0
    }
}

/// The exact LLC pass in closed form.
proof fn lemma_llc_units_closed(s: Seq<ParsedTransaction>, tv: int, ex: int)
    ensures
        llc_units(s, s.len(), (0, tv, ex)) == (sum_by(s, |t: ParsedTransaction| llc_income_part(t)) - sum_by(
            s,
            |t: ParsedTransaction| llc_expense_part(t),
        ), tv + sum_by(s, |t: ParsedTransaction| llc_turnover_part(t)), ex + sum_by(
            s,
            |t: ParsedTransaction| llc_expense_part(t),
        )),
    decreases s.len(),
{
    if s.len() > 0 {
        let q = s.drop_last();
        lemma_llc_units_closed(q, tv, ex);
        lemma_llc_units_prefix(s, q, q.len(), (0, tv, ex));
        assert(s[s.len() - 1] == s.last());
    }
}

proof fn lemma_magnitude_sum(s: Seq<ParsedTransaction>)
    ensures
        statement_magnitude(s, s.len()) == sum_by(s, |t: ParsedTransaction| abs_int(t.amount@.units()) + 4 * one()),
    decreases s.len(),
{
    if s.len() > 0 {
        let q = s.drop_last();
        lemma_magnitude_sum(q);
        lemma_magnitude_prefix(s, q, q.len());
    }
}

/// How often a transaction occurs among the unknown ones: as often as in the statement
/// when its role is unknown, else never.
proof fn lemma_unknowns_count(s: Seq<ParsedTransaction>, x: ParsedTransaction)
    ensures
        unknowns(s, s.len()).to_multiset().count(x) == (if x.role == TransactionRole::Unknown {
            s.to_multiset().count(x)
        } else {
            0
        }),
    decreases s.len(),
{
    broadcast use vstd::seq_lib::group_to_multiset_ensures;

    if s.len() == 0 {
        assert(unknowns(s, 0).to_multiset() =~= vstd::multiset::Multiset::empty());
        assert(s.to_multiset() =~= vstd::multiset::Multiset::empty());
    } else {
        let q = s.drop_last();
        lemma_unknowns_count(q, x);
        lemma_unknowns_of_prefix(s, q, q.len());
        assert(q.push(s.last()) =~= s);
        assert(s[s.len() - 1] == s.last());
    }
}

/// Reordering a statement's transactions changes none of the calculator's figures where
/// its arithmetic is exact: the same taxable income delta, the same year-to-date figures,
/// the same unknown transactions (as a multiset), and the same tax (and, for a company,
/// levy) and change of it.
pub proof fn lemma_statement_order_irrelevant(
    s: Seq<ParsedTransaction>,
    p: Seq<ParsedTransaction>,
    st: UserTaxState,
    a: CalculationResult,
    sa: UserTaxState,
    b: CalculationResult,
    sb: UserTaxState,
)
    requires
        p.to_multiset() == s.to_multiset(),
        exact_domain(s, st),
        result_after(s, st, b),
        state_after(s, st, sb),
        exact_outcome(s, st, b, sb),
        result_after(p, st, a),
        state_after(p, st, sa),
        exact_outcome(p, st, a, sa),
    ensures
        a.taxable_income_delta@.units() == b.taxable_income_delta@.units(),
        same_figures(sa, sb),
        a.unknown_transactions@.to_multiset() == b.unknown_transactions@.to_multiset(),
        a.tax_payable_ytd@.units() == b.tax_payable_ytd@.units(),
        a.tax_delta@.units() == b.tax_delta@.units(),
        st is LLC ==> a.development_levy_ytd@.units() == b.development_levy_ytd@.units()
            && a.development_levy_delta@.units() == b.development_levy_delta@.units(),
{
    broadcast use vstd::seq_lib::group_to_multiset_ensures;

    lemma_pow10_28();
    p.to_multiset_ensures();
    s.to_multiset_ensures();
    assert(p.len() == s.len());
    assert(cents_amounts(p)) by {
        assert forall|k: int| 0 <= k < p.len() implies (#[trigger] p[k]).amount@.scale <= 2 by {
            assert(p.contains(p[k]));
            assert(s.to_multiset().count(p[k]) > 0);
            assert(s.contains(p[k]));
            let j = choose|j: int| 0 <= j < s.len() && s[j] == p[k];
        }
    }
    lemma_magnitude_sum(s);
    lemma_magnitude_sum(p);
    lemma_sum_by_permutation(s, p, |t: ParsedTransaction| abs_int(t.amount@.units()) + 4 * one());
    assert(exact_domain(p, st));
    match st {
        UserTaxState::PIT(o) => {
            let u = o.rent_relief_used_ytd@.units();
            lemma_pit_units_closed(s, u);
            lemma_pit_units_closed(p, u);
            lemma_sum_by_permutation(s, p, |t: ParsedTransaction| pit_income_part(t));
            lemma_sum_by_permutation(s, p, |t: ParsedTransaction| pit_deduction_part(t));
            lemma_sum_by_permutation(s, p, |t: ParsedTransaction| rent_fifth(t));
        },
        UserTaxState::LLC(o) => {
            let tv = o.gross_turnover_ytd@.units();
            let ex = o.business_expenses_ytd@.units();
            lemma_llc_units_closed(s, tv, ex);
            lemma_llc_units_closed(p, tv, ex);
            lemma_sum_by_permutation(s, p, |t: ParsedTransaction| llc_income_part(t));
            lemma_sum_by_permutation(s, p, |t: ParsedTransaction| llc_turnover_part(t));
            lemma_sum_by_permutation(s, p, |t: ParsedTransaction| llc_expense_part(t));
        },
    }
    assert forall|x: ParsedTransaction| #[trigger] a.unknown_transactions@.to_multiset().count(x)
        == b.unknown_transactions@.to_multiset().count(x) by {
        lemma_unknowns_count(s, x);
        lemma_unknowns_count(p, x);
    }
    assert(a.unknown_transactions@.to_multiset() =~= b.unknown_transactions@.to_multiset());
}

/// Where the arithmetic is exact, a PIT statement's rent relief is a fifth of all the rent
/// it pays, up to what remains of the yearly 500,000 cap: the relief used grows by exactly
/// that, and a relief used within the cap stays within it, whatever it was before.
pub proof fn lemma_rent_relief_capped_exactly(
    s: Seq<ParsedTransaction>,
    st: UserTaxState,
    res: CalculationResult,
    new: UserTaxState,
)
    requires
        st is PIT,
        exact_domain(s, st),
        state_after(s, st, new),
        exact_outcome(s, st, res, new),
    ensures
        match (st, new) {
            (UserTaxState::PIT(o), UserTaxState::PIT(w)) => {
                let u = o.rent_relief_used_ytd@.units();
                &&& w.rent_relief_used_ytd@.units() == u + capped_relief(sum_by(s, |t: ParsedTransaction| rent_fifth(t)), u)
                &&& u <= w.rent_relief_used_ytd@.units()
                &&& u <= 500000 * one() ==> w.rent_relief_used_ytd@.units() <= 500000 * one()
            },
            _ => false,
        },
{
    match st {
        UserTaxState::PIT(o) => {
            lemma_pit_units_closed(s, o.rent_relief_used_ytd@.units());
            lemma_rent_fifths_nonnegative(s);
        },
        UserTaxState::LLC(_) => {},
    }
}

} // verus!
