use tax_engine::domain::entities::{
    LLCTaxState, ParsedTransaction, PitTaxState, TransactionRole, UserTaxState,
};
use tax_engine::domain::services::tax_calculator::{fits_statement_limit, TaxCalculator};
use tax_engine::money::Amount;

fn naira(n: i64) -> Amount {
    Amount::new(n, 0)
}

fn txn(amount: Amount, role: TransactionRole) -> ParsedTransaction {
    ParsedTransaction {
        amount,
        narration: String::from("row"),
        role,
        confidence: 100,
        charges: Amount::zero(),
        date: String::from("01/01/2026"),
    }
}

#[test]
fn pit_tax_uses_progressive_bands() {
    let tax = TaxCalculator::calculate_pit_tax(naira(30000000));

    assert!(tax == naira(5830000));
}

#[test]
fn small_company_does_not_pay_llc_tax_or_development_levy() {
    let tax = TaxCalculator::calculate_llc_tax(naira(30000000), naira(90000000), naira(200000000));
    let levy = TaxCalculator::calculate_development_levy(naira(30000000), naira(90000000), naira(200000000));

    assert!(tax == Amount::zero());
    assert!(levy == Amount::zero());
}

#[test]
fn large_company_pays_tax_and_development_levy_on_profit() {
    let tax = TaxCalculator::calculate_llc_tax(naira(30000000), naira(120000000), naira(200000000));
    let levy = TaxCalculator::calculate_development_levy(naira(30000000), naira(120000000), naira(200000000));

    assert!(tax == naira(9000000));
    assert!(levy == naira(1200000));
}

#[test]
fn pit_income_within_the_free_band_pays_nothing() {
    assert!(TaxCalculator::calculate_pit_tax(naira(800000)) == Amount::zero());
    assert!(TaxCalculator::calculate_pit_tax(Amount::zero()) == Amount::zero());
}

#[test]
fn pit_first_taxed_band_is_fifteen_percent() {
    // 1,000,000 of income: 800,000 free, 200,000 at 15%.
    assert!(TaxCalculator::calculate_pit_tax(naira(1000000)) == naira(30000));
}

#[test]
fn negative_pit_income_pays_nothing() {
    assert!(TaxCalculator::calculate_pit_tax(naira(-5000)) == Amount::zero());
}

#[test]
fn small_company_threshold_is_inclusive() {
    assert!(TaxCalculator::is_small_company(naira(100000000), naira(250000000)));
    assert!(!TaxCalculator::is_small_company(naira(100000001), naira(250000000)));
    assert!(!TaxCalculator::is_small_company(naira(100000000), naira(250000001)));
}

#[test]
fn company_loss_pays_no_tax() {
    let tax = TaxCalculator::calculate_llc_tax(naira(-1000), naira(120000000), naira(200000000));
    let levy = TaxCalculator::calculate_development_levy(naira(-1000), naira(120000000), naira(200000000));
    assert!(tax == Amount::zero());
    assert!(levy == Amount::zero());
}

#[test]
fn preview_and_finalize_report_the_same_figures() {
    let calc = TaxCalculator::new();
    let state = UserTaxState::PIT(PitTaxState::new(String::from("u1"), 2026));
    let statement = vec![
        txn(naira(2000000), TransactionRole::Salary),
        txn(naira(-300000), TransactionRole::Rent),
        txn(naira(-5000), TransactionRole::Unknown),
    ];
    let preview = calc.preview_calculation(statement.iter().map(|t| t.duplicate()).collect(), &state);
    let (finalized, new_state) = calc.finalize_calculation(statement, &state);
    assert!(preview.taxable_income_delta == finalized.taxable_income_delta);
    assert!(preview.tax_payable_ytd == finalized.tax_payable_ytd);
    assert!(preview.total_credit_flow == finalized.total_credit_flow);
    assert_eq!(preview.is_valid_for_use, finalized.is_valid_for_use);
    assert_eq!(preview.unknown_transactions.len(), 1);
    match new_state {
        UserTaxState::PIT(p) => {
            assert!(p.taxable_income_ytd == finalized.annual_taxable_income);
            // 20% of the 300,000 rent paid is relieved.
            assert!(p.rent_relief_used_ytd == naira(60000));
        }
        UserTaxState::LLC(_) => panic!("state changed kind"),
    }
}

#[test]
fn rent_relief_is_capped_at_five_hundred_thousand() {
    let calc = TaxCalculator::new();
    let state = UserTaxState::PIT(PitTaxState::new(String::from("u1"), 2026));
    let statement = vec![txn(naira(-4000000), TransactionRole::Rent)];
    let (_, new_state) = calc.finalize_calculation(statement, &state);
    match new_state {
        UserTaxState::PIT(p) => assert!(p.rent_relief_used_ytd == naira(500000)),
        UserTaxState::LLC(_) => panic!("state changed kind"),
    }
}

#[test]
fn statement_with_many_unknowns_is_not_valid() {
    let calc = TaxCalculator::new();
    let state = UserTaxState::LLC(LLCTaxState::new(String::from("c1"), 2026));
    let statement = vec![
        txn(naira(1000), TransactionRole::Income),
        txn(naira(1000), TransactionRole::Unknown),
    ];
    let report = calc.preview_calculation(statement, &state);
    assert!(!report.is_valid_for_use);
    assert_eq!(report.unknown_transactions.len(), 1);
}

#[test]
fn amounts_beyond_the_calculator_range_do_not_fit() {
    let state = UserTaxState::PIT(PitTaxState::new(String::from("u1"), 2026));
    let small = vec![txn(naira(1000), TransactionRole::Income)];
    assert!(fits_statement_limit(&small, &state));
    let huge = Amount::from_digits(70000000000000000000000000000, 0);
    let big = vec![txn(huge, TransactionRole::Income)];
    assert!(!fits_statement_limit(&big, &state));
}

#[test]
fn exactly_thirty_percent_unknown_is_still_valid() {
    let calc = TaxCalculator::new();
    let state = UserTaxState::PIT(PitTaxState::new(String::from("u1"), 2026));
    let mut statement = Vec::new();
    for _ in 0..7 {
        statement.push(txn(naira(1000), TransactionRole::Income));
    }
    for _ in 0..3 {
        statement.push(txn(naira(-10), TransactionRole::Unknown));
    }
    let report = calc.preview_calculation(statement, &state);
    assert!(report.is_valid_for_use);
    assert_eq!(report.unknown_transactions.len(), 3);

    let mut statement = Vec::new();
    for _ in 0..6 {
        statement.push(txn(naira(1000), TransactionRole::Income));
    }
    for _ in 0..4 {
        statement.push(txn(naira(-10), TransactionRole::Unknown));
    }
    let report = calc.preview_calculation(statement, &state);
    assert!(!report.is_valid_for_use);
}

#[test]
fn pit_credit_flow_counts_unknown_inflows() {
    let calc = TaxCalculator::new();
    let state = UserTaxState::PIT(PitTaxState::new(String::from("u1"), 2026));
    let statement = vec![
        txn(naira(2000), TransactionRole::Salary),
        txn(naira(500), TransactionRole::Unknown),
        txn(naira(-300), TransactionRole::Unknown),
    ];
    let (report, _) = calc.finalize_calculation(statement, &state);
    assert!(report.total_credit_flow == naira(2500));
    assert!(report.taxable_income_delta == naira(2000));
}

#[test]
fn an_unknown_row_changes_no_figure() {
    let calc = TaxCalculator::new();
    let state = UserTaxState::PIT(PitTaxState::new(String::from("u1"), 2026));
    let statement = vec![txn(naira(4000000), TransactionRole::Salary), txn(naira(-300000), TransactionRole::Rent)];
    let mut longer: Vec<ParsedTransaction> = statement.iter().map(|t| t.duplicate()).collect();
    longer.push(txn(naira(-700), TransactionRole::Unknown));
    let (r1, s1) = calc.finalize_calculation(statement, &state);
    let (r2, s2) = calc.finalize_calculation(longer, &state);
    assert!(r1.taxable_income_delta == r2.taxable_income_delta);
    assert!(r1.tax_delta == r2.tax_delta);
    assert!(r1.development_levy_delta == r2.development_levy_delta);
    assert_eq!(r2.unknown_transactions.len(), r1.unknown_transactions.len() + 1);
    match (s1, s2) {
        (UserTaxState::PIT(a), UserTaxState::PIT(b)) => {
            assert!(a.taxable_income_ytd == b.taxable_income_ytd);
            assert!(a.rent_relief_used_ytd == b.rent_relief_used_ytd);
        }
        _ => panic!("state changed kind"),
    }
}

#[test]
fn pit_tax_grows_at_most_a_quarter_of_income() {
    let incomes = [-100, 0, 500000, 800000, 900000, 3000000, 12000000, 25000000, 50000000, 60000000];
    let mut previous = Amount::zero();
    let mut previous_income = 0i64;
    for income in incomes {
        let tax = TaxCalculator::calculate_pit_tax(naira(income));
        assert!(previous.le(&tax));
        let increase = naira((income - previous_income) / 4);
        assert!(tax.minus(&previous).le(&increase) || income == incomes[0]);
        previous = tax;
        previous_income = income;
    }
    assert!(TaxCalculator::calculate_pit_tax(naira(60000000)) == naira(12930000));
}

#[test]
fn finalising_in_two_steps_matches_finalising_joined() {
    let calc = TaxCalculator::new();
    let state = UserTaxState::PIT(PitTaxState::new(String::from("u1"), 2026));
    let first = vec![txn(naira(3000000), TransactionRole::Salary), txn(naira(-2000000), TransactionRole::Rent)];
    let second = vec![
        txn(naira(-2500000), TransactionRole::Rent),
        txn(naira(-10000), TransactionRole::Deduction),
        txn(naira(-50), TransactionRole::Unknown),
    ];
    let joined: Vec<ParsedTransaction> = first.iter().chain(second.iter()).map(|t| t.duplicate()).collect();
    let (r1, st1) = calc.finalize_calculation(first, &state);
    let (r2, st2) = calc.finalize_calculation(second, &st1);
    let (r, st12) = calc.finalize_calculation(joined, &state);
    assert!(r.taxable_income_delta == r1.taxable_income_delta.plus(&r2.taxable_income_delta));
    assert_eq!(r.unknown_transactions.len(), r1.unknown_transactions.len() + r2.unknown_transactions.len());
    match (st12, st2) {
        (UserTaxState::PIT(a), UserTaxState::PIT(b)) => {
            assert!(a.taxable_income_ytd == b.taxable_income_ytd);
            // 400,000 relief from the first rent, then only 100,000 left under the cap
            assert!(a.rent_relief_used_ytd == naira(500000));
            assert!(b.rent_relief_used_ytd == naira(500000));
        }
        _ => panic!("state changed kind"),
    }
}

#[test]
fn reordering_a_statement_changes_no_figure() {
    let calc = TaxCalculator::new();
    let state = UserTaxState::PIT(PitTaxState::new(String::from("u1"), 2026));
    let rows = vec![
        txn(naira(-2000000), TransactionRole::Rent),
        txn(naira(3000000), TransactionRole::Salary),
        txn(naira(-40), TransactionRole::Unknown),
        txn(naira(-2500000), TransactionRole::Rent),
        txn(naira(-10000), TransactionRole::Deduction),
    ];
    let reversed: Vec<ParsedTransaction> = rows.iter().rev().map(|t| t.duplicate()).collect();
    let (a, sa) = calc.finalize_calculation(rows, &state);
    let (b, sb) = calc.finalize_calculation(reversed, &state);
    assert!(a.taxable_income_delta == b.taxable_income_delta);
    assert!(a.tax_delta == b.tax_delta);
    assert_eq!(a.unknown_transactions.len(), b.unknown_transactions.len());
    match (sa, sb) {
        (UserTaxState::PIT(x), UserTaxState::PIT(y)) => {
            assert!(x.taxable_income_ytd == y.taxable_income_ytd);
            assert!(x.rent_relief_used_ytd == naira(500000));
            assert!(y.rent_relief_used_ytd == naira(500000));
            // 3,000,000 salary, less 10,000 deduction, less the capped 500,000 relief
            assert!(x.taxable_income_ytd == naira(2490000));
        }
        _ => panic!("state changed kind"),
    }
}

#[test]
fn negative_relief_used_below_the_cap_stays_below_it() {
    let calc = TaxCalculator::new();
    let mut p = PitTaxState::new(String::from("u1"), 2026);
    p.rent_relief_used_ytd = naira(-100000);
    let state = UserTaxState::PIT(p);
    let (_, next) = calc.finalize_calculation(vec![txn(naira(-5000000), TransactionRole::Rent)], &state);
    match next {
        UserTaxState::PIT(q) => assert!(q.rent_relief_used_ytd == naira(500000)),
        _ => panic!("state changed kind"),
    }
}

#[test]
fn company_tax_and_levy_add_up_over_two_statements() {
    let calc = TaxCalculator::new();
    let state = UserTaxState::LLC(LLCTaxState::new(String::from("c1"), 2026));
    let first = vec![txn(naira(80000000), TransactionRole::Income), txn(naira(-5000000), TransactionRole::BusinessExp)];
    let second = vec![txn(naira(70000000), TransactionRole::Income), txn(naira(-1000000), TransactionRole::Deduction)];
    let joined: Vec<ParsedTransaction> = first.iter().chain(second.iter()).map(|t| t.duplicate()).collect();
    let (r1, st1) = calc.finalize_calculation(first, &state);
    let (r2, _) = calc.finalize_calculation(second, &st1);
    let (r, _) = calc.finalize_calculation(joined, &state);
    // 144,000,000 profit on 150,000,000 turnover: 30% tax and 4% levy
    assert!(r.tax_payable_ytd == naira(43200000));
    assert!(r.development_levy_ytd == naira(5760000));
    assert!(r.tax_delta == r1.tax_delta.plus(&r2.tax_delta));
    assert!(r.development_levy_delta == r1.development_levy_delta.plus(&r2.development_levy_delta));
    // the first statement alone leaves a small company: no tax yet
    assert!(r1.tax_payable_ytd == Amount::zero());
}
