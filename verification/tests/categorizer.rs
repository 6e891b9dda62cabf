use tax_engine::domain::entities::{CategoryRule, LexiconFile, RawStatement, TaxEntity, TransactionRole};
use tax_engine::domain::services::categorizer::TransactionCategorizer;
use tax_engine::money::Amount;

fn words(ws: &[&str]) -> Vec<String> {
    ws.iter().map(|w| w.to_string()).collect()
}

fn rule(keywords: &[&str], patterns: &[&[&str]]) -> CategoryRule {
    CategoryRule { role: None, keywords: words(keywords), patterns: patterns.iter().map(|p| words(p)).collect() }
}

fn lexicon() -> LexiconFile {
    LexiconFile {
        categories: vec![
            (
                String::from("income"),
                vec![
                    (String::from("SALARY"), rule(&["salary", "wages"], &[&["monthly", "pay"]])),
                    (String::from("SALES"), rule(&["sales"], &[])),
                ],
            ),
            (
                String::from("business_exp"),
                vec![(String::from("UTILITIES"), rule(&["electricity", "nepa"], &[&["power", "bill"]]))],
            ),
            (String::from("relief"), vec![(String::from("RENT"), rule(&["rent"], &[&["house", "rent", "payment"]]))]),
            (String::from("personal_exp"), vec![(String::from("FOOD"), rule(&["groceries"], &[]))]),
            (String::from("misc"), vec![(String::from("OTHER"), rule(&["lottery"], &[]))]),
        ],
    }
}

fn raw(narration: &str, amount: i64) -> RawStatement {
    RawStatement {
        date: String::from("01/02/2026"),
        narration: String::from(narration),
        amount: Amount::new(amount, 0),
        counterparty: None,
    }
}

#[test]
fn keyword_gives_role_with_full_confidence() {
    let cat = TransactionCategorizer::from_lexicon(lexicon());
    let parsed = cat.analyze_raw_statment(raw("Salary for March", 500000), TaxEntity::PIT);
    assert_eq!(parsed.role, TransactionRole::Salary);
    assert_eq!(parsed.confidence, 100);
    assert_eq!(parsed.narration, "Salary for March");
    assert!(parsed.amount == Amount::new(500000, 0));
}

#[test]
fn pattern_wins_over_conflicting_keywords() {
    let cat = TransactionCategorizer::from_lexicon(lexicon());
    // "salary" alone would be Salary; the pattern HOUSE RENT PAYMENT is Rent and comes first.
    let parsed = cat.analyze_raw_statment(raw("house rent payment salary", -200000), TaxEntity::PIT);
    assert_eq!(parsed.role, TransactionRole::Rent);
    assert_eq!(parsed.confidence, 100);
}

#[test]
fn conflicting_keywords_leave_the_role_unknown() {
    let cat = TransactionCategorizer::from_lexicon(lexicon());
    let parsed = cat.analyze_raw_statment(raw("salary electricity", 1000), TaxEntity::LLC);
    assert_eq!(parsed.role, TransactionRole::Unknown);
    assert_eq!(parsed.confidence, 0);
}

#[test]
fn misspelled_keyword_is_corrected() {
    let cat = TransactionCategorizer::from_lexicon(lexicon());
    let parsed = cat.analyze_raw_statment(raw("SALRY MARCH", 1000), TaxEntity::PIT);
    assert_eq!(parsed.role, TransactionRole::Salary);
}

#[test]
fn word_far_from_every_keyword_stays_unknown() {
    let cat = TransactionCategorizer::from_lexicon(lexicon());
    let parsed = cat.analyze_raw_statment(raw("transfer xyz", 1000), TaxEntity::PIT);
    assert_eq!(parsed.role, TransactionRole::Unknown);
}

#[test]
fn unknown_category_rules_are_skipped() {
    let cat = TransactionCategorizer::from_lexicon(lexicon());
    let parsed = cat.analyze_raw_statment(raw("lottery", 1000), TaxEntity::PIT);
    assert_eq!(parsed.role, TransactionRole::Unknown);
}

#[test]
fn pit_refinement_follows_the_direction_of_money() {
    let cat = TransactionCategorizer::from_lexicon(lexicon());
    assert_eq!(cat.analyze_raw_statment(raw("salary", -1000), TaxEntity::PIT).role, TransactionRole::PersonalExp);
    assert_eq!(cat.analyze_raw_statment(raw("rent", 1000), TaxEntity::PIT).role, TransactionRole::Income);
    assert_eq!(cat.analyze_raw_statment(raw("rent", -1000), TaxEntity::PIT).role, TransactionRole::Rent);
    assert_eq!(cat.analyze_raw_statment(raw("nepa", 1000), TaxEntity::PIT).role, TransactionRole::TaxExempt);
    assert_eq!(cat.analyze_raw_statment(raw("groceries", 1000), TaxEntity::PIT).role, TransactionRole::Income);
    assert_eq!(cat.analyze_raw_statment(raw("sales", -1000), TaxEntity::PIT).role, TransactionRole::PersonalExp);
}

#[test]
fn llc_refinement_follows_the_direction_of_money() {
    let cat = TransactionCategorizer::from_lexicon(lexicon());
    assert_eq!(cat.analyze_raw_statment(raw("salary", -1000), TaxEntity::LLC).role, TransactionRole::BusinessExp);
    assert_eq!(cat.analyze_raw_statment(raw("rent", -1000), TaxEntity::LLC).role, TransactionRole::BusinessExp);
    assert_eq!(cat.analyze_raw_statment(raw("rent", 1000), TaxEntity::LLC).role, TransactionRole::Income);
    assert_eq!(cat.analyze_raw_statment(raw("nepa", 1000), TaxEntity::LLC).role, TransactionRole::TaxExempt);
    assert_eq!(cat.analyze_raw_statment(raw("groceries", 1000), TaxEntity::LLC).role, TransactionRole::Income);
    assert_eq!(cat.analyze_raw_statment(raw("salary", 1000), TaxEntity::LLC).role, TransactionRole::Salary);
}

#[test]
fn charge_amount_is_extracted_from_the_narration() {
    let cat = TransactionCategorizer::from_lexicon(lexicon());
    let parsed = cat.analyze_raw_statment(raw("Transfer fee: 1,050.75 stamp", -1000), TaxEntity::PIT);
    assert!(parsed.charges == Amount::new(105075, 2));
    let none = cat.analyze_raw_statment(raw("plain transfer", -1000), TaxEntity::PIT);
    assert!(none.charges == Amount::zero());
    // a charge word needs a separator before its amount
    let glued = cat.analyze_raw_statment(raw("VAT7.50", -1000), TaxEntity::PIT);
    assert!(glued.charges == Amount::zero());
}

#[test]
fn later_keyword_replaces_an_earlier_one() {
    let lex = LexiconFile {
        categories: vec![
            (String::from("income"), vec![(String::from("A"), rule(&["bonus"], &[]))]),
            (String::from("deduction"), vec![(String::from("B"), rule(&["Bonus"], &[]))]),
        ],
    };
    let cat = TransactionCategorizer::from_lexicon(lex);
    assert_eq!(cat.analyze_raw_statment(raw("bonus", 10), TaxEntity::PIT).role, TransactionRole::Deduction);
}

#[test]
fn stored_role_takes_precedence_over_names() {
    let lex = LexiconFile {
        categories: vec![(
            String::from("misc"),
            vec![(
                String::from("AI_PASS_THROUGH"),
                CategoryRule { role: Some(TransactionRole::PassThrough), keywords: words(&["escrow"]), patterns: vec![] },
            )],
        )],
    };
    let cat = TransactionCategorizer::from_lexicon(lex);
    assert_eq!(cat.analyze_raw_statment(raw("escrow", 10), TaxEntity::PIT).role, TransactionRole::PassThrough);
}

#[test]
fn batch_keeps_the_order_of_the_rows() {
    let cat = TransactionCategorizer::from_lexicon(lexicon());
    let rows = vec![raw("salary", 1), raw("nepa bill", -2), raw("unknown thing", 3)];
    let parsed = cat.analyze_batch_parallel(rows, TaxEntity::PIT);
    assert_eq!(parsed.len(), 3);
    assert_eq!(parsed[0].role, TransactionRole::Salary);
    assert_eq!(parsed[1].role, TransactionRole::Utilities);
    assert_eq!(parsed[2].role, TransactionRole::Unknown);
    assert_eq!(parsed[2].narration, "unknown thing");
}

#[test]
fn charge_is_never_negative() {
    let cat = TransactionCategorizer::from_lexicon(lexicon());
    let parsed = cat.analyze_raw_statment(raw("COMM: 25.00 reversal -25.00", -1000), TaxEntity::PIT);
    assert!(parsed.charges == Amount::new(2500, 2));
    assert!(!parsed.charges.is_sign_negative());
}

#[test]
fn lexicon_keywords_are_filed_in_upper_case() {
    let cat = TransactionCategorizer::from_lexicon(lexicon());
    let parsed = cat.analyze_raw_statment(raw("WAGES", 500000), TaxEntity::PIT);
    assert_eq!(parsed.role, TransactionRole::Salary);
    assert_eq!(parsed.confidence, 100);
}
