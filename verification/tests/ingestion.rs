use tax_engine::application::ingestion::{ProcessorError, ProcessorMode, SingleStatmentResult, StatementProcessor};
use tax_engine::domain::entities::{
    CategoryRule, LexiconFile, ParsedTransaction, PitTaxState, TaxEntity, TransactionRole, UserTaxState,
};
use tax_engine::domain::services::categorizer::TransactionCategorizer;
use tax_engine::domain::services::tax_calculator::TaxCalculator;
use tax_engine::infrastructure::pdf_parser::PdfParserAdapter;
use tax_engine::money::Amount;

fn processor() -> StatementProcessor {
    let cat = TransactionCategorizer::from_lexicon(LexiconFile {
        categories: vec![(
            "income".to_string(),
            vec![("SALARY".to_string(), CategoryRule { role: None, keywords: vec!["salary".to_string()], patterns: vec![] })],
        )],
    });
    StatementProcessor::new(PdfParserAdapter::new(), cat, TaxCalculator::new())
}

fn state() -> UserTaxState {
    UserTaxState::PIT(PitTaxState::new("u1".to_string(), 2026))
}

fn txn(amount: i64, role: TransactionRole) -> ParsedTransaction {
    ParsedTransaction {
        amount: Amount::new(amount, 0),
        narration: "row".to_string(),
        role,
        confidence: 100,
        charges: Amount::zero(),
        date: "01/01/2026".to_string(),
    }
}

#[test]
fn finalising_a_usable_statement_moves_the_state() {
    let p = processor();
    let (summary, new_state) =
        p.process_transactions(vec![txn(1000000, TransactionRole::Salary)], ProcessorMode::Final, &state(), "s1".to_string());
    match summary {
        SingleStatmentResult::Valid(v) => {
            assert_eq!(v.statement_id, "s1");
            assert!(v.taxable_income_delta == Amount::new(1000000, 0));
            assert!(v.total_credit_flow == Amount::new(1000000, 0));
            assert_eq!(v.unknown_count, 0);
        }
        SingleStatmentResult::Invalid(_) => panic!("usable statement reported invalid"),
    }
    match new_state {
        Some(UserTaxState::PIT(s)) => assert!(s.taxable_income_ytd == Amount::new(1000000, 0)),
        _ => panic!("no new state"),
    }
}

#[test]
fn previewing_leaves_the_state() {
    let p = processor();
    let (_, new_state) =
        p.process_transactions(vec![txn(1000, TransactionRole::Salary)], ProcessorMode::Preview, &state(), "s1".to_string());
    assert!(new_state.is_none());
}

#[test]
fn unusable_statement_does_not_move_the_state() {
    let p = processor();
    let (summary, new_state) = p.process_transactions(
        vec![txn(1000, TransactionRole::Unknown), txn(1000, TransactionRole::Salary)],
        ProcessorMode::Final,
        &state(),
        "s2".to_string(),
    );
    match summary {
        SingleStatmentResult::Invalid(v) => {
            assert_eq!(v.unknown_count, 1);
            assert_eq!(v.unknown_transactions.len(), 1);
        }
        SingleStatmentResult::Valid(_) => panic!("unusable statement reported valid"),
    }
    assert!(new_state.is_none());
}

#[test]
fn unreadable_pdf_is_a_parsing_error() {
    let p = processor();
    let r = p.process_statement(
        pdf_extract::extract_text_from_mem_by_pages(b"garbage").ok(),
        "u1".to_string(),
        TaxEntity::PIT,
        2026,
        ProcessorMode::Preview,
        &state(),
        "s1".to_string(),
    );
    assert_eq!(r.unwrap_err(), ProcessorError::pdf_parsing_error("failed ot read the pdf ".to_string()));
}

#[test]
fn batch_stops_at_the_first_bad_statement() {
    let p = processor();
    let r = p.batch_statement_processor(
        vec![None, Some(vec!["01/02/2026 Salary 10.00 CR".to_string()])],
        "u1".to_string(),
        TaxEntity::PIT,
        2026,
        ProcessorMode::Final,
        &state(),
        "b1".to_string(),
        vec!["s1".to_string(), "s2".to_string()],
    );
    assert!(matches!(r, Err(ProcessorError::pdf_parsing_error(_))));
}

#[test]
fn empty_batch_reports_the_starting_state_when_finalising() {
    let p = processor();
    let r = p
        .batch_statement_processor(vec![], "u1".to_string(), TaxEntity::PIT, 2026, ProcessorMode::Final, &state(), "b1".to_string(), vec![])
        .unwrap();
    assert_eq!(r.batch_id, "b1");
    assert!(r.valid_statments.is_empty());
    assert!(r.invalid_statements.is_empty());
    assert!(r.updated_user_state.is_some());
    let r = p
        .batch_statement_processor(vec![], "u1".to_string(), TaxEntity::PIT, 2026, ProcessorMode::Preview, &state(), "b2".to_string(), vec![])
        .unwrap();
    assert!(r.updated_user_state.is_none());
}
