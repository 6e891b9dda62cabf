use tax_engine::application::ai_fallback::{
    finish_fallback, learned_sub_category, lexicon_lesson, start_fallback, suggestion_to_lexicon_entry, FallbackStep,
};
use tax_engine::domain::entities::{CategoryRule, LexiconFile, RawStatement, TaxEntity, TransactionRole};
use tax_engine::domain::services::categorizer::TransactionCategorizer;
use tax_engine::domain::services::gemini_classifier::{AiClassification, AiLexiconSuggestion};
use tax_engine::money::Amount;

fn categorizer() -> TransactionCategorizer {
    TransactionCategorizer::from_lexicon(LexiconFile {
        categories: vec![(
            String::from("income"),
            vec![(
                String::from("SALARY"),
                CategoryRule { role: None, keywords: vec!["salary".to_string()], patterns: vec![] },
            )],
        )],
    })
}

fn raw(narration: &str) -> RawStatement {
    RawStatement { date: "01/01/2026".to_string(), narration: narration.to_string(), amount: Amount::new(100, 0), counterparty: None }
}

fn classification(role: TransactionRole) -> AiClassification {
    AiClassification {
        role,
        confidence: 70,
        reason: "because".to_string(),
        lexicon_suggestion: AiLexiconSuggestion {
            category: "relief".to_string(),
            keywords: vec!["LANDLORD".to_string()],
            patterns: vec![vec!["HOUSE".to_string(), "RENT".to_string()]],
        },
    }
}

#[test]
fn known_roles_do_not_consult_the_model() {
    match start_fallback(&categorizer(), raw("salary"), TaxEntity::PIT) {
        FallbackStep::Done(r) => {
            assert_eq!(r.transaction.role, TransactionRole::Salary);
            assert!(r.ai.is_none());
        }
        FallbackStep::AskModel(_) => panic!("model consulted for a known role"),
    }
}

#[test]
fn unknown_roles_go_to_the_model_and_take_its_answer() {
    let parsed = match start_fallback(&categorizer(), raw("landlord"), TaxEntity::PIT) {
        FallbackStep::AskModel(p) => p,
        FallbackStep::Done(_) => panic!("unknown role not sent to the model"),
    };
    assert_eq!(parsed.role, TransactionRole::Unknown);
    let r = finish_fallback(parsed, classification(TransactionRole::Rent));
    assert_eq!(r.transaction.role, TransactionRole::Rent);
    assert_eq!(r.transaction.confidence, 70);
    assert_eq!(r.transaction.narration, "landlord");
    assert_eq!(r.ai.unwrap().reason, "because");
}

#[test]
fn lessons_are_learned_only_from_known_roles() {
    assert!(lexicon_lesson(&classification(TransactionRole::Unknown)).is_none());
    let lesson = lexicon_lesson(&classification(TransactionRole::Rent)).unwrap();
    assert_eq!(lesson.category, "relief");
    assert_eq!(lesson.sub_category, "AI_RENT");
    assert_eq!(lesson.role, TransactionRole::Rent);
    assert_eq!(lesson.keywords, vec!["LANDLORD".to_string()]);
    assert_eq!(lesson.confidence, 70);
}

#[test]
fn learned_sub_categories_are_named_by_role() {
    assert_eq!(learned_sub_category(TransactionRole::PassThrough), "AI_PASS_THROUGH");
    assert_eq!(learned_sub_category(TransactionRole::BusinessExp), "AI_BUSINESS_EXP");
}

#[test]
fn suggestion_entry_is_a_copy() {
    let s = classification(TransactionRole::Rent).lexicon_suggestion;
    let (c, k, p) = suggestion_to_lexicon_entry(&s);
    assert_eq!(c, s.category);
    assert_eq!(k, s.keywords);
    assert_eq!(p, s.patterns);
}
