use tax_engine::domain::entities::{TaxEntity, TransactionRole};
use tax_engine::domain::services::gemini_classifier::{
    build_prompt, classification_from_output, cleanup_json_text, normalize_keywords, normalize_patterns, parse_role,
    role_to_lexicon_category, AiClassifierError, GeminiOutput,
};

fn words(ws: &[&str]) -> Vec<String> {
    ws.iter().map(|w| w.to_string()).collect()
}

#[test]
fn code_fences_are_stripped() {
    assert_eq!(cleanup_json_text("  ```json\n{\"role\": \"Rent\"}\n```  "), "{\"role\": \"Rent\"}");
    assert_eq!(cleanup_json_text("```{}```"), "{}");
    assert_eq!(cleanup_json_text("{}"), "{}");
}

#[test]
fn role_names_are_read_case_insensitively() {
    assert_eq!(parse_role(" business_expense ").unwrap(), TransactionRole::BusinessExp);
    assert_eq!(parse_role("pass-through").unwrap(), TransactionRole::PassThrough);
    assert_eq!(parse_role("Rent").unwrap(), TransactionRole::Rent);
    assert_eq!(parse_role("gift").unwrap_err(), AiClassifierError::UnsupportedRole("GIFT".to_string()));
}

#[test]
fn roles_map_to_lexicon_categories() {
    assert_eq!(role_to_lexicon_category(TransactionRole::Salary), "income");
    assert_eq!(role_to_lexicon_category(TransactionRole::Utilities), "business_exp");
    assert_eq!(role_to_lexicon_category(TransactionRole::Rent), "relief");
    assert_eq!(role_to_lexicon_category(TransactionRole::Unknown), "unknown");
}

#[test]
fn keywords_are_cleaned_and_deduplicated() {
    assert_eq!(normalize_keywords(words(&[" rent ", "RENT", "", "  ", "house"])), words(&["RENT", "HOUSE"]));
}

#[test]
fn patterns_are_cleaned_and_empty_ones_dropped() {
    let out = normalize_patterns(vec![words(&[" house ", "", "rent"]), words(&["", " "]), words(&["rent"])]);
    assert_eq!(out, vec![words(&["HOUSE", "RENT"]), words(&["RENT"])]);
}

#[test]
fn prompt_carries_entity_amount_narration_and_law() {
    let p = build_prompt("SALARY MARCH", "positive", TaxEntity::LLC, "LAW TEXT");
    assert!(p.starts_with("you are classifying nigerian bank transaction narrations for a tax engine."));
    assert!(p.ends_with("entity_type: LLC\namount_sign: positive\nnarration: SALARY MARCH\n\ntax law context:\nLAW TEXT"));
}

#[test]
fn answer_is_validated_with_defaults() {
    let output = GeminiOutput {
        role: "rent".to_string(),
        confidence: Some(140),
        reason: None,
        keywords: None,
        patterns: Some(vec![words(&["", " "])]),
    };
    let c = classification_from_output("house rent to landlord", output).unwrap();
    assert_eq!(c.role, TransactionRole::Rent);
    assert_eq!(c.confidence, 100);
    assert_eq!(c.reason, "gemini classification");
    assert_eq!(c.lexicon_suggestion.category, "relief");
    assert_eq!(c.lexicon_suggestion.keywords, words(&["HOUSE RENT TO LANDLORD"]));
    assert_eq!(c.lexicon_suggestion.patterns, vec![words(&["HOUSE", "RENT", "TO"])]);
}

#[test]
fn answer_keeps_given_fields() {
    let output = GeminiOutput {
        role: "Salary".to_string(),
        confidence: None,
        reason: Some("monthly pay".to_string()),
        keywords: Some(words(&["salary", "pay"])),
        patterns: Some(vec![words(&["monthly", "salary"])]),
    };
    let c = classification_from_output("x", output).unwrap();
    assert_eq!(c.confidence, 60);
    assert_eq!(c.reason, "monthly pay");
    assert_eq!(c.lexicon_suggestion.category, "income");
    assert_eq!(c.lexicon_suggestion.keywords, words(&["SALARY", "PAY"]));
    assert_eq!(c.lexicon_suggestion.patterns, vec![words(&["MONTHLY", "SALARY"])]);
}

#[test]
fn unsupported_role_in_answer_is_an_error() {
    let output = GeminiOutput { role: "bonus".to_string(), confidence: None, reason: None, keywords: None, patterns: None };
    assert_eq!(
        classification_from_output("x", output).unwrap_err(),
        AiClassifierError::UnsupportedRole("BONUS".to_string())
    );
}

#[test]
fn error_messages_name_the_cause() {
    assert_eq!(AiClassifierError::MissingApiKey.message(), "missing gemini api key");
    assert_eq!(AiClassifierError::InvalidJson("eof".to_string()).message(), "gemini returned invalid json: eof");
    assert_eq!(AiClassifierError::RequestFailed("503".to_string()).message(), "gemini request failed: 503");
}

#[test]
fn normalising_keywords_twice_changes_nothing() {
    let once = normalize_keywords(words(&[" rent ", "Rent", "", "house rent", "  "]));
    assert_eq!(once, words(&["RENT", "HOUSE RENT"]));
    assert_eq!(normalize_keywords(once.clone()), once);
}

#[test]
fn fallback_suggestion_has_no_empty_pattern() {
    let output = GeminiOutput { role: "income".to_string(), confidence: None, reason: None, keywords: None, patterns: None };
    let c = classification_from_output("--- pos/ref 12 ---", output).unwrap();
    assert_eq!(c.lexicon_suggestion.keywords, words(&["--- POS/REF 12 ---"]));
    assert_eq!(c.lexicon_suggestion.patterns, vec![words(&["POS", "REF", "12"])]);
    assert!(c.lexicon_suggestion.patterns.iter().all(|p| !p.is_empty()));
}
