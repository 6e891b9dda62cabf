use tax_engine::domain::entities::TransactionRole;
use tax_engine::domain::lexicon::DbError;
use tax_engine::infrastructure::persistence::lexicon_repo::{
    assemble_lexicon, merge_keywords, merge_patterns, merged_rule, parse_role, role_to_db, CategoryRow, EntryRow,
};

fn words(ws: &[&str]) -> Vec<String> {
    ws.iter().map(|w| w.to_string()).collect()
}

#[test]
fn keywords_merge_without_repeats() {
    assert_eq!(merge_keywords(words(&["A", "B"]), words(&["B", "C", "A"])), words(&["A", "B", "C"]));
}

#[test]
fn patterns_merge_by_signature() {
    let merged = merge_patterns(vec![words(&["HOUSE", "RENT"])], vec![words(&["HOUSE", "RENT"]), words(&["RENT"])]);
    assert_eq!(merged, vec![words(&["HOUSE", "RENT"]), words(&["RENT"])]);
    // the signature joins with U+001F, so a word holding it matches the split pattern
    let merged = merge_patterns(vec![words(&["A\u{1f}B"])], vec![words(&["A", "B"])]);
    assert_eq!(merged, vec![words(&["A\u{1f}B"])]);
}

#[test]
fn taught_rule_is_cleaned_then_merged() {
    let (k, p) = merged_rule(None, words(&[" rent ", "RENT"]), vec![words(&["house", " rent"])]);
    assert_eq!(k, words(&["RENT"]));
    assert_eq!(p, vec![words(&["HOUSE", "RENT"])]);
    let (k, p) = merged_rule(Some((words(&["LEASE"]), vec![words(&["RENT"])])), words(&["rent", "lease"]), vec![words(&["rent"])]);
    assert_eq!(k, words(&["LEASE", "RENT"]));
    assert_eq!(p, vec![words(&["RENT"])]);
}

#[test]
fn role_names_round_trip() {
    for role in [
        TransactionRole::Income,
        TransactionRole::BusinessExp,
        TransactionRole::Salary,
        TransactionRole::TaxExempt,
        TransactionRole::Utilities,
        TransactionRole::Rent,
        TransactionRole::Relief,
        TransactionRole::Deduction,
        TransactionRole::PersonalExp,
        TransactionRole::PassThrough,
        TransactionRole::Unknown,
    ] {
        assert_eq!(parse_role(role_to_db(role)).unwrap(), role);
    }
    assert_eq!(parse_role("income").unwrap_err(), DbError::QueryError("unsupported lexicon role: income".to_string()));
}

#[test]
fn rows_are_assembled_into_the_nested_lexicon() {
    let cats = vec![CategoryRow { id: 1, name: "income".to_string() }, CategoryRow { id: 2, name: "relief".to_string() }];
    let entries = vec![
        EntryRow { category_id: 2, sub_category: "RENT".to_string(), role: "Rent".to_string(), keywords: words(&["RENT"]), patterns: vec![] },
        EntryRow { category_id: 1, sub_category: "SALARY".to_string(), role: "Salary".to_string(), keywords: words(&["SALARY"]), patterns: vec![] },
        EntryRow { category_id: 2, sub_category: "RENT".to_string(), role: "Rent".to_string(), keywords: words(&["LEASE"]), patterns: vec![] },
    ];
    let lex = assemble_lexicon(&cats, &entries).unwrap();
    assert_eq!(lex.categories.len(), 2);
    assert_eq!(lex.categories[0].0, "relief");
    assert_eq!(lex.categories[0].1.len(), 1);
    assert_eq!(lex.categories[0].1[0].1.keywords, words(&["LEASE"]));
    assert_eq!(lex.categories[0].1[0].1.role, Some(TransactionRole::Rent));
    assert_eq!(lex.categories[1].0, "income");
}

#[test]
fn rows_with_missing_category_or_unknown_role_are_errors() {
    let cats = vec![CategoryRow { id: 1, name: "income".to_string() }];
    let missing = vec![EntryRow { category_id: 9, sub_category: "X".to_string(), role: "Income".to_string(), keywords: vec![], patterns: vec![] }];
    assert_eq!(
        assemble_lexicon(&cats, &missing).unwrap_err(),
        DbError::QueryError("lexicon entry points to a missing category".to_string())
    );
    let bad_role = vec![EntryRow { category_id: 1, sub_category: "X".to_string(), role: "Gift".to_string(), keywords: vec![], patterns: vec![] }];
    assert_eq!(assemble_lexicon(&cats, &bad_role).unwrap_err(), DbError::QueryError("unsupported lexicon role: Gift".to_string()));
}

#[test]
fn db_error_messages() {
    assert_eq!(DbError::NotFound.message(), "not found");
    assert_eq!(DbError::QueryError("x".to_string()).message(), "query error: x");
}

#[test]
fn merging_the_same_keywords_twice_changes_nothing() {
    let once = merge_keywords(words(&["A", "B"]), words(&["C", "A", "C"]));
    assert_eq!(once, words(&["A", "B", "C"]));
    let twice = merge_keywords(once.clone(), words(&["C", "A", "C"]));
    assert_eq!(twice, once);
}

#[test]
fn teaching_the_same_rule_twice_changes_nothing() {
    let stored = Some((words(&["LEASE"]), vec![words(&["RENT"])]));
    let (k1, p1) = merged_rule(stored, words(&["rent", "lease"]), vec![words(&["house", "rent"]), words(&["rent"])]);
    let (k2, p2) = merged_rule(Some((k1.clone(), p1.clone())), words(&["rent", "lease"]), vec![words(&["house", "rent"]), words(&["rent"])]);
    assert_eq!(k2, k1);
    assert_eq!(p2, p1);
}

#[test]
fn repeated_patterns_of_a_first_rule_are_merged_on_the_second_teaching() {
    let (_, p1) = merged_rule(None, words(&["rent"]), vec![words(&["rent"]), words(&["rent"])]);
    assert_eq!(p1, vec![words(&["RENT"]), words(&["RENT"])]);
    let (_, p2) = merged_rule(Some((words(&["RENT"]), p1)), words(&["rent"]), vec![words(&["rent"]), words(&["rent"])]);
    assert_eq!(p2, vec![words(&["RENT"])]);
}
