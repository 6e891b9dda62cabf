use lopdf::{Dictionary, Document, Object, Stream};
use tax_engine::application::ingestion::{ProcessorMode, StatementProcessor};
use tax_engine::domain::entities::{CategoryRule, CheckError, CheckerResult, LexiconFile, PitTaxState, TaxEntity, UserTaxState};
use tax_engine::domain::services::categorizer::TransactionCategorizer;
use tax_engine::domain::services::tax_calculator::TaxCalculator;
use tax_engine::infrastructure::pdf_decrypter::PdfEncryptionChecker;
use tax_engine::infrastructure::pdf_parser::PdfParserAdapter;
use tax_engine::money::Amount;

fn pdf_with_text(lines: &[&str]) -> Vec<u8> {
    let mut doc = Document::with_version("1.5");
    let pages_id = doc.new_object_id();
    let mut font = Dictionary::new();
    font.set("Type", Object::Name(b"Font".to_vec()));
    font.set("Subtype", Object::Name(b"Type1".to_vec()));
    font.set("BaseFont", Object::Name(b"Helvetica".to_vec()));
    let font_id = doc.add_object(font);
    let mut fonts = Dictionary::new();
    fonts.set("F1", Object::Reference(font_id));
    let mut resources = Dictionary::new();
    resources.set("Font", Object::Dictionary(fonts));
    let resources_id = doc.add_object(resources);
    let mut content = String::from("BT /F1 12 Tf 72 720 Td 14 TL\n");
    for line in lines {
        content.push_str(&format!("({}) Tj T*\n", line));
    }
    content.push_str("ET");
    let content_id = doc.add_object(Stream::new(Dictionary::new(), content.into_bytes()));
    let mut page = Dictionary::new();
    page.set("Type", Object::Name(b"Page".to_vec()));
    page.set("Parent", Object::Reference(pages_id));
    page.set("Contents", Object::Reference(content_id));
    page.set("Resources", Object::Reference(resources_id));
    page.set(
        "MediaBox",
        Object::Array(vec![Object::Integer(0), Object::Integer(0), Object::Integer(612), Object::Integer(792)]),
    );
    let page_id = doc.add_object(page);
    let mut pages = Dictionary::new();
    pages.set("Type", Object::Name(b"Pages".to_vec()));
    pages.set("Kids", Object::Array(vec![Object::Reference(page_id)]));
    pages.set("Count", Object::Integer(1));
    doc.objects.insert(pages_id, Object::Dictionary(pages));
    let mut catalog = Dictionary::new();
    catalog.set("Type", Object::Name(b"Catalog".to_vec()));
    catalog.set("Pages", Object::Reference(pages_id));
    let catalog_id = doc.add_object(catalog);
    doc.trailer.set("Root", Object::Reference(catalog_id));
    let mut out = Vec::new();
    doc.save_to(&mut out).unwrap();
    out
}

fn pages_of(bytes: &[u8]) -> Option<Vec<String>> {
    pdf_extract::extract_text_from_mem_by_pages(bytes).ok()
}

#[test]
fn garbage_has_no_pages_and_is_a_file_error() {
    assert!(pages_of(b"garbage").is_none());
    assert_eq!(PdfParserAdapter::new().parse_pdf(pages_of(b"garbage")).unwrap_err(), tax_engine::domain::entities::ParserError::FileError);
}

#[test]
fn garbage_is_a_corrupted_pdf() {
    let checker = PdfEncryptionChecker::new();
    assert!(matches!(checker.check_pdf(b"hello"), Err(CheckError::CorruptedPdf(_))));
    assert!(matches!(checker.decrypt_pdf(b"hello", "pw"), Err(CheckError::CorruptedPdf(_))));
}

#[test]
fn plain_pdf_is_unlocked_and_carried_unchanged() {
    let bytes = pdf_with_text(&["hello"]);
    let checker = PdfEncryptionChecker::new();
    match checker.check_pdf(&bytes) {
        Ok(CheckerResult::UnlockedPdf(b)) => assert_eq!(b, bytes),
        other => panic!("unexpected {:?}", other),
    }
    let saved = checker.decrypt_pdf(&bytes, "anything").unwrap();
    assert!(saved.starts_with(b"%PDF"));
}

#[test]
fn text_of_a_pdf_becomes_statement_rows() {
    let bytes = pdf_with_text(&["01/02/2026 Salary from Acme 5,000.00 CR", "02/02/2026 ATM withdrawal 200.00 DR"]);
    let rows = PdfParserAdapter::new().parse_pdf(pages_of(&bytes)).unwrap();
    assert_eq!(rows.len(), 2);
    assert_eq!(rows[0].date, "01/02/2026");
    assert!(rows[0].amount == Amount::new(5000, 0));
    assert_eq!(rows[0].counterparty.as_deref(), Some("Acme"));
    assert!(rows[1].amount == Amount::new(-200, 0));
}

#[test]
fn batch_of_pdfs_threads_the_state_through_each_statement() {
    let cat = TransactionCategorizer::from_lexicon(LexiconFile {
        categories: vec![(
            "income".to_string(),
            vec![("SALARY".to_string(), CategoryRule { role: None, keywords: vec!["salary".to_string()], patterns: vec![] })],
        )],
    });
    let processor = StatementProcessor::new(PdfParserAdapter::new(), cat, TaxCalculator::new());
    let first = pdf_with_text(&["01/02/2026 Salary February 1,000,000.00 CR"]);
    let second = pdf_with_text(&["01/03/2026 Salary March 1,000,000.00 CR", "02/03/2026 Mystery 5.00 DR"]);
    let state = UserTaxState::PIT(PitTaxState::new("u1".to_string(), 2026));
    let batch = processor
        .batch_statement_processor(
            vec![pages_of(&first), pages_of(&second)],
            "u1".to_string(),
            TaxEntity::PIT,
            2026,
            ProcessorMode::Final,
            &state,
            "b1".to_string(),
            vec!["s1".to_string(), "s2".to_string()],
        )
        .unwrap();
    assert_eq!(batch.valid_statments.len() + batch.invalid_statements.len(), 2);
    assert_eq!(batch.valid_statments.len(), 1);
    assert_eq!(batch.valid_statments[0].statement_id, "s1");
    assert_eq!(batch.invalid_statements[0].statement_id, "s2");
    assert_eq!(batch.invalid_statements[0].unknown_count, 1);
    match batch.updated_user_state {
        Some(UserTaxState::PIT(p)) => assert!(p.taxable_income_ytd == Amount::new(1000000, 0)),
        _ => panic!("no state after finalising"),
    }
}

fn locked_pdf() -> Vec<u8> {
    let bytes = pdf_with_text(&["01/02/2026 Salary from Acme 5,000.00 CR"]);
    let mut doc = Document::load_mem(&bytes).unwrap();
    doc.trailer.set(
        "ID",
        Object::Array(vec![Object::string_literal(vec![1u8; 16]), Object::string_literal(vec![2u8; 16])]),
    );
    let state = lopdf::EncryptionState::try_from(lopdf::EncryptionVersion::V2 {
        document: &doc,
        owner_password: "owner",
        user_password: "user",
        key_length: 128,
        permissions: lopdf::Permissions::all(),
    })
    .unwrap();
    doc.encrypt(&state).unwrap();
    let mut out = Vec::new();
    doc.save_to(&mut out).unwrap();
    out
}

#[test]
fn encrypted_pdf_is_locked_and_carried_unchanged() {
    let bytes = locked_pdf();
    let checker = PdfEncryptionChecker::new();
    match checker.check_pdf(&bytes) {
        Ok(CheckerResult::LockedPdf(b)) => assert_eq!(b, bytes),
        other => panic!("unexpected {:?}", other),
    }
}

#[test]
fn wrong_password_is_refused() {
    let bytes = locked_pdf();
    let checker = PdfEncryptionChecker::new();
    assert!(matches!(checker.decrypt_pdf(&bytes, "not it"), Err(CheckError::WrongPassword)));
}

#[test]
fn right_password_gives_the_saved_document() {
    let bytes = locked_pdf();
    let checker = PdfEncryptionChecker::new();
    let saved = checker.decrypt_pdf(&bytes, "user").unwrap();
    assert!(saved.starts_with(b"%PDF"));
    assert_ne!(saved, bytes);
    let again = checker.decrypt_pdf(&bytes, "owner").unwrap();
    assert_eq!(saved, again);
}
