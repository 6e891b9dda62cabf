use tax_engine::domain::entities::{CheckError, CheckerResult, TaxEntity};
use tax_engine::interface::api::upload::{entity_from_text, needs_password, sort_upload, CheckedUploads, PdfFile};

fn file(id: &str) -> PdfFile {
    PdfFile { id: id.to_string(), name: format!("{}.pdf", id), data: vec![1, 2, 3] }
}

#[test]
fn uploads_are_sorted_by_their_check() {
    let mut c = CheckedUploads::new();
    sort_upload(&mut c, file("a"), Ok(CheckerResult::UnlockedPdf(vec![9])));
    assert!(!needs_password(&c));
    sort_upload(&mut c, file("b"), Ok(CheckerResult::LockedPdf(vec![8])));
    sort_upload(&mut c, file("c"), Err(CheckError::CorruptedPdf("bad xref".to_string())));
    assert_eq!(c.unlocked.len(), 1);
    assert_eq!(c.unlocked[0].data, vec![9]);
    assert_eq!(c.locked.len(), 1);
    assert_eq!(c.locked[0].name, "b.pdf");
    assert_eq!(c.corrupted[0].reason.as_deref(), Some("bad xref"));
    assert!(needs_password(&c));
}

#[test]
fn payer_kind_comes_from_the_metadata() {
    assert_eq!(entity_from_text("LLC"), TaxEntity::LLC);
    assert_eq!(entity_from_text("llc"), TaxEntity::LLC);
    assert_eq!(entity_from_text("pit"), TaxEntity::PIT);
    assert_eq!(entity_from_text("company"), TaxEntity::PIT);
}
