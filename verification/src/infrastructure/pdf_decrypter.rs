//! The byte boundary before parsing: whether an upload is a loadable PDF, whether it is
//! locked, and unlocking it with the user's password.

use vstd::prelude::*;
use crate::domain::entities::{CheckError, CheckerResult};
use crate::infrastructure::pdf_document::{
    document_is_encrypted, error_text, load_document, password_opens, pdf_encrypted, pdf_loads, pdf_password_opens,
    pdf_saved, save_document,
};

verus! {

/// A copy of a byte slice.
fn copy_bytes(data: &[u8]) -> (r: Vec<u8>)
    ensures
        r@ == data@,
{
    let mut out: Vec<u8> = Vec::new();
    let mut i: usize = 0;
    while i < data.len()
        invariant
            i <= data.len(),
            out@ == data@.take(i as int),
        decreases data.len() - i,
    {
        out.push(data[i]);
        proof {
            assert(data@.take(i + 1) =~= data@.take(i as int).push(data@[i as int]));
        }
        i = i + 1;
    }
    proof {
        assert(data@.take(data@.len() as int) =~= data@);
    }
    out
}

/// `c` carries `data` and says locked exactly when `locked`.
pub open spec fn carries(c: CheckerResult, data: Seq<u8>, locked: bool) -> bool {
    match c {
        CheckerResult::LockedPdf(b) => locked && b@ == data,
        CheckerResult::UnlockedPdf(b) => !locked && b@ == data,
    }
}

pub open spec fn is_corrupted<T>(r: Result<T, CheckError>) -> bool {
    match r {
        Err(CheckError::CorruptedPdf(_)) => true,
        _ => false,
    }
}

/// What a loadable upload is: locked when its document is encrypted, else unlocked; the
/// bytes are carried unchanged.
pub fn classify_upload(data: &[u8], encrypted: bool) -> (r: CheckerResult)
    ensures
        carries(r, data@, encrypted),
{
    if encrypted {
        CheckerResult::LockedPdf(copy_bytes(data))
    } else {
        CheckerResult::UnlockedPdf(copy_bytes(data))
    }
}

/// Checks uploaded PDFs and unlocks locked ones.
pub struct PdfEncryptionChecker;

impl PdfEncryptionChecker {
    pub fn new() -> (r: Self) {
        PdfEncryptionChecker
    }

    /// Whether an upload is usable: a file lopdf cannot load is corrupted; otherwise it
    /// comes back, unchanged, as locked when its document is encrypted and as unlocked when
    /// it is not. lopdf's parser is not shown never to panic on malformed files.
    pub fn check_pdf(&self, pdf_upload: &[u8]) -> (r: Result<CheckerResult, CheckError>)
        ensures
            !pdf_loads(pdf_upload@) ==> is_corrupted(r),
            pdf_loads(pdf_upload@) ==> (r matches Ok(c) && carries(c, pdf_upload@, pdf_encrypted(pdf_upload@))),
    {
        let pdf = match load_document(pdf_upload) {
            Ok(doc) => doc,
            Err(e) => {
                return Err(CheckError::CorruptedPdf(error_text(&e)));
            },
        };
        let encrypted = document_is_encrypted(&pdf);
        Ok(classify_upload(pdf_upload, encrypted))
    }

    /// Unlocks an upload with a password and returns the document's bytes as lopdf saves
    /// them: a file lopdf cannot load (or save) is corrupted, and a password that does not
    /// open an encrypted document is wrong. lopdf's parser and its password check (on a
    /// malformed encryption dictionary) are not shown never to panic.
    pub fn decrypt_pdf(&self, pdf_bytes: &[u8], pass: &str) -> (r: Result<Vec<u8>, CheckError>)
        ensures
            !pdf_loads(pdf_bytes@) ==> is_corrupted(r),
            pdf_loads(pdf_bytes@) && pdf_encrypted(pdf_bytes@) && !pdf_password_opens(pdf_bytes@, pass@)
                ==> r matches Err(CheckError::WrongPassword),
            pdf_loads(pdf_bytes@) && (!pdf_encrypted(pdf_bytes@) || pdf_password_opens(pdf_bytes@, pass@))
                ==> match pdf_saved(pdf_bytes@) {
                    Some(bytes) => r matches Ok(v) && v@ == bytes,
                    None => is_corrupted(r),
                },
    {
        let pdf = match load_document(pdf_bytes) {
            Ok(doc) => doc,
            Err(e) => {
                return Err(CheckError::CorruptedPdf(error_text(&e)));
            },
        };
        if document_is_encrypted(&pdf) {
            if !password_opens(&pdf, pass) {
                return Err(CheckError::WrongPassword);
            }
        }
        match save_document(pdf) {
            Ok(bytes) => Ok(bytes),
            Err(text) => Err(CheckError::CorruptedPdf(text)),
        }
    }
}

} // verus!
