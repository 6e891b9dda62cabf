//! The upload check's decisions: each uploaded file is sorted by what the PDF check
//! says of it, and the batch asks for passwords while any file is locked or corrupted.

use vstd::prelude::*;
use crate::domain::entities::{CheckError, CheckerResult, TaxEntity};
use crate::text::{ascii_lower, chars_of, chars_are, to_ascii_lower};

verus! {

/// An uploaded file.
#[derive(Debug, Clone)]
pub struct PdfFile {
    pub id: String,
    pub name: String,
    pub data: Vec<u8>,
}

/// A file that cannot be processed yet, with the reason when it is corrupted.
#[derive(Debug, Clone)]
pub struct FileNote {
    pub id: String,
    pub name: String,
    pub reason: Option<String>,
}

/// The files of an upload sorted by their check.
#[derive(Debug)]
pub struct CheckedUploads {
    pub unlocked: Vec<PdfFile>,
    pub locked: Vec<FileNote>,
    pub corrupted: Vec<FileNote>,
}

impl CheckedUploads {
    pub fn new() -> (r: Self)
        ensures
            r.unlocked@.len() == 0,
            r.locked@.len() == 0,
            r.corrupted@.len() == 0,
    {
        CheckedUploads { unlocked: Vec::new(), locked: Vec::new(), corrupted: Vec::new() }
    }
}

/// Files `file` by its check: an unlocked PDF is kept with the bytes the check carried;
/// a locked one, or one refused for a wrong password, waits for a password; a corrupted
/// one is noted with its reason.
pub fn sort_upload(acc: &mut CheckedUploads, file: PdfFile, check: Result<CheckerResult, CheckError>)
    ensures
        match check {
            Ok(CheckerResult::UnlockedPdf(b)) => {
                &&& final(acc).unlocked@ == old(acc).unlocked@.push(PdfFile { data: b, ..file })
                &&& final(acc).locked@ == old(acc).locked@
                &&& final(acc).corrupted@ == old(acc).corrupted@
            },
            Ok(CheckerResult::LockedPdf(_)) | Err(CheckError::WrongPassword) => {
                &&& final(acc).unlocked@ == old(acc).unlocked@
                &&& final(acc).locked@ == old(acc).locked@.push(FileNote { id: file.id, name: file.name, reason: None })
                &&& final(acc).corrupted@ == old(acc).corrupted@
            },
            Err(CheckError::CorruptedPdf(reason)) => {
                &&& final(acc).unlocked@ == old(acc).unlocked@
                &&& final(acc).locked@ == old(acc).locked@
                &&& final(acc).corrupted@ == old(acc).corrupted@.push(
                    FileNote { id: file.id, name: file.name, reason: Some(reason) },
                )
            },
        },
{
    match check {
        Ok(CheckerResult::UnlockedPdf(b)) => {
            acc.unlocked.push(PdfFile { data: b, ..file });
        },
        Ok(CheckerResult::LockedPdf(_)) | Err(CheckError::WrongPassword) => {
            acc.locked.push(FileNote { id: file.id, name: file.name, reason: None });
        },
        Err(CheckError::CorruptedPdf(reason)) => {
            acc.corrupted.push(FileNote { id: file.id, name: file.name, reason: Some(reason) });
        },
    }
}

/// The batch needs passwords (or new files) while any file is locked or corrupted.
pub fn needs_password(c: &CheckedUploads) -> (r: bool)
    ensures
        r == (c.locked@.len() > 0 || c.corrupted@.len() > 0),
{
    c.locked.len() > 0 || c.corrupted.len() > 0
}

/// The kind of payer named in an upload's metadata: `llc` in any ASCII case is a
/// company, anything else a person.
pub fn entity_from_text(text: &str) -> (r: TaxEntity)
    ensures
        r == (if ascii_lower(text@) == "llc"@ {
            TaxEntity::LLC
        } else {
            TaxEntity::PIT
        }),
{
    if chars_are(&to_ascii_lower(&chars_of(text)), "llc") {
        TaxEntity::LLC
    } else {
        TaxEntity::PIT
    }
}

} // verus!
