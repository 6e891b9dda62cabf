//! The lopdf calls the upload checks make, each tied to the bytes a document was loaded
//! from.

use vstd::prelude::*;

verus! {

/// Declares lopdf's document type, which the checks load and save.
#[verifier::external_type_specification]
#[verifier::external_body]
pub struct ExDocument(lopdf::Document);

/// Declares lopdf's error type.
#[verifier::external_type_specification]
#[verifier::external_body]
pub struct ExLopdfError(lopdf::Error);

/// Whether lopdf loads the bytes as a PDF document.
pub uninterp spec fn pdf_loads(data: Seq<u8>) -> bool;

/// Whether the document lopdf loads from the bytes carries an encryption dictionary.
pub uninterp spec fn pdf_encrypted(data: Seq<u8>) -> bool;

/// Whether the password is the owner's or the user's password of the encrypted document
/// lopdf loads from the bytes.
pub uninterp spec fn pdf_password_opens(data: Seq<u8>, password: Seq<char>) -> bool;

/// The bytes lopdf writes when it saves the document it loaded from the bytes, or `None`
/// when saving fails.
pub uninterp spec fn pdf_saved(data: Seq<u8>) -> Option<Seq<u8>>;

/// A document lopdf loaded, together with the bytes it was loaded from. The fields are
/// private to this module, where only `load_document` builds one, so `source` is always
/// the input of the load that made `doc`.
pub struct LoadedPdf {
    doc: lopdf::Document,
    source: Ghost<Seq<u8>>,
}

impl LoadedPdf {
    /// The bytes the document was loaded from.
    pub closed spec fn source(&self) -> Seq<u8> {
        self.source@
    }
}

/// `lopdf::Document::load_mem`: parses the bytes as a PDF (decrypting it when the empty
/// password opens it); an error when they are not one. The contract names whether it
/// succeeds and records the bytes; lopdf's parser is not shown never to panic, and the
/// contract does not state on which malformed inputs it might.
#[verifier::external_body]
pub(crate) fn load_document(data: &[u8]) -> (r: Result<LoadedPdf, lopdf::Error>)
    ensures
        r is Ok <==> pdf_loads(data@),
        r matches Ok(p) ==> p.source() == data@,
{
    match lopdf::Document::load_mem(data) {
        Ok(doc) => Ok(LoadedPdf { doc, source: Ghost(data@) }),
        Err(e) => Err(e),
    }
}

/// `lopdf::Document::is_encrypted`: whether the document's trailer still carries an
/// encryption dictionary, a function of the bytes it was loaded from.
#[verifier::external_body]
pub(crate) fn document_is_encrypted(pdf: &LoadedPdf) -> (r: bool)
    ensures
        r == pdf_encrypted(pdf.source()),
{
    pdf.doc.is_encrypted()
}

/// `lopdf::Document::authenticate_password`: whether the password is the owner's or the
/// user's password of the document; it reads the document and changes nothing. That the
/// check never panics on a malformed encryption dictionary is not shown.
#[verifier::external_body]
pub(crate) fn password_opens(pdf: &LoadedPdf, password: &str) -> (r: bool)
    ensures
        r == pdf_password_opens(pdf.source(), password@),
{
    pdf.doc.authenticate_password(password).is_ok()
}

/// `lopdf::Document::save_to` into a byte buffer: the serialised document, or the text
/// of the I/O error.
#[verifier::external_body]
pub(crate) fn save_document(pdf: LoadedPdf) -> (r: Result<Vec<u8>, String>)
    ensures
        match pdf_saved(pdf.source()) {
            Some(bytes) => r matches Ok(v) && v@ == bytes,
            None => r is Err,
        },
{
    let mut doc = pdf.doc;
    let mut out: Vec<u8> = Vec::new();
    match doc.save_to(&mut out) {
        Ok(()) => Ok(out),
        Err(e) => Err(e.to_string()),
    }
}

/// The text of a lopdf error (its `Display`).
#[verifier::external_body]
pub(crate) fn error_text(e: &lopdf::Error) -> (r: String) {
    e.to_string()
}

} // verus!
