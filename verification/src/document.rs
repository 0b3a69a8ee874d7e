//! Documents: what the index stores for one file, and how a document is
//! made from a file's content.

use crate::file_collector::{DescriptorModel, Fault, FileDescriptor};
use std::sync::Arc;
use vstd::prelude::*;

verus! {

/// The process-wide schema. It is fixed when the document indexer is
/// built and shared, read-only, with every searcher.
#[derive(Debug, Clone, Copy, PartialEq, Eq, Structural)]
pub struct Schema {
    /// Longest body, in bytes, that a document may carry.
    pub max_body_len: usize,
    /// Whether terms match with regard to ASCII letter case.
    pub case_sensitive: bool,
}

/// One unit of indexing work: a discovered file.
#[derive(Debug, Clone, PartialEq, Eq)]
pub struct IndexRequest(pub FileDescriptor);

impl View for IndexRequest {
    type V = DescriptorModel;

    open spec fn view(&self) -> DescriptorModel {
        self.0@
    }
}

/// The record that the index holds for one file.
#[derive(Debug, Clone, PartialEq, Eq)]
pub struct Document {
    pub path: String,
    pub modified: u64,
    pub body: Vec<u8>,
}

/// A document as plain values.
pub struct DocumentModel {
    pub path: Seq<char>,
    pub modified: u64,
    pub body: Seq<u8>,
}

impl View for Document {
    type V = DocumentModel;

    open spec fn view(&self) -> DocumentModel {
        DocumentModel { path: self.path@, modified: self.modified, body: self.body@ }
    }
}

/// The views of a list of documents.
pub open spec fn doc_models(docs: Seq<Document>) -> Seq<DocumentModel> {
    Seq::new(docs.len(), |i: int| docs[i]@)
}

/// The views of a list of shared documents.
pub open spec fn shared_models(docs: Seq<Arc<Document>>) -> Seq<DocumentModel> {
    Seq::new(docs.len(), |i: int| docs[i]@)
}

/// The documents that readers see: an immutable list of immutable
/// documents. Taking a snapshot copies one pointer.
pub type Snapshot = Arc<Vec<Arc<Document>>>;

/// Why no document could be made from a file.
#[derive(Debug, Clone, Copy, PartialEq, Eq, Structural)]
pub enum ExtractionError {
    /// The content could not be read.
    Unreadable(Fault),
    /// The content is longer than the schema allows.
    TooLarge,
    /// The content holds a zero byte and is taken for binary data.
    Binary,
}

/// The content holds a zero byte.
pub open spec fn is_binary(content: Seq<u8>) -> bool {
    exists|i: int| 0 <= i < content.len() && #[trigger] content[i] == 0
}

/// What extraction makes of a request and the outcome of reading its file.
pub open spec fn extraction(
    schema: Schema,
    request: DescriptorModel,
    content: Result<Seq<u8>, Fault>,
) -> Result<DocumentModel, ExtractionError> {
    match content {
        Err(fault) => Err(ExtractionError::Unreadable(fault)),
        Ok(bytes) => if bytes.len() > schema.max_body_len {
            Err(ExtractionError::TooLarge)
        } else if is_binary(bytes) {
            Err(ExtractionError::Binary)
        } else {
            Ok(DocumentModel { path: request.path, modified: request.modified, body: bytes })
        },
    }
}

/// The outcome of reading a file, as plain values.
pub open spec fn content_model(content: Result<Vec<u8>, Fault>) -> Result<Seq<u8>, Fault> {
    match content {
        Ok(bytes) => Ok(bytes@),
        Err(fault) => Err(fault),
    }
}

/// The outcome of an extraction, as plain values.
pub open spec fn extracted_model(outcome: Result<Document, ExtractionError>) -> Result<
    DocumentModel,
    ExtractionError,
> {
    match outcome {
        Ok(doc) => Ok(doc@),
        Err(e) => Err(e),
    }
}

/// Whether `content` holds a zero byte.
pub fn has_zero_byte(content: &[u8]) -> (r: bool)
    ensures
        r == is_binary(content@),
{
    let mut i: usize = 0;
    while i < content.len()
        invariant
            i <= content@.len(),
            forall|k: int| 0 <= k < i ==> #[trigger] content@[k] != 0,
        decreases content@.len() - i,
    {
        if content[i] == 0 {
            return true;
        }
        i = i + 1;
    }
    false
}

/// Builds the document for `request` from the outcome of reading its
/// file. A request yields one whole document or none.
pub fn extract(schema: &Schema, request: IndexRequest, content: Result<Vec<u8>, Fault>) -> (outcome:
    Result<Document, ExtractionError>)
    ensures
        extracted_model(outcome) == extraction(*schema, request@, content_model(content)),
{
    match content {
        Err(fault) => Err(ExtractionError::Unreadable(fault)),
        Ok(bytes) => {
            if bytes.len() > schema.max_body_len {
                Err(ExtractionError::TooLarge)
            } else if has_zero_byte(bytes.as_slice()) {
                Err(ExtractionError::Binary)
            } else {
                let file = request.0;
                Ok(Document { path: file.path, modified: file.modified, body: bytes })
            }
        },
    }
}

} // verus!
