//! The stored form of the index: a journal of documents.
//!
//! A journal is a tag followed by documents in the order in which they
//! were committed. A commit appends the encoding of its batch. Every
//! integer is eight bytes, little endian:
//!
//! ```text
//! tag | { path length | path (UTF-8) | modified | body length | body } *
//! ```
//!
//! Merging the documents of a journal, first to last, into an empty index
//! gives back what the commits made visible.

use crate::document::{doc_models, Document, DocumentModel, Schema};
use crate::index::{merge, Index};
use crate::strings::string_from_utf8;
use vstd::bytes::{
    lemma_auto_spec_u64_to_from_le_bytes, spec_u64_from_le_bytes, spec_u64_to_le_bytes,
    u64_from_le_bytes, u64_to_le_bytes,
};
use vstd::prelude::*;
use vstd::slice::{slice_subrange, slice_to_vec};
use vstd::utf8::{
    decode_utf8, decode_utf8_encode_utf8, encode_utf8, encode_utf8_decode_utf8,
    encode_utf8_valid_utf8, valid_utf8,
};

verus! {

/// First eight bytes of every journal.
pub const JOURNAL_TAG: u64 = 0x5349_4453_4958_0001;

/// Why a journal was rejected.
#[derive(Debug, Clone, Copy, PartialEq, Eq, Structural)]
pub enum JournalError {
    /// The journal is shorter than its tag, or does not start with it.
    BadHeader,
    /// The journal ends in the middle of a document.
    Truncated,
    /// A path is not valid UTF-8.
    InvalidPath,
}

/// The lengths that the format stores fit its eight-byte fields.
pub open spec fn storable(docs: Seq<DocumentModel>) -> bool {
    forall|i: int|
        0 <= i < docs.len() ==> encode_utf8((#[trigger] docs[i]).path).len() <= u64::MAX
            && docs[i].body.len() <= u64::MAX
}

/// One document: path length, path, modification time, body length, body.
pub open spec fn encode_document(doc: DocumentModel) -> Seq<u8> {
    let raw = encode_utf8(doc.path);
    spec_u64_to_le_bytes(raw.len() as u64) + raw + spec_u64_to_le_bytes(doc.modified)
        + spec_u64_to_le_bytes(doc.body.len() as u64) + doc.body
}

/// The documents one after another.
pub open spec fn encode_documents(docs: Seq<DocumentModel>) -> Seq<u8>
    decreases docs.len(),
{
    if docs.len() == 0 {
        Seq::empty()
    } else {
        encode_document(docs[0]) + encode_documents(docs.drop_first())
    }
}

/// A whole journal.
pub open spec fn encode_journal(docs: Seq<DocumentModel>) -> Seq<u8> {
    spec_u64_to_le_bytes(JOURNAL_TAG) + encode_documents(docs)
}

/// Reads documents from `bytes` to the end, after the documents `seen`.
pub open spec fn parse_documents(bytes: Seq<u8>, seen: Seq<DocumentModel>) -> Result<
    Seq<DocumentModel>,
    JournalError,
>
    decreases bytes.len(),
{
    if bytes.len() == 0 {
        Ok(seen)
    } else if bytes.len() < 24 {
        Err(JournalError::Truncated)
    } else {
        let path_len = spec_u64_from_le_bytes(bytes.subrange(0, 8)) as int;
        if bytes.len() - 24 < path_len {
            Err(JournalError::Truncated)
        } else {
            let raw = bytes.subrange(8, 8 + path_len);
            let modified = spec_u64_from_le_bytes(bytes.subrange(8 + path_len, 16 + path_len));
            let body_len = spec_u64_from_le_bytes(bytes.subrange(16 + path_len, 24 + path_len)) as int;
            if !valid_utf8(raw) {
                Err(JournalError::InvalidPath)
            } else if bytes.len() - 24 - path_len < body_len {
                Err(JournalError::Truncated)
            } else {
                parse_documents(
                    bytes.subrange(24 + path_len + body_len, bytes.len() as int),
                    seen.push(
                        DocumentModel {
                            path: decode_utf8(raw),
                            modified,
                            body: bytes.subrange(24 + path_len, 24 + path_len + body_len),
                        },
                    ),
                )
            }
        }
    }
}

/// Reads a whole journal.
pub open spec fn parse_journal(bytes: Seq<u8>) -> Result<Seq<DocumentModel>, JournalError> {
    if bytes.len() < 8 || spec_u64_from_le_bytes(bytes.subrange(0, 8)) != JOURNAL_TAG {
        Err(JournalError::BadHeader)
    } else {
        parse_documents(bytes.subrange(8, bytes.len() as int), Seq::empty())
    }
}

/// Encoding distributes over appending one document.
pub proof fn lemma_encode_documents_push(docs: Seq<DocumentModel>, doc: DocumentModel)
    ensures
        encode_documents(docs.push(doc)) == encode_documents(docs) + encode_document(doc),
    decreases docs.len(),
{
    let pushed = docs.push(doc);
    if docs.len() == 0 {
        assert(encode_documents(pushed.drop_first()) =~= Seq::<u8>::empty());
    } else {
        assert(pushed.drop_first() =~= docs.drop_first().push(doc));
        lemma_encode_documents_push(docs.drop_first(), doc);
    }
}

/// Encoding distributes over joining two lists of documents.
pub proof fn lemma_encode_documents_append(first: Seq<DocumentModel>, second: Seq<DocumentModel>)
    ensures
        encode_documents(first + second) == encode_documents(first) + encode_documents(second),
        encode_journal(first + second) == encode_journal(first) + encode_documents(second),
    decreases second.len(),
{
    if second.len() > 0 {
        let earlier = second.drop_last();
        let last = second.last();
        assert(second =~= earlier.push(last));
        lemma_encode_documents_append(first, earlier);
        lemma_encode_documents_push(first + earlier, last);
        lemma_encode_documents_push(earlier, last);
    }
}

/// Reading the encoding of `docs` yields them, after whatever was seen
/// before.
pub proof fn lemma_parse_documents_of_encoding(docs: Seq<DocumentModel>, seen: Seq<DocumentModel>)
    requires
        storable(docs),
    ensures
        parse_documents(encode_documents(docs), seen) == Ok::<Seq<DocumentModel>, JournalError>(
            seen + docs,
        ),
    decreases docs.len(),
{
    lemma_auto_spec_u64_to_from_le_bytes();
    if docs.len() > 0 {
        let first = docs[0];
        let rest = docs.drop_first();
        let raw = encode_utf8(first.path);
        let bytes = encode_documents(docs);
        let tail = encode_documents(rest);
        let n = raw.len() as int;
        let b = first.body.len() as int;
        assert(bytes.subrange(0, 8) =~= spec_u64_to_le_bytes(raw.len() as u64));
        assert(bytes.subrange(8, 8 + n) =~= raw);
        assert(bytes.subrange(8 + n, 16 + n) =~= spec_u64_to_le_bytes(first.modified));
        assert(bytes.subrange(16 + n, 24 + n) =~= spec_u64_to_le_bytes(first.body.len() as u64));
        assert(bytes.subrange(24 + n, 24 + n + b) =~= first.body);
        assert(bytes.subrange(24 + n + b, bytes.len() as int) =~= tail);
        encode_utf8_valid_utf8(first.path);
        encode_utf8_decode_utf8(first.path);
        let next = seen.push(first);
        assert(next + rest =~= seen + docs);
        assert forall|i: int| 0 <= i < rest.len() implies encode_utf8(
            (#[trigger] rest[i]).path,
        ).len() <= u64::MAX && rest[i].body.len() <= u64::MAX by {}
        lemma_parse_documents_of_encoding(rest, next);
    }
}

/// Whatever is read successfully re-encodes to exactly the bytes read.
pub proof fn lemma_parse_documents_exact(bytes: Seq<u8>, seen: Seq<DocumentModel>)
    requires
        parse_documents(bytes, seen) is Ok,
    ensures
        ({
            let all = parse_documents(bytes, seen)->Ok_0;
            let read = all.subrange(seen.len() as int, all.len() as int);
            &&& all.len() >= seen.len()
            &&& all.subrange(0, seen.len() as int) == seen
            &&& encode_documents(read) == bytes
            &&& storable(read)
        }),
    decreases bytes.len(),
{
    lemma_auto_spec_u64_to_from_le_bytes();
    let all = parse_documents(bytes, seen)->Ok_0;
    let read = all.subrange(seen.len() as int, all.len() as int);
    if bytes.len() > 0 {
        let n = spec_u64_from_le_bytes(bytes.subrange(0, 8)) as int;
        let raw = bytes.subrange(8, 8 + n);
        let modified = spec_u64_from_le_bytes(bytes.subrange(8 + n, 16 + n));
        let b = spec_u64_from_le_bytes(bytes.subrange(16 + n, 24 + n)) as int;
        let body = bytes.subrange(24 + n, 24 + n + b);
        let doc = DocumentModel { path: decode_utf8(raw), modified, body };
        let rest = bytes.subrange(24 + n + b, bytes.len() as int);
        let next = seen.push(doc);
        lemma_parse_documents_exact(rest, next);
        let later = all.subrange(next.len() as int, all.len() as int);
        assert(all.subrange(0, seen.len() as int) =~= seen) by {
            assert forall|i: int| 0 <= i < seen.len() implies all.subrange(0, seen.len() as int)[i]
                == seen[i] by {}
        }
        assert(all[seen.len() as int] == doc) by {
            assert(all.subrange(0, next.len() as int)[seen.len() as int] == next[seen.len() as int]);
        }
        assert(read.drop_first() =~= later);
        decode_utf8_encode_utf8(raw);
        assert(spec_u64_to_le_bytes(raw.len() as u64) == bytes.subrange(0, 8));
        assert(spec_u64_to_le_bytes(modified) == bytes.subrange(8 + n, 16 + n));
        assert(spec_u64_to_le_bytes(body.len() as u64) == bytes.subrange(16 + n, 24 + n));
        assert forall|i: int| 0 <= i < read.len() implies encode_utf8(
            (#[trigger] read[i]).path,
        ).len() <= u64::MAX && read[i].body.len() <= u64::MAX by {
            if i > 0 {
                assert(read[i] == later[i - 1]);
            }
        }
    }
}

/// Round trip: reading a journal gives the documents that were written,
/// in the order written.
pub proof fn lemma_journal_round_trip(docs: Seq<DocumentModel>)
    requires
        storable(docs),
    ensures
        parse_journal(encode_journal(docs)) == Ok::<Seq<DocumentModel>, JournalError>(docs),
{
    lemma_auto_spec_u64_to_from_le_bytes();
    let bytes = encode_journal(docs);
    let tag = spec_u64_to_le_bytes(JOURNAL_TAG);
    assert(bytes.subrange(0, 8) =~= tag);
    assert(bytes.subrange(8, bytes.len() as int) =~= encode_documents(docs));
    lemma_parse_documents_of_encoding(docs, Seq::empty());
}

/// Commits append. A journal that holds `written`, with the encoding of a
/// batch appended to it, reads as `written` followed by the batch.
pub proof fn lemma_journal_append(written: Seq<DocumentModel>, batch: Seq<DocumentModel>)
    requires
        storable(written),
        storable(batch),
    ensures
        parse_journal(encode_journal(written) + encode_documents(batch)) == Ok::<
            Seq<DocumentModel>,
            JournalError,
        >(written + batch),
{
    lemma_encode_documents_append(written, batch);
    assert forall|i: int| 0 <= i < (written + batch).len() implies encode_utf8(
        (#[trigger] (written + batch)[i]).path,
    ).len() <= u64::MAX && (written + batch)[i].body.len() <= u64::MAX by {}
    lemma_journal_round_trip(written + batch);
}

/// No partial reads: a journal that reads is, byte for byte, the encoding
/// of what was read from it.
pub proof fn lemma_parse_journal_exact(bytes: Seq<u8>)
    requires
        parse_journal(bytes) is Ok,
    ensures
        encode_journal(parse_journal(bytes)->Ok_0) == bytes,
        storable(parse_journal(bytes)->Ok_0),
{
    lemma_auto_spec_u64_to_from_le_bytes();
    let docs = parse_journal(bytes)->Ok_0;
    lemma_parse_documents_exact(bytes.subrange(8, bytes.len() as int), Seq::empty());
    assert(docs.subrange(0, docs.len() as int) =~= docs);
}

/// The tag that starts a new journal.
pub fn journal_header() -> (bytes: Vec<u8>)
    ensures
        bytes@ == encode_journal(Seq::empty()),
{
    let bytes = u64_to_le_bytes(JOURNAL_TAG);
    bytes
}

/// Encodes a batch of documents, to be appended to the journal.
pub fn encode_batch(batch: &Vec<Document>) -> (bytes: Vec<u8>)
    ensures
        bytes@ == encode_documents(doc_models(batch@)),
        storable(doc_models(batch@)),
{
    let ghost docs = doc_models(batch@);
    let n: usize = batch.len();
    let mut out: Vec<u8> = Vec::new();
    let mut i: usize = 0;
    while i < n
        invariant
            docs == doc_models(batch@),
            n == batch@.len(),
            i <= n,
            out@ == encode_documents(docs.take(i as int)),
            storable(docs.take(i as int)),
        decreases n - i,
    {
        let doc = &batch[i];
        let raw: &[u8] = doc.path.as_str().as_bytes();
        let mut path_len: Vec<u8> = u64_to_le_bytes(raw.len() as u64);
        let mut path: Vec<u8> = slice_to_vec(raw);
        let mut modified: Vec<u8> = u64_to_le_bytes(doc.modified);
        let mut body_len: Vec<u8> = u64_to_le_bytes(doc.body.len() as u64);
        let mut body: Vec<u8> = slice_to_vec(doc.body.as_slice());
        proof {
            assert(docs.take(i + 1) =~= docs.take(i as int).push(docs[i as int]));
            lemma_encode_documents_push(docs.take(i as int), docs[i as int]);
        }
        out.append(&mut path_len);
        out.append(&mut path);
        out.append(&mut modified);
        out.append(&mut body_len);
        out.append(&mut body);
        i = i + 1;
    }
    proof {
        assert(docs.take(n as int) =~= docs);
    }
    out
}

/// Reads a journal back into its documents. Anything that is not exactly
/// a tag followed by whole documents is rejected with the first defect
/// met, reading front to back.
pub fn decode_journal(bytes: &[u8]) -> (read: Result<Vec<Document>, JournalError>)
    ensures
        match parse_journal(bytes@) {
            Ok(docs) => read is Ok && doc_models(read->Ok_0@) == docs,
            Err(e) => read is Err && read->Err_0 == e,
        },
        read is Ok ==> encode_journal(doc_models(read->Ok_0@)) == bytes@,
        forall|docs: Seq<DocumentModel>|
            bytes@ == #[trigger] encode_journal(docs) && storable(docs) ==> read is Ok
                && doc_models(read->Ok_0@) == docs,
{
    proof {
        assert forall|docs: Seq<DocumentModel>|
            bytes@ == #[trigger] encode_journal(docs) && storable(docs) implies parse_journal(
            bytes@,
        ) == Ok::<Seq<DocumentModel>, JournalError>(docs) by {
            lemma_journal_round_trip(docs);
        }
    }
    let len: usize = bytes.len();
    if len < 8 {
        return Err(JournalError::BadHeader);
    }
    let tag: u64 = u64_from_le_bytes(slice_subrange(bytes, 0, 8));
    if tag != JOURNAL_TAG {
        return Err(JournalError::BadHeader);
    }
    let mut docs: Vec<Document> = Vec::new();
    let mut pos: usize = 8;
    proof {
        assert(doc_models(docs@) =~= Seq::<DocumentModel>::empty());
    }
    while pos < len
        invariant
            forall|docs: Seq<DocumentModel>|
                bytes@ == #[trigger] encode_journal(docs) && storable(docs) ==> parse_journal(bytes@)
                    == Ok::<Seq<DocumentModel>, JournalError>(docs),
            len == bytes@.len(),
            8 <= pos <= len,
            parse_journal(bytes@) == parse_documents(
                bytes@.subrange(pos as int, len as int),
                doc_models(docs@),
            ),
        decreases len - pos,
    {
        let ghost rest = bytes@.subrange(pos as int, len as int);
        let ghost seen = doc_models(docs@);
        let avail: usize = len - pos;
        if avail < 24 {
            return Err(JournalError::Truncated);
        }
        let path_len: u64 = u64_from_le_bytes(slice_subrange(bytes, pos, pos + 8));
        proof {
            assert(rest.subrange(0, 8) =~= bytes@.subrange(pos as int, pos + 8));
        }
        if ((avail - 24) as u64) < path_len {
            return Err(JournalError::Truncated);
        }
        let n: usize = path_len as usize;
        let raw: Vec<u8> = slice_to_vec(slice_subrange(bytes, pos + 8, pos + 8 + n));
        let modified: u64 = u64_from_le_bytes(slice_subrange(bytes, pos + 8 + n, pos + 16 + n));
        let body_len: u64 = u64_from_le_bytes(slice_subrange(bytes, pos + 16 + n, pos + 24 + n));
        proof {
            assert(rest.subrange(8, 8 + n) =~= bytes@.subrange(pos + 8, pos + 8 + n));
            assert(rest.subrange(8 + n, 16 + n) =~= bytes@.subrange(pos + 8 + n, pos + 16 + n));
            assert(rest.subrange(16 + n, 24 + n) =~= bytes@.subrange(pos + 16 + n, pos + 24 + n));
        }
        let path: String = match string_from_utf8(raw) {
            None => {
                return Err(JournalError::InvalidPath);
            },
            Some(path) => path,
        };
        if ((avail - 24 - n) as u64) < body_len {
            return Err(JournalError::Truncated);
        }
        let b: usize = body_len as usize;
        let body: Vec<u8> = slice_to_vec(slice_subrange(bytes, pos + 24 + n, pos + 24 + n + b));
        proof {
            assert(rest.subrange(24 + n, 24 + n + b) =~= bytes@.subrange(
                pos + 24 + n,
                pos + 24 + n + b,
            ));
            assert(rest.subrange(24 + n + b, rest.len() as int) =~= bytes@.subrange(
                pos + 24 + n + b,
                len as int,
            ));
        }
        let doc = Document { path, modified, body };
        docs.push(doc);
        proof {
            assert(doc_models(docs@) =~= seen.push(doc@));
        }
        pos = pos + 24 + n + b;
    }
    proof {
        lemma_parse_journal_exact(bytes@);
    }
    Ok(docs)
}

impl Index {
    /// Rebuilds an index from the documents of its journal: they are
    /// merged, first to last, into an empty index and committed.
    pub fn restore(schema: Schema, docs: Vec<Document>) -> (index: Self)
        ensures
            index.wf(),
            index.spec_schema() == schema,
            index@.committed == merge(Seq::empty(), doc_models(docs@)),
            index@.pending.len() == 0,
            !index@.broken,
    {
        let mut index = Index::new(schema);
        let ghost all = doc_models(docs@);
        let n: usize = docs.len();
        for doc in it: docs
            invariant
                index.wf(),
                index.spec_schema() == schema,
                !index@.broken,
                index@.committed == Seq::<DocumentModel>::empty(),
                n == all.len(),
                doc_models(it.seq()) == all,
                index@.pending == all.take(it.index() as int),
        {
            let _ = index.add(doc);
        }
        proof {
            assert(all.take(n as int) =~= all);
        }
        let _ = index.commit(true);
        index
    }
}

} // verus!
