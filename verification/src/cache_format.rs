//! The persisted form of the change cache.
//!
//! A store is a tag, a record count, and then the records in first-seen
//! order. Every integer is eight bytes, little endian:
//!
//! ```text
//! tag | count | { path length | path (UTF-8) | timestamp } * count
//! ```
//!
//! Loading is strict: anything that is not exactly the encoding of a list
//! of records with distinct paths is rejected, and nothing is loaded in
//! part.

use crate::change_cache::{distinct_paths, tracks, ChangeCache, Entry};
use crate::strings::string_from_utf8;
use vstd::bytes::{
    lemma_auto_spec_u64_to_from_le_bytes, spec_u64_from_le_bytes, spec_u64_to_le_bytes,
    u64_from_le_bytes, u64_to_le_bytes,
};
use vstd::prelude::*;
use vstd::slice::{slice_subrange, slice_to_vec};
use vstd::utf8::{
    decode_utf8, decode_utf8_encode_utf8, encode_utf8, encode_utf8_decode_utf8,
    encode_utf8_valid_utf8, valid_utf8,
};

verus! {

/// First eight bytes of every store.
pub const FORMAT_TAG: u64 = 0x5349_4453_4343_0001;

/// Why a persisted store was rejected.
#[derive(Debug, Clone, Copy, PartialEq, Eq, Structural)]
pub enum LoadError {
    /// The store is shorter than its header, or does not start with the tag.
    BadHeader,
    /// The store ends in the middle of a record.
    Truncated,
    /// A path is not valid UTF-8.
    InvalidPath,
    /// Two records are about the same path.
    DuplicatePath,
    /// Bytes follow the last record.
    TrailingBytes,
}

/// The lengths that the format stores fit its eight-byte fields.
pub open spec fn encodable(entries: Seq<Entry>) -> bool {
    &&& entries.len() <= u64::MAX
    &&& forall|i: int|
        0 <= i < entries.len() ==> encode_utf8((#[trigger] entries[i]).0).len() <= u64::MAX
}

/// One record: path length, path, timestamp.
pub open spec fn encode_entry(entry: Entry) -> Seq<u8> {
    let raw = encode_utf8(entry.0);
    spec_u64_to_le_bytes(raw.len() as u64) + raw + spec_u64_to_le_bytes(entry.1)
}

/// The records one after another.
pub open spec fn encode_entries(entries: Seq<Entry>) -> Seq<u8>
    decreases entries.len(),
{
    if entries.len() == 0 {
        Seq::empty()
    } else {
        encode_entry(entries[0]) + encode_entries(entries.drop_first())
    }
}

/// A whole store.
pub open spec fn encode_cache(entries: Seq<Entry>) -> Seq<u8> {
    spec_u64_to_le_bytes(FORMAT_TAG) + spec_u64_to_le_bytes(entries.len() as u64) + encode_entries(
        entries,
    )
}

/// Reads `remaining` records from `bytes`, after the records `seen`.
pub open spec fn parse_entries(bytes: Seq<u8>, remaining: nat, seen: Seq<Entry>) -> Result<
    Seq<Entry>,
    LoadError,
>
    decreases remaining,
{
    if remaining == 0 {
        if bytes.len() == 0 {
            Ok(seen)
        } else {
            Err(LoadError::TrailingBytes)
        }
    } else if bytes.len() < 16 {
        Err(LoadError::Truncated)
    } else {
        let path_len = spec_u64_from_le_bytes(bytes.subrange(0, 8)) as int;
        if bytes.len() - 16 < path_len {
            Err(LoadError::Truncated)
        } else {
            let raw = bytes.subrange(8, 8 + path_len);
            if !valid_utf8(raw) {
                Err(LoadError::InvalidPath)
            } else if tracks(seen, decode_utf8(raw)) {
                Err(LoadError::DuplicatePath)
            } else {
                let timestamp = spec_u64_from_le_bytes(
                    bytes.subrange(8 + path_len, 16 + path_len),
                );
                parse_entries(
                    bytes.subrange(16 + path_len, bytes.len() as int),
                    (remaining - 1) as nat,
                    seen.push((decode_utf8(raw), timestamp)),
                )
            }
        }
    }
}

/// Reads a whole store.
pub open spec fn parse_cache(bytes: Seq<u8>) -> Result<Seq<Entry>, LoadError> {
    if bytes.len() < 16 || spec_u64_from_le_bytes(bytes.subrange(0, 8)) != FORMAT_TAG {
        Err(LoadError::BadHeader)
    } else {
        parse_entries(
            bytes.subrange(16, bytes.len() as int),
            spec_u64_from_le_bytes(bytes.subrange(8, 16)) as nat,
            Seq::empty(),
        )
    }
}

/// Encoding distributes over appending one record.
pub proof fn lemma_encode_entries_push(entries: Seq<Entry>, entry: Entry)
    ensures
        encode_entries(entries.push(entry)) == encode_entries(entries) + encode_entry(entry),
    decreases entries.len(),
{
    let pushed = entries.push(entry);
    if entries.len() == 0 {
        assert(encode_entries(pushed.drop_first()) =~= Seq::<u8>::empty());
    } else {
        assert(pushed.drop_first() =~= entries.drop_first().push(entry));
        lemma_encode_entries_push(entries.drop_first(), entry);
    }
}

/// Reading the encoding of `entries` yields them, after whatever was seen
/// before.
pub proof fn lemma_parse_entries_of_encoding(entries: Seq<Entry>, seen: Seq<Entry>)
    requires
        encodable(entries),
        distinct_paths(seen + entries),
    ensures
        parse_entries(encode_entries(entries), entries.len(), seen) == Ok::<
            Seq<Entry>,
            LoadError,
        >(seen + entries),
    decreases entries.len(),
{
    lemma_auto_spec_u64_to_from_le_bytes();
    if entries.len() > 0 {
        let first = entries[0];
        let rest = entries.drop_first();
        let raw = encode_utf8(first.0);
        let bytes = encode_entries(entries);
        let tail = encode_entries(rest);
        let n = raw.len() as int;
        assert(bytes.subrange(0, 8) =~= spec_u64_to_le_bytes(raw.len() as u64));
        assert(bytes.subrange(8, 8 + n) =~= raw);
        assert(bytes.subrange(8 + n, 16 + n) =~= spec_u64_to_le_bytes(first.1));
        assert(bytes.subrange(16 + n, bytes.len() as int) =~= tail);
        encode_utf8_valid_utf8(first.0);
        encode_utf8_decode_utf8(first.0);
        let whole = seen + entries;
        assert(whole[seen.len() as int] == first);
        if tracks(seen, first.0) {
            let k = choose|k: int| 0 <= k < seen.len() && (#[trigger] seen[k]).0 == first.0;
            assert(whole[k] == seen[k]);
        }
        let next = seen.push(first);
        assert(next + rest =~= whole);
        assert forall|i: int| 0 <= i < rest.len() implies encode_utf8((#[trigger] rest[i]).0).len()
            <= u64::MAX by {}
        lemma_parse_entries_of_encoding(rest, next);
    }
}

/// Whatever is read successfully re-encodes to exactly the bytes read.
pub proof fn lemma_parse_entries_exact(bytes: Seq<u8>, remaining: nat, seen: Seq<Entry>)
    requires
        distinct_paths(seen),
        parse_entries(bytes, remaining, seen) is Ok,
    ensures
        ({
            let all = parse_entries(bytes, remaining, seen)->Ok_0;
            let read = all.subrange(seen.len() as int, all.len() as int);
            &&& all.len() == seen.len() + remaining
            &&& all.subrange(0, seen.len() as int) == seen
            &&& distinct_paths(all)
            &&& encode_entries(read) == bytes
            &&& forall|i: int|
                0 <= i < read.len() ==> encode_utf8((#[trigger] read[i]).0).len() <= u64::MAX
        }),
    decreases remaining,
{
    lemma_auto_spec_u64_to_from_le_bytes();
    let all = parse_entries(bytes, remaining, seen)->Ok_0;
    let read = all.subrange(seen.len() as int, all.len() as int);
    if remaining > 0 {
        let n = spec_u64_from_le_bytes(bytes.subrange(0, 8)) as int;
        let raw = bytes.subrange(8, 8 + n);
        let path = decode_utf8(raw);
        let timestamp = spec_u64_from_le_bytes(bytes.subrange(8 + n, 16 + n));
        let rest = bytes.subrange(16 + n, bytes.len() as int);
        let next = seen.push((path, timestamp));
        assert forall|a: int, b: int| 0 <= a < b < next.len() implies (#[trigger] next[a]).0 != (
        #[trigger] next[b]).0 by {}
        lemma_parse_entries_exact(rest, (remaining - 1) as nat, next);
        let later = all.subrange(next.len() as int, all.len() as int);
        assert(all.subrange(0, seen.len() as int) =~= seen) by {
            assert forall|i: int| 0 <= i < seen.len() implies all.subrange(0, seen.len() as int)[i]
                == seen[i] by {}
        }
        assert(all[seen.len() as int] == (path, timestamp)) by {
            assert(all.subrange(0, next.len() as int)[seen.len() as int] == next[seen.len() as int]);
        }
        assert(read.drop_first() =~= later);
        decode_utf8_encode_utf8(raw);
        assert(spec_u64_to_le_bytes(raw.len() as u64) == bytes.subrange(0, 8));
        assert(spec_u64_to_le_bytes(timestamp) == bytes.subrange(8 + n, 16 + n));
        assert forall|i: int| 0 <= i < read.len() implies encode_utf8((#[trigger] read[i]).0).len()
            <= u64::MAX by {
            if i > 0 {
                assert(read[i] == later[i - 1]);
            }
        }
    }
}

/// Round trip: loading what was persisted gives the same records back, in
/// the same order.
pub proof fn lemma_round_trip(entries: Seq<Entry>)
    requires
        encodable(entries),
        distinct_paths(entries),
    ensures
        parse_cache(encode_cache(entries)) == Ok::<Seq<Entry>, LoadError>(entries),
{
    lemma_auto_spec_u64_to_from_le_bytes();
    let bytes = encode_cache(entries);
    let tag = spec_u64_to_le_bytes(FORMAT_TAG);
    let count = spec_u64_to_le_bytes(entries.len() as u64);
    assert(bytes.subrange(0, 8) =~= tag);
    assert(bytes.subrange(8, 16) =~= count);
    assert(bytes.subrange(16, bytes.len() as int) =~= encode_entries(entries));
    lemma_parse_entries_of_encoding(entries, Seq::empty());
}

/// No partial loads: a store that loads is, byte for byte, the encoding of
/// what was loaded from it, and what was loaded has distinct paths.
pub proof fn lemma_parse_exact(bytes: Seq<u8>)
    requires
        parse_cache(bytes) is Ok,
    ensures
        encode_cache(parse_cache(bytes)->Ok_0) == bytes,
        distinct_paths(parse_cache(bytes)->Ok_0),
        encodable(parse_cache(bytes)->Ok_0),
{
    lemma_auto_spec_u64_to_from_le_bytes();
    let entries = parse_cache(bytes)->Ok_0;
    let body = bytes.subrange(16, bytes.len() as int);
    let count = spec_u64_from_le_bytes(bytes.subrange(8, 16));
    lemma_parse_entries_exact(body, count as nat, Seq::empty());
    assert(entries.subrange(0, entries.len() as int) =~= entries);
}

impl ChangeCache {
    /// Serializes the cache. The bytes are the encoding of the records in
    /// first-seen order, and loading them gives the same records back.
    pub fn persist(&self) -> (bytes: Vec<u8>)
        requires
            self.wf(),
        ensures
            bytes@ == encode_cache(self.entries()),
            parse_cache(bytes@) == Ok::<Seq<Entry>, LoadError>(self.entries()),
    {
        let ghost entries = self.entries();
        let n: usize = self.len();
        let mut out: Vec<u8> = u64_to_le_bytes(FORMAT_TAG);
        let mut count: Vec<u8> = u64_to_le_bytes(n as u64);
        out.append(&mut count);
        let mut i: usize = 0;
        while i < n
            invariant
                self.wf(),
                entries == self.entries(),
                n == entries.len(),
                i <= n,
                out@ == spec_u64_to_le_bytes(FORMAT_TAG) + spec_u64_to_le_bytes(
                    entries.len() as u64,
                ) + encode_entries(entries.take(i as int)),
                forall|j: int| 0 <= j < i ==> encode_utf8((#[trigger] entries[j]).0).len() <= u64::MAX,
            decreases n - i,
        {
            let record = self.record_at(i);
            let raw: &[u8] = record.path.as_str().as_bytes();
            let mut length: Vec<u8> = u64_to_le_bytes(raw.len() as u64);
            let mut path: Vec<u8> = slice_to_vec(raw);
            let mut timestamp: Vec<u8> = u64_to_le_bytes(record.last_modified);
            proof {
                assert(entries.take(i + 1) =~= entries.take(i as int).push(entries[i as int]));
                lemma_encode_entries_push(entries.take(i as int), entries[i as int]);
            }
            out.append(&mut length);
            out.append(&mut path);
            out.append(&mut timestamp);
            i = i + 1;
        }
        proof {
            assert(entries.take(n as int) =~= entries);
            self.lemma_wf_distinct();
            lemma_round_trip(entries);
        }
        out
    }

    /// Rebuilds a cache from a persisted store. A missing store, as on a
    /// first run, gives an empty cache. A store that is present must be
    /// exactly the encoding of some records with distinct paths; anything
    /// else is rejected with the first defect met, reading front to back.
    pub fn load(source: Option<&[u8]>) -> (loaded: Result<ChangeCache, LoadError>)
        ensures
            source is None ==> loaded is Ok && loaded->Ok_0.entries() == Seq::<Entry>::empty(),
            source matches Some(bytes) ==> match parse_cache(bytes@) {
                Ok(entries) => loaded is Ok && loaded->Ok_0.entries() == entries,
                Err(e) => loaded is Err && loaded->Err_0 == e,
            },
            loaded matches Ok(cache) ==> cache.wf(),
            loaded is Ok && source is Some ==> encode_cache(loaded->Ok_0.entries())
                == source->Some_0@,
            forall|entries: Seq<Entry>|
                source is Some && source->Some_0@ == #[trigger] encode_cache(entries) && encodable(
                    entries,
                ) && distinct_paths(entries) ==> loaded is Ok && loaded->Ok_0.entries() == entries,
    {
        proof {
            assert forall|entries: Seq<Entry>|
                source is Some && source->Some_0@ == #[trigger] encode_cache(entries) && encodable(
                    entries,
                ) && distinct_paths(entries) implies parse_cache(source->Some_0@) == Ok::<
                Seq<Entry>,
                LoadError,
            >(entries) by {
                lemma_round_trip(entries);
            }
        }
        let bytes: &[u8] = match source {
            None => {
                return Ok(ChangeCache::new());
            },
            Some(bytes) => bytes,
        };
        let len: usize = bytes.len();
        if len < 16 {
            return Err(LoadError::BadHeader);
        }
        let tag: u64 = u64_from_le_bytes(slice_subrange(bytes, 0, 8));
        if tag != FORMAT_TAG {
            return Err(LoadError::BadHeader);
        }
        let count: u64 = u64_from_le_bytes(slice_subrange(bytes, 8, 16));
        let mut cache = ChangeCache::new();
        let mut remaining: u64 = count;
        let mut pos: usize = 16;
        while remaining > 0
            invariant
                source == Some(bytes),
                forall|entries: Seq<Entry>|
                    bytes@ == #[trigger] encode_cache(entries) && encodable(entries)
                        && distinct_paths(entries) ==> parse_cache(bytes@) == Ok::<
                        Seq<Entry>,
                        LoadError,
                    >(entries),
                len == bytes@.len(),
                16 <= pos <= len,
                cache.wf(),
                parse_cache(bytes@) == parse_entries(
                    bytes@.subrange(pos as int, len as int),
                    remaining as nat,
                    cache.entries(),
                ),
            decreases remaining,
        {
            let ghost rest = bytes@.subrange(pos as int, len as int);
            let avail: usize = len - pos;
            if avail < 16 {
                return Err(LoadError::Truncated);
            }
            let path_len: u64 = u64_from_le_bytes(slice_subrange(bytes, pos, pos + 8));
            proof {
                assert(rest.subrange(0, 8) =~= bytes@.subrange(pos as int, pos + 8));
            }
            if ((avail - 16) as u64) < path_len {
                return Err(LoadError::Truncated);
            }
            let n: usize = path_len as usize;
            let raw: Vec<u8> = slice_to_vec(slice_subrange(bytes, pos + 8, pos + 8 + n));
            proof {
                assert(rest.subrange(8, 8 + n) =~= bytes@.subrange(pos + 8, pos + 8 + n));
                assert(rest.subrange(8 + n, 16 + n) =~= bytes@.subrange(pos + 8 + n, pos + 16 + n));
                assert(rest.subrange(16 + n, rest.len() as int) =~= bytes@.subrange(
                    pos + 16 + n,
                    len as int,
                ));
            }
            let path: String = match string_from_utf8(raw) {
                None => {
                    return Err(LoadError::InvalidPath);
                },
                Some(path) => path,
            };
            if cache.lookup(path.as_str()).is_some() {
                return Err(LoadError::DuplicatePath);
            }
            let timestamp: u64 = u64_from_le_bytes(
                slice_subrange(bytes, pos + 8 + n, pos + 16 + n),
            );
            cache.record(path.as_str(), timestamp);
            pos = pos + 16 + n;
            remaining = remaining - 1;
        }
        if pos != len {
            return Err(LoadError::TrailingBytes);
        }
        proof {
            lemma_parse_exact(bytes@);
        }
        Ok(cache)
    }
}

} // verus!
