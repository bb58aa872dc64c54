//! Encodings that outside crates provide: base64, gzip and bincode.

use std::io::{Read, Write};

use base64::Engine;
use vstd::prelude::*;

use crate::bytes;

verus! {

// ─── Base64 ────────────────────────────────────────────────

/// The standard base64 text of some bytes, with padding.
pub uninterp spec fn base64_of(bytes: Seq<u8>) -> Seq<char>;

/// The bytes that a standard base64 text stands for, if it is one.
pub uninterp spec fn base64_read(text: Seq<char>) -> Option<Seq<u8>>;

/// Calls `base64`'s `Engine::encode` on the `STANDARD` engine. The text depends
/// on the bytes alone.
#[verifier::external_body]
pub(crate) fn base64_encode(data: &[u8]) -> (r: String)
    ensures
        r@ == base64_of(data@),
{
    base64::engine::general_purpose::STANDARD.encode(data)
}

/// The bytes of an optional result.
pub open spec fn bytes_view(r: Option<Vec<u8>>) -> Option<Seq<u8>> {
    match r {
        Some(b) => Some(b@),
        None => None,
    }
}

/// Calls `base64`'s `Engine::decode` on the `STANDARD` engine; an error becomes
/// `None`. The result depends on the text alone, and a text that `encode`
/// made gives back the bytes.
#[verifier::external_body]
pub(crate) fn base64_decode(text: &str) -> (r: Option<Vec<u8>>)
    ensures
        bytes_view(r) == base64_read(text@),
        forall|b: Seq<u8>| text@ == #[trigger] base64_of(b) ==> bytes_view(r) == Some(b),
{
    base64::engine::general_purpose::STANDARD.decode(text.as_bytes()).ok()
}

// ─── Gzip ──────────────────────────────────────────────────

/// Bytes as one gzip member at the default level, if the encoder succeeds.
pub uninterp spec fn gzip_of(bytes: Seq<u8>) -> Option<Seq<u8>>;

/// The content of the gzip member at the front, if there is a sound one.
pub uninterp spec fn gzip_read(bytes: Seq<u8>) -> Option<Seq<u8>>;

/// Calls `flate2`'s `GzEncoder` on a vector: `new`, `write_all` and `finish`;
/// an error becomes `None`. The header holds neither a time nor the name of
/// the system, so the result depends on the bytes alone. That it always
/// succeeds is not claimed: a vector takes every write, but the compressor
/// underneath leaves open whether its own error can come up.
#[verifier::external_body]
pub(crate) fn gzip(data: &[u8]) -> (r: Option<Vec<u8>>)
    ensures
        bytes_view(r) == gzip_of(data@),
{
    let mut encoder = flate2::write::GzEncoder::new(Vec::new(), flate2::Compression::default());
    match encoder.write_all(data) {
        Ok(()) => encoder.finish().ok(),
        Err(_) => None,
    }
}

/// Calls `flate2`'s `GzDecoder`: `new` and `read_to_end`; an error becomes
/// `None`. The result depends on the bytes alone, and what the encoder made
/// gives back the bytes.
#[verifier::external_body]
pub(crate) fn gunzip(data: &[u8]) -> (r: Option<Vec<u8>>)
    ensures
        bytes_view(r) == gzip_read(data@),
        forall|b: Seq<u8>| #[trigger] gzip_of(b) == Some(data@) ==> bytes_view(r) == Some(b),
{
    let mut out = Vec::new();
    match flate2::read::GzDecoder::new(data).read_to_end(&mut out) {
        Ok(_) => Some(out),
        Err(_) => None,
    }
}

// ─── Bincode ───────────────────────────────────────────────

/// Rows one after another, each with its length before it (eight bytes, the
/// lowest first).
pub open spec fn rows_body(rows: Seq<Seq<u8>>) -> Seq<u8>
    decreases rows.len(),
{
    if rows.len() == 0 {
        seq![]
    } else {
        vstd::bytes::spec_u64_to_le_bytes(rows[0].len() as u64) + rows[0] + rows_body(rows.skip(1))
    }
}

/// Rows with their number before them.
pub open spec fn rows_image(rows: Seq<Seq<u8>>) -> Seq<u8> {
    vstd::bytes::spec_u64_to_le_bytes(rows.len() as u64) + rows_body(rows)
}

/// Reads `n` rows from the front of some bytes.
pub open spec fn read_body(b: Seq<u8>, n: nat) -> Option<Seq<Seq<u8>>>
    decreases n,
{
    if n == 0 {
        Some(seq![])
    } else if b.len() < 8 {
        None
    } else {
        let len = vstd::bytes::spec_u64_from_le_bytes(b.take(8)) as int;
        if b.len() < 8 + len {
            None
        } else {
            match read_body(b.skip(8 + len), (n - 1) as nat) {
                Some(rest) => Some(seq![b.subrange(8, 8 + len)] + rest),
                None => None,
            }
        }
    }
}

/// Reads rows with their number before them. What follows them is ignored.
pub open spec fn rows_read(b: Seq<u8>) -> Option<Seq<Seq<u8>>> {
    if b.len() < 8 {
        None
    } else {
        read_body(b.skip(8), vstd::bytes::spec_u64_from_le_bytes(b.take(8)) as nat)
    }
}

/// The rows of an optional result.
pub open spec fn rows_view(r: Option<Vec<Vec<u8>>>) -> Option<Seq<Seq<u8>>> {
    match r {
        Some(rows) => Some(bytes::lists(rows@)),
        None => None,
    }
}

/// Calls `bincode::serialize` on rows of bytes; an error becomes `None`. It
/// writes the number of rows and the length of each as eight bytes, the
/// lowest first, and nothing fails on the way into a vector.
#[verifier::external_body]
pub(crate) fn bincode_rows(rows: &Vec<Vec<u8>>) -> (r: Option<Vec<u8>>)
    ensures
        bytes_view(r) == Some(rows_image(bytes::lists(rows@))),
{
    bincode::serialize(rows).ok()
}

/// Calls `bincode::deserialize` for rows of bytes; an error becomes `None`. It
/// reads what `serialize` writes, fails where bytes are missing, and ignores
/// what follows.
#[verifier::external_body]
pub(crate) fn rows_of_bincode(data: &[u8]) -> (r: Option<Vec<Vec<u8>>>)
    ensures
        rows_view(r) == rows_read(data@),
{
    bincode::deserialize(data).ok()
}

proof fn lemma_body_reads_back(rows: Seq<Seq<u8>>, tail: Seq<u8>)
    requires
        forall|i: int| 0 <= i < rows.len() ==> (#[trigger] rows[i]).len() <= u64::MAX,
    ensures
        read_body(rows_body(rows) + tail, rows.len()) == Some(rows),
    decreases rows.len(),
{
    vstd::bytes::lemma_auto_spec_u64_to_from_le_bytes();
    let b = rows_body(rows) + tail;
    if rows.len() == 0 {
        assert(rows =~= seq![]);
    } else {
        let head = vstd::bytes::spec_u64_to_le_bytes(rows[0].len() as u64);
        let rest = rows.skip(1);
        assert(head.len() == 8);
        assert(b.take(8) =~= head);
        assert(b.subrange(8, 8 + rows[0].len() as int) =~= rows[0]);
        assert(b.skip((8 + rows[0].len()) as int) =~= rows_body(rest) + tail);
        assert forall|i: int| 0 <= i < rest.len() implies (#[trigger] rest[i]).len()
            <= u64::MAX by {
            assert(rest[i] == rows[i + 1]);
        }
        lemma_body_reads_back(rest, tail);
        assert(seq![rows[0]] + rest =~= rows);
    }
}

/// Rows that were written are read back, whatever follows them.
pub proof fn rows_read_back(rows: Seq<Seq<u8>>, tail: Seq<u8>)
    requires
        rows.len() <= u64::MAX,
        forall|i: int| 0 <= i < rows.len() ==> (#[trigger] rows[i]).len() <= u64::MAX,
    ensures
        rows_read(rows_image(rows) + tail) == Some(rows),
{
    vstd::bytes::lemma_auto_spec_u64_to_from_le_bytes();
    let b = rows_image(rows) + tail;
    let head = vstd::bytes::spec_u64_to_le_bytes(rows.len() as u64);
    assert(head.len() == 8);
    assert(b.take(8) =~= head);
    assert(b.skip(8) =~= rows_body(rows) + tail);
    lemma_body_reads_back(rows, tail);
}

} // verus!
