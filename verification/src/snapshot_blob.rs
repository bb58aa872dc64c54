//! The visible rows of a pane as a text that fits in a snapshot.
//!
//! Rows are packed as bincode, compressed as gzip and written as base64. A
//! text over [`SCROLLBACK_BLOB_MAX_BYTES`] is made again without the older
//! half of the rows, and left out if it is still over the cap.

use vstd::prelude::*;
use vstd::string::*;

use crate::bytes;
use crate::codec;
use crate::protocol::{copy_bytes, push_bytes};

verus! {

/// Cap on the text of one pane, in bytes.
pub const SCROLLBACK_BLOB_MAX_BYTES: usize = 5_242_880;

/// The text of some rows, if the encoders succeed.
pub open spec fn blob_of(rows: Seq<Seq<u8>>) -> Option<Seq<char>> {
    match codec::gzip_of(codec::rows_image(rows)) {
        Some(z) => Some(codec::base64_of(z)),
        None => None,
    }
}

/// The text of some rows, if there is one under the cap.
pub open spec fn fitting_blob(rows: Seq<Seq<u8>>) -> Option<Seq<char>> {
    match blob_of(rows) {
        Some(s) => if vstd::utf8::encode_utf8(s).len() <= SCROLLBACK_BLOB_MAX_BYTES {
            Some(s)
        } else {
            None
        },
        None => None,
    }
}

/// The text that is kept of a screen: of all rows, or else of the newer half,
/// or else nothing.
pub open spec fn kept_blob(cols: u16, rows: Seq<Seq<u8>>) -> Seq<char> {
    if cols == 0 {
        seq![]
    } else {
        match fitting_blob(rows) {
            Some(s) => s,
            None => match fitting_blob(rows.skip((rows.len() / 2) as int)) {
                Some(s) => s,
                None => seq![],
            },
        }
    }
}

fn try_encode(rows: &Vec<Vec<u8>>) -> (r: Option<String>)
    ensures
        match r {
            Some(s) => blob_of(bytes::lists(rows@)) == Some(s@),
            None => blob_of(bytes::lists(rows@)) is None,
        },
{
    match codec::bincode_rows(rows) {
        Some(packed) => match codec::gzip(packed.as_slice()) {
            Some(z) => Some(codec::base64_encode(z.as_slice())),
            None => None,
        },
        None => None,
    }
}

fn encode_fitting(rows: &Vec<Vec<u8>>) -> (r: Option<String>)
    ensures
        match r {
            Some(s) => fitting_blob(bytes::lists(rows@)) == Some(s@),
            None => fitting_blob(bytes::lists(rows@)) is None,
        },
{
    match try_encode(rows) {
        Some(s) => {
            if s.as_str().as_bytes().len() <= SCROLLBACK_BLOB_MAX_BYTES {
                Some(s)
            } else {
                None
            }
        },
        None => None,
    }
}

/// Encodes the rows of a screen that is `cols` wide. The text is empty where
/// the screen has no width or even the newer half of the rows is over the cap.
pub fn encode_scrollback(cols: u16, rows: &Vec<Vec<u8>>) -> (r: String)
    ensures
        r@ == kept_blob(cols, bytes::lists(rows@)),
        vstd::utf8::encode_utf8(r@).len() <= SCROLLBACK_BLOB_MAX_BYTES,
{
    let nothing = String::new();
    assert(nothing@ =~= seq![]);
    assert(vstd::utf8::encode_utf8(nothing@) =~= seq![]);
    if cols == 0 {
        return nothing;
    }
    match encode_fitting(rows) {
        Some(s) => s,
        None => {
            let from: usize = rows.len() / 2;
            let mut newer: Vec<Vec<u8>> = Vec::new();
            let mut i: usize = from;
            assert(bytes::lists(newer@) =~= bytes::lists(rows@).subrange(from as int, i as int));
            while i < rows.len()
                invariant
                    from <= i <= rows@.len(),
                    bytes::lists(newer@) == bytes::lists(rows@).subrange(from as int, i as int),
                decreases rows@.len() - i,
            {
                let row = copy_bytes(rows[i].as_slice(), 0, rows[i].len());
                assert(row@ =~= rows@[i as int]@);
                proof {
                    bytes::lemma_lists_push(newer@, row);
                }
                newer.push(row);
                i += 1;
                assert(bytes::lists(newer@) =~= bytes::lists(rows@).subrange(
                    from as int,
                    i as int,
                ));
            }
            assert(bytes::lists(newer@) =~= bytes::lists(rows@).skip(from as int));
            match encode_fitting(&newer) {
                Some(s) => s,
                None => nothing,
            }
        },
    }
}

/// Why a text gives back no rows.
#[derive(Clone, Copy, Debug, PartialEq, Eq, Structural)]
pub enum BlobError {
    Base64,
    Gzip,
    Bincode,
}

pub open spec fn blob_error_text(e: BlobError) -> Seq<char> {
    match e {
        BlobError::Base64 => "base64 decode failed"@,
        BlobError::Gzip => "gzip decompress failed"@,
        BlobError::Bincode => "bincode deserialize failed"@,
    }
}

impl BlobError {
    pub fn to_string(&self) -> (r: String)
        ensures
            r@ == blob_error_text(*self),
    {
        match self {
            BlobError::Base64 => "base64 decode failed".to_owned(),
            BlobError::Gzip => "gzip decompress failed".to_owned(),
            BlobError::Bincode => "bincode deserialize failed".to_owned(),
        }
    }
}

/// Rows with a line break between them.
pub open spec fn lines(rows: Seq<Seq<u8>>) -> Seq<u8>
    decreases rows.len(),
{
    if rows.len() == 0 {
        seq![]
    } else if rows.len() == 1 {
        rows[0]
    } else {
        lines(rows.drop_last()) + seq![13u8, 10] + rows.last()
    }
}

/// What a text replays, or why it does not.
pub open spec fn replay_of(blob: Seq<char>) -> Result<Seq<u8>, BlobError> {
    if blob.len() == 0 {
        Ok(seq![])
    } else {
        match codec::base64_read(blob) {
            None => Err(BlobError::Base64),
            Some(z) => match codec::gzip_read(z) {
                None => Err(BlobError::Gzip),
                Some(packed) => match codec::rows_read(packed) {
                    None => Err(BlobError::Bincode),
                    Some(rows) => Ok(lines(rows)),
                },
            },
        }
    }
}

/// Puts line breaks between rows.
pub fn replay_bytes(rows: &Vec<Vec<u8>>) -> (r: Vec<u8>)
    ensures
        r@ == lines(bytes::lists(rows@)),
{
    let mut out: Vec<u8> = Vec::new();
    let ghost all = bytes::lists(rows@);
    let mut i: usize = 0;
    while i < rows.len()
        invariant
            i <= rows@.len(),
            all == bytes::lists(rows@),
            out@ == lines(all.take(i as int)),
        decreases rows@.len() - i,
    {
        if i > 0 {
            out.push(13);
            out.push(10);
        }
        push_bytes(&mut out, rows[i].as_slice());
        proof {
            let after = all.take(i + 1);
            assert(after.drop_last() =~= all.take(i as int));
            assert(after.last() == rows@[i as int]@);
            assert(out@ =~= lines(after));
        }
        i += 1;
    }
    assert(all.take(i as int) =~= all);
    out
}

/// Decodes a text to the bytes that a fresh terminal of the same size replays.
/// An empty text replays nothing. A text that was made of some rows replays
/// those rows.
pub fn decode_scrollback(blob: &str) -> (r: Result<Vec<u8>, BlobError>)
    ensures
        match r {
            Ok(b) => replay_of(blob@) == Ok::<Seq<u8>, BlobError>(b@),
            Err(e) => replay_of(blob@) == Err::<Seq<u8>, BlobError>(e),
        },
        forall|rows: Seq<Seq<u8>>|
            #![trigger blob_of(rows)]
            blob_of(rows) == Some(blob@) && blob@.len() > 0 && rows.len() <= u64::MAX && (forall|
                i: int,
            |
                0 <= i < rows.len() ==> (#[trigger] rows[i]).len() <= u64::MAX) ==> (r matches Ok(b)
                && b@ == lines(rows)),
{
    if blob.is_empty() {
        let nothing: Vec<u8> = Vec::new();
        assert(nothing@ =~= seq![]);
        return Ok(nothing);
    }
    let decoded = codec::base64_decode(blob);
    let z = match decoded {
        Some(z) => z,
        None => {
            return Err(BlobError::Base64);
        },
    };
    let unpacked = codec::gunzip(z.as_slice());
    proof {
        assert forall|rows: Seq<Seq<u8>>|
            #![trigger blob_of(rows)]
            blob_of(rows) == Some(blob@) && rows.len() <= u64::MAX && (forall|i: int|
                0 <= i < rows.len() ==> (#[trigger] rows[i]).len() <= u64::MAX) implies (
        codec::bytes_view(unpacked) == Some(codec::rows_image(rows)) && codec::rows_read(
            codec::rows_image(rows),
        ) == Some(rows)) by {
            let zz = codec::gzip_of(codec::rows_image(rows))->Some_0;
            assert(codec::base64_of(zz) == blob@);
            assert(z@ == zz);
            codec::rows_read_back(rows, seq![]);
            assert(codec::rows_image(rows) + seq![] =~= codec::rows_image(rows));
        }
    }
    let packed = match unpacked {
        Some(p) => p,
        None => {
            return Err(BlobError::Gzip);
        },
    };
    match codec::rows_of_bincode(packed.as_slice()) {
        Some(rows) => Ok(replay_bytes(&rows)),
        None => Err(BlobError::Bincode),
    }
}

} // verus!
