//! Blobs that keep what a screen shows.

use base64::engine::general_purpose::STANDARD;
use base64::Engine;
use ezpn::snapshot_blob::{
    decode_scrollback, encode_scrollback, replay_bytes, BlobError, SCROLLBACK_BLOB_MAX_BYTES,
};
use flate2::write::GzEncoder;
use flate2::Compression;
use std::io::Write;

fn encode(p: &vt100::Parser) -> String {
    let (_, cols) = p.screen().size();
    let rows: Vec<Vec<u8>> = p.screen().rows_formatted(0, cols).collect();
    encode_scrollback(cols, &rows)
}

fn decode(blob: &str, p: &mut vt100::Parser) -> Result<(), BlobError> {
    p.process(&decode_scrollback(blob)?);
    Ok(())
}

fn gzipped(data: &[u8]) -> String {
    let mut encoder = GzEncoder::new(Vec::new(), Compression::default());
    encoder.write_all(data).unwrap();
    STANDARD.encode(encoder.finish().unwrap())
}

#[test]
fn round_trip_preserves_visible_text() {
    let mut p = vt100::Parser::new(5, 20, 1000);
    p.process(b"hello world\r\nsecond line\r\n");
    let blob = encode(&p);
    assert!(!blob.is_empty(), "blob should be non-empty");

    let mut q = vt100::Parser::new(5, 20, 1000);
    decode(&blob, &mut q).expect("decode should succeed");

    let original: String = p.screen().rows(0, 20).collect::<Vec<_>>().join("\n");
    let restored: String = q.screen().rows(0, 20).collect::<Vec<_>>().join("\n");
    assert_eq!(restored, original);
}

#[test]
fn empty_blob_is_no_op() {
    let mut p = vt100::Parser::new(5, 20, 1000);
    decode("", &mut p).expect("empty blob should be Ok");
    // Screen still empty
    assert!(p.screen().rows(0, 20).all(|r| r.trim().is_empty()));
}

#[test]
fn corrupt_base64_returns_error_without_panic() {
    let mut p = vt100::Parser::new(5, 20, 1000);
    let result = decode("!!!not valid base64!!!", &mut p);
    assert!(matches!(result, Err(BlobError::Base64)));
}

#[test]
fn corrupt_gzip_returns_error_without_panic() {
    let mut p = vt100::Parser::new(5, 20, 1000);
    // Valid base64 but garbage bytes inside (not gzip-compressed)
    let blob = STANDARD.encode(b"this is not gzip data at all");
    let result = decode(&blob, &mut p);
    assert!(matches!(result, Err(BlobError::Gzip)));
}

#[test]
fn corrupt_bincode_returns_error_without_panic() {
    let blob = gzipped(b"not a bincode payload");
    let mut p = vt100::Parser::new(5, 20, 1000);
    let result = decode(&blob, &mut p);
    assert!(matches!(result, Err(BlobError::Bincode)));
    assert!(!BlobError::Bincode.to_string().is_empty());
}

#[test]
fn cap_truncates_oversized_blob() {
    let cols: u16 = 500;
    let rows: u16 = 500;
    let mut p = vt100::Parser::new(rows, cols, 0);
    let mut payload = Vec::with_capacity((cols as usize + 2) * rows as usize);
    for r in 0..rows {
        for c in 0..cols {
            let ch = ((r as usize * 31 + c as usize * 17) % 94) as u8 + b'!';
            payload.push(ch);
        }
        payload.extend_from_slice(b"\r\n");
    }
    p.process(&payload);

    let blob = encode(&p);
    assert!(
        blob.len() <= SCROLLBACK_BLOB_MAX_BYTES,
        "blob len {} exceeds cap {}",
        blob.len(),
        SCROLLBACK_BLOB_MAX_BYTES
    );
}

#[test]
fn round_trip_preserves_basic_ansi_color() {
    let mut p = vt100::Parser::new(3, 20, 100);
    // Red "hi", reset, then "bye" plain.
    p.process(b"\x1b[31mhi\x1b[0m bye");
    let blob = encode(&p);

    let mut q = vt100::Parser::new(3, 20, 100);
    decode(&blob, &mut q).unwrap();

    let r0: String = p.screen().rows(0, 20).next().unwrap();
    let r1: String = q.screen().rows(0, 20).next().unwrap();
    assert_eq!(r0, r1);
}

/// Bytes that do not compress.
fn noise(seed: u64, len: usize) -> Vec<u8> {
    let mut x = seed;
    (0..len)
        .map(|_| {
            x = x.wrapping_mul(6364136223846793005).wrapping_add(1442695040888963407);
            (x >> 33) as u8
        })
        .collect()
}

#[test]
fn a_blob_over_the_cap_keeps_the_newer_half() {
    let rows: Vec<Vec<u8>> = (0..4).map(|k| noise(k, 1_500_000)).collect();
    let blob = encode_scrollback(80, &rows);
    assert!(!blob.is_empty() && blob.len() <= SCROLLBACK_BLOB_MAX_BYTES);
    let newer = rows[2..].to_vec();
    assert!(decode_scrollback(&blob).unwrap() == replay_bytes(&newer));
    let rows: Vec<Vec<u8>> = (0..4).map(|k| noise(k, 3_000_000)).collect();
    assert_eq!(encode_scrollback(80, &rows), "");
}

#[test]
fn rows_come_back_in_order_with_line_breaks_between_them() {
    let rows = vec![b"one".to_vec(), Vec::new(), b"\x1b[31mthree".to_vec()];
    let blob = encode_scrollback(80, &rows);
    assert_eq!(decode_scrollback(&blob).unwrap(), b"one\r\n\r\n\x1b[31mthree");
    assert_eq!(encode_scrollback(0, &rows), "");
    // A count of two rows, and one row of one byte: the second is missing.
    let mut cut = vec![2, 0, 0, 0, 0, 0, 0, 0];
    cut.extend_from_slice(&[1, 0, 0, 0, 0, 0, 0, 0, b'x']);
    assert!(matches!(decode_scrollback(&gzipped(&cut)), Err(BlobError::Bincode)));
    cut.extend_from_slice(&[0; 8]);
    assert_eq!(decode_scrollback(&gzipped(&cut)).unwrap(), b"x\r\n");
}
