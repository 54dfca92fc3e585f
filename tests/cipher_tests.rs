use backup_agent::cipher::{
    body_start, chunk_nonce, decode_master_key, frame_len, fresh_base_nonce, header_line, open_body, seal_body,
    CipherError, Decryptor, Encryptor, BASE_NONCE_LEN, TAG_LEN,
};
use base64::Engine;

fn key(b: u8) -> Vec<u8> {
    vec![b; 32]
}

#[test]
fn round_trip_restores_plaintext() {
    let k = key(7);
    let nonce = vec![1, 2, 3, 4, 5, 6, 7, 8];
    let plain: Vec<u8> = (0..5000u32).map(|i| (i % 251) as u8).collect();
    let body = seal_body(&k, &nonce, &plain).unwrap();
    assert_eq!(body.len(), 4 + plain.len() + TAG_LEN);
    let back = open_body(&k, &nonce, &body).unwrap();
    assert_eq!(back, plain);
}

#[test]
fn empty_plaintext_has_no_frames() {
    let body = seal_body(&key(1), &[0u8; 8], &[]).unwrap();
    assert!(body.is_empty());
    assert_eq!(open_body(&key(1), &[0u8; 8], &body).unwrap(), Vec::<u8>::new());
}

#[test]
fn wrong_key_fails_authentication() {
    let nonce = vec![9u8; 8];
    let body = seal_body(&key(7), &nonce, b"secret dump").unwrap();
    assert_eq!(open_body(&key(8), &nonce, &body), Err(CipherError::Authentication));
}

#[test]
fn tampered_frame_fails() {
    let nonce = vec![9u8; 8];
    let mut body = seal_body(&key(7), &nonce, b"secret dump").unwrap();
    let last = body.len() - 1;
    body[last] ^= 1;
    assert_eq!(open_body(&key(7), &nonce, &body), Err(CipherError::Authentication));
}

#[test]
fn truncated_frame_is_reported() {
    let nonce = vec![9u8; 8];
    let body = seal_body(&key(7), &nonce, b"secret dump").unwrap();
    assert_eq!(open_body(&key(7), &nonce, &body[..body.len() - 3]), Err(CipherError::TruncatedFrame));
}

#[test]
fn short_tail_is_a_truncated_frame() {
    let nonce = vec![9u8; 8];
    let mut body = seal_body(&key(7), &nonce, b"abc").unwrap();
    body.extend_from_slice(&[0, 0]);
    assert_eq!(open_body(&key(7), &nonce, &body), Err(CipherError::TruncatedFrame));
    let whole = seal_body(&key(7), &nonce, b"abc").unwrap();
    assert_eq!(open_body(&key(7), &nonce, &whole[..2]), Err(CipherError::TruncatedFrame));
}

#[test]
fn frame_length_prefixes() {
    assert_eq!(frame_len(&[]), Ok(None));
    assert_eq!(frame_len(&[0, 1]), Err(CipherError::TruncatedFrame));
    assert_eq!(frame_len(&[0, 0, 1, 2]), Ok(Some(258)));
}

#[test]
fn malformed_key_and_nonce_are_rejected() {
    assert_eq!(seal_body(&[0u8; 16], &[0u8; 8], b"x"), Err(CipherError::InvalidKeyLength));
    assert_eq!(seal_body(&key(1), &[0u8; 12], b"x"), Err(CipherError::InvalidNonce));
    assert_eq!(open_body(&[0u8; 31], &[0u8; 8], b"x"), Err(CipherError::InvalidKeyLength));
    assert_eq!(open_body(&key(1), &[0u8; 7], b"x"), Err(CipherError::InvalidNonce));
}

#[test]
fn frames_use_consecutive_distinct_nonces() {
    let base = vec![0xAA; 8];
    let n0 = chunk_nonce(&base, 0);
    let n1 = chunk_nonce(&base, 1);
    let big = chunk_nonce(&base, 0x01020304);
    assert_eq!(n0, vec![0xAA, 0xAA, 0xAA, 0xAA, 0xAA, 0xAA, 0xAA, 0xAA, 0, 0, 0, 0]);
    assert_eq!(n1[11], 1);
    assert_eq!(&big[8..], &[1, 2, 3, 4]);
    assert_ne!(n0, n1);
}

#[test]
fn encryptor_and_decryptor_frame_by_frame() {
    let k = key(3);
    let base = vec![5u8; 8];
    let mut enc = Encryptor::new(&k, &base).unwrap();
    let f0 = enc.seal_next(b"first block").unwrap();
    let f1 = enc.seal_next(b"second").unwrap();
    assert_eq!(enc.frames_sealed(), 2);
    assert_eq!(u32::from_be_bytes([f0[0], f0[1], f0[2], f0[3]]) as usize, 11 + TAG_LEN);
    let mut dec = Decryptor::new(&k, &base).unwrap();
    assert_eq!(dec.open_next(&f0[4..]).unwrap(), b"first block".to_vec());
    assert_eq!(dec.open_next(&f1[4..]).unwrap(), b"second".to_vec());
    // frames opened out of order fail: each frame has its own nonce
    let mut dec2 = Decryptor::new(&k, &base).unwrap();
    assert_eq!(dec2.open_next(&f1[4..]), Err(CipherError::Authentication));
}

#[test]
fn header_line_describes_the_cipher() {
    let h = header_line(&[1, 2, 3, 4, 5, 6, 7, 255]);
    assert_eq!(
        h,
        "{\"version\":1,\"cipher\":\"AES-256-GCM\",\"chunk_size\":16777216,\"base_nonce\":[1,2,3,4,5,6,7,255]}\n"
    );
    let v: serde_json::Value = serde_json::from_str(h.trim_end()).unwrap();
    assert_eq!(v["chunk_size"], 16777216);
}

#[test]
fn body_starts_after_header_line() {
    let mut data = b"{\"a\":1}\n".to_vec();
    data.extend_from_slice(&[0, 0, 0, 1]);
    assert_eq!(body_start(&data), 8);
    assert_eq!(body_start(b"no newline"), 10);
}

#[test]
fn master_key_decoding() {
    let raw = vec![42u8; 32];
    let b64 = base64::engine::general_purpose::STANDARD.encode(&raw);
    assert_eq!(decode_master_key(&b64).unwrap(), raw);
    let short = base64::engine::general_purpose::STANDARD.encode([1u8; 16]);
    assert_eq!(decode_master_key(&short), Err(CipherError::InvalidKeyLength));
    assert_eq!(decode_master_key("not base64!!"), Err(CipherError::InvalidBase64));
}

#[test]
fn fresh_nonces_have_eight_bytes() {
    let a = fresh_base_nonce().unwrap();
    let b = fresh_base_nonce().unwrap();
    assert_eq!(a.len(), BASE_NONCE_LEN);
    assert_eq!(b.len(), BASE_NONCE_LEN);
}
