use moqu::codec::{open_datagram, seal_datagram, seal_datagram_with_nonce, DecodeError};
use moqu::crypto::{seal, seal_with_nonce, CryptoError, Key, Nonce, Sealed};

fn test_key() -> Key {
    Key::from_bytes(&[7u8, 1, 2, 3, 4, 5, 6, 7, 8, 9, 10, 11, 12, 13, 14, 15])
}

#[test]
fn seal_then_open_gives_plaintext() {
    let key = test_key();
    for payload in [&b""[..], &b"a"[..], &b"hello, world"[..], &[0u8; 300][..]] {
        let sealed = seal(&key, payload).unwrap();
        assert_eq!(sealed.ciphertext.len(), payload.len() + 16);
        assert_eq!(sealed.open(&key).unwrap(), payload.to_vec());
    }
}

#[test]
fn ciphertext_differs_from_plaintext() {
    let key = test_key();
    let sealed = seal(&key, b"secret message").unwrap();
    assert_ne!(&sealed.ciphertext[..14], &b"secret message"[..]);
}

#[test]
fn every_bit_flip_is_detected() {
    let key = test_key();
    let sealed = seal(&key, b"payload").unwrap();
    for byte in 0..sealed.ciphertext.len() {
        for bit in 0..8 {
            let mut ct = sealed.ciphertext.clone();
            ct[byte] ^= 1 << bit;
            let tampered = Sealed { nonce: Nonce { bytes: sealed.nonce.bytes }, ciphertext: ct };
            assert_eq!(tampered.open(&key), Err(CryptoError::AuthenticationFailure));
        }
    }
}

#[test]
fn flipped_nonce_is_detected() {
    let key = test_key();
    let sealed = seal(&key, b"payload").unwrap();
    let mut nonce = sealed.nonce.bytes;
    nonce[0] ^= 0x80;
    let tampered = Sealed { nonce: Nonce { bytes: nonce }, ciphertext: sealed.ciphertext.clone() };
    assert_eq!(tampered.open(&key), Err(CryptoError::AuthenticationFailure));
}

#[test]
fn wrong_key_is_detected() {
    let key = test_key();
    let other = Key::from_bytes(&[8u8; 16]);
    let sealed = seal(&key, b"payload").unwrap();
    assert_eq!(sealed.open(&other), Err(CryptoError::AuthenticationFailure));
}

#[test]
fn truncated_ciphertext_is_detected() {
    let key = test_key();
    let sealed = seal(&key, b"payload").unwrap();
    for len in 0..sealed.ciphertext.len() {
        let short = Sealed {
            nonce: Nonce { bytes: sealed.nonce.bytes },
            ciphertext: sealed.ciphertext[..len].to_vec(),
        };
        assert_eq!(short.open(&key), Err(CryptoError::AuthenticationFailure));
    }
}

#[test]
fn same_nonce_same_ciphertext() {
    let key = test_key();
    let a = seal_with_nonce(&key, Nonce { bytes: [3u8; 12] }, b"x").unwrap();
    let b = seal_with_nonce(&key, Nonce { bytes: [3u8; 12] }, b"x").unwrap();
    assert_eq!(a.ciphertext, b.ciphertext);
    assert_eq!(a.nonce.bytes, [3u8; 12]);
}

#[test]
fn fresh_nonce_each_seal() {
    let key = test_key();
    let a = seal(&key, b"x").unwrap();
    let b = seal(&key, b"x").unwrap();
    assert_ne!(a.nonce.bytes, b.nonce.bytes);
}

#[test]
fn known_aes_gcm_vector() {
    // AES-128-GCM, zero key, zero nonce, empty plaintext: the tag alone.
    let key = Key::from_bytes(&[0u8; 16]);
    let s = seal_with_nonce(&key, Nonce { bytes: [0u8; 12] }, b"").unwrap();
    let expected: [u8; 16] = [
        0x58, 0xe2, 0xfc, 0xce, 0xfa, 0x7e, 0x30, 0x61, 0x36, 0x7f, 0x1d, 0x57, 0xa4, 0xe7, 0x45,
        0x5a,
    ];
    assert_eq!(s.ciphertext, expected.to_vec());
}

#[test]
fn key_from_short_and_long_bytes() {
    let k = Key::from_bytes(&[1u8, 2, 3]);
    assert_eq!(k.bytes, [1, 2, 3, 0, 0, 0, 0, 0, 0, 0, 0, 0, 0, 0, 0, 0]);
    let long: Vec<u8> = (0u8..20).collect();
    let k = Key::from_bytes(&long);
    assert_eq!(k.bytes, [0, 1, 2, 3, 4, 5, 6, 7, 8, 9, 10, 11, 12, 13, 14, 15]);
    let k = Key::from_bytes(&[]);
    assert_eq!(k.bytes, [0u8; 16]);
}

#[test]
fn random_keys_differ() {
    let a = Key::new().unwrap();
    let b = Key::new().unwrap();
    assert_ne!(a.bytes, b.bytes);
}

#[test]
fn datagram_round_trip() {
    let key = test_key();
    let d = seal_datagram(&key, b"abc").unwrap();
    assert_eq!(d.len(), 12 + 8 + 3 + 16);
    assert_eq!(open_datagram(&key, &d).unwrap(), b"abc".to_vec());
}

#[test]
fn datagram_layout() {
    let key = test_key();
    let d = seal_datagram_with_nonce(&key, Nonce { bytes: [9u8; 12] }, b"abcd").unwrap();
    assert_eq!(&d[..12], &[9u8; 12][..]);
    assert_eq!(&d[12..20], &[20u8, 0, 0, 0, 0, 0, 0, 0][..]);
    assert_eq!(d.len(), 40);
}

#[test]
fn datagram_errors() {
    let key = test_key();
    assert_eq!(open_datagram(&key, &[1, 2, 3]), Err(DecodeError::MalformedEnvelope));
    let d = seal_datagram(&key, b"abc").unwrap();
    let mut longer = d.clone();
    longer.push(0);
    assert_eq!(open_datagram(&key, &longer), Err(DecodeError::MalformedEnvelope));
    let mut flipped = d.clone();
    let last = flipped.len() - 1;
    flipped[last] ^= 1;
    assert_eq!(open_datagram(&key, &flipped), Err(DecodeError::AuthenticationFailure));
    let other = Key::from_bytes(&[0u8; 16]);
    assert_eq!(open_datagram(&other, &d), Err(DecodeError::AuthenticationFailure));
}

#[test]
fn opened_plaintext_is_ciphertext_minus_tag() {
    let key = test_key();
    let sealed = seal(&key, b"twelve bytes").unwrap();
    let opened = sealed.open(&key).unwrap();
    assert_eq!(opened.len(), sealed.ciphertext.len() - 16);
    let short = Sealed { nonce: Nonce { bytes: sealed.nonce.bytes }, ciphertext: vec![0u8; 15] };
    assert_eq!(short.open(&key), Err(CryptoError::AuthenticationFailure));
}

#[test]
fn seal_with_nonce_succeeds_and_opens() {
    let key = test_key();
    let s = seal_with_nonce(&key, Nonce { bytes: [4u8; 12] }, b"given nonce").unwrap();
    assert_eq!(s.open(&key).unwrap(), b"given nonce".to_vec());
}
