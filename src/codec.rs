//! Datagrams to messages and back: a message's bytes are sealed, and the
//! envelope's bytes are what travels.

use vstd::prelude::*;

use crate::crypto::{
    gcm_open_of, gcm_seal_of, seal, seal_with_nonce, seals, CryptoError, Key, Nonce, Sealed,
    GCM_MAX_INPUT_LEN,
};
use crate::wire::{
    decode_envelope, encode_envelope, envelope_bytes, lemma_envelope_round_trip, parse_envelope,
    NONCE_LEN,
};

verus! {

/// Why an inbound datagram was dropped.
#[derive(Debug, Clone, Copy, PartialEq, Eq)]
pub enum DecodeError {
    /// The datagram is not the bytes of an envelope.
    MalformedEnvelope,
    /// The envelope does not open under the key.
    AuthenticationFailure,
    /// The opened bytes are not the bytes of a message.
    MalformedPayload,
}

/// The plaintext that datagram `b` carries under `key`.
pub open spec fn datagram_plaintext(key: Seq<u8>, b: Seq<u8>) -> Result<Seq<u8>, DecodeError> {
    match parse_envelope(b) {
        None => Err(DecodeError::MalformedEnvelope),
        Some((n, c)) => match gcm_open_of(key, n, c) {
            None => Err(DecodeError::AuthenticationFailure),
            Some(p) => Ok(p),
        },
    }
}

/// The datagram that carries `plaintext` sealed under `key` and `nonce`.
pub open spec fn datagram_of(key: Seq<u8>, nonce: Seq<u8>, plaintext: Seq<u8>) -> Seq<u8> {
    envelope_bytes(nonce, gcm_seal_of(key, nonce, plaintext))
}

/// Opens datagram `buf` under `key`. A datagram that `seal_datagram` made
/// of `p` (within the cipher's length limit) under the same key opens to `p`.
pub fn open_datagram(key: &Key, buf: &[u8]) -> (r: Result<Vec<u8>, DecodeError>)
    ensures
        match r {
            Ok(p) => datagram_plaintext(key.bytes@, buf@) == Ok::<Seq<u8>, DecodeError>(p@),
            Err(e) => datagram_plaintext(key.bytes@, buf@) == Err::<Seq<u8>, DecodeError>(e),
        },
        forall|n: Seq<u8>, p: Seq<u8>|
            n.len() == NONCE_LEN && p.len() <= GCM_MAX_INPUT_LEN && buf@ == #[trigger] datagram_of(
                key.bytes@,
                n,
                p,
            ) ==> (r matches Ok(
                q,
            ) && q@ == p),
{
    let len = buf.len();
    match decode_envelope(buf) {
        None => {
            proof {
                assert forall|n2: Seq<u8>, p: Seq<u8>|
                    n2.len() == NONCE_LEN && buf@ == #[trigger] datagram_of(key.bytes@, n2, p)
                        implies false by {
                    assert(gcm_seal_of(key.bytes@, n2, p).len() <= len);
                    lemma_envelope_round_trip(n2, gcm_seal_of(key.bytes@, n2, p));
                }
            }
            Err(DecodeError::MalformedEnvelope)
        },
        Some((n, c)) => {
            let sealed = Sealed { nonce: Nonce { bytes: n }, ciphertext: c };
            let opened = sealed.open(key);
            proof {
                assert forall|n2: Seq<u8>, p: Seq<u8>|
                    n2.len() == NONCE_LEN && p.len() <= GCM_MAX_INPUT_LEN && buf@
                        == #[trigger] datagram_of(key.bytes@, n2, p) implies (opened matches Ok(q) && q@ == p) by {
                    lemma_envelope_round_trip(n2, gcm_seal_of(key.bytes@, n2, p));
                    assert(seals(&sealed, key, p));
                }
            }
            match opened {
                Ok(p) => Ok(p),
                Err(_) => Err(DecodeError::AuthenticationFailure),
            }
        },
    }
}

/// Seals `plaintext` under `key` and `nonce` and frames the envelope.
pub fn seal_datagram_with_nonce(key: &Key, nonce: Nonce, plaintext: &[u8]) -> (r: Result<
    Vec<u8>,
    CryptoError,
>)
    ensures
        match r {
            Ok(b) => b@ == datagram_of(key.bytes@, nonce@, plaintext@),
            Err(e) => e == CryptoError::SealFailure,
        },
        plaintext@.len() <= GCM_MAX_INPUT_LEN ==> r is Ok,
{
    let sealed = seal_with_nonce(key, nonce, plaintext)?;
    Ok(encode_envelope(&sealed.nonce.bytes, &sealed.ciphertext))
}

/// Seals `plaintext` under `key` with a fresh random nonce and frames the
/// envelope.
pub fn seal_datagram(key: &Key, plaintext: &[u8]) -> (r: Result<Vec<u8>, CryptoError>)
    ensures
        r matches Ok(b) ==> exists|n: Seq<u8>|
            n.len() == NONCE_LEN && b@ == #[trigger] datagram_of(key.bytes@, n, plaintext@),
        r matches Err(e) ==> e == CryptoError::RandomUnavailable || e == CryptoError::SealFailure,
        plaintext@.len() <= GCM_MAX_INPUT_LEN ==> (r matches Err(e) ==> e
            == CryptoError::RandomUnavailable),
{
    let sealed = seal(key, plaintext)?;
    let b = encode_envelope(&sealed.nonce.bytes, &sealed.ciphertext);
    assert(b@ == datagram_of(key.bytes@, sealed.nonce@, plaintext@));
    Ok(b)
}

} // verus!
