//! The sealed envelope: AES-128-GCM under a pre-shared 16-byte key, with a
//! fresh random 12-byte nonce for every seal.

use ring::rand::SecureRandom;
use vstd::prelude::*;

verus! {

/// Length of an authentication tag.
pub const TAG_LEN: usize = 16;

/// The longest input, in bytes, that AES-GCM seals or opens under one
/// nonce: its 32-bit block counter allows 2^32 - 2 blocks of 16 bytes.
pub const GCM_MAX_INPUT_LEN: u64 = 68719476704;

/// The ciphertext-with-tag that AES-128-GCM makes of `plaintext` under `key`
/// and `nonce`, with no associated data.
pub uninterp spec fn gcm_seal_of(key: Seq<u8>, nonce: Seq<u8>, plaintext: Seq<u8>) -> Seq<u8>;

/// What AES-128-GCM authenticates and decrypts `ciphertext` to under `key`
/// and `nonce`, with no associated data; `None` where the tag does not verify.
pub uninterp spec fn gcm_open_of(key: Seq<u8>, nonce: Seq<u8>, ciphertext: Seq<u8>) -> Option<
    Seq<u8>,
>;

/// Relies on ring's `LessSafeKey::seal_in_place_append_tag` with
/// `AES_128_GCM`: the result depends on key, nonce and plaintext alone, and
/// is the encrypted plaintext followed by a 16-byte tag. It fails only on a
/// plaintext longer than the cipher's limit.
#[verifier::external_body]
fn aes_gcm_seal(key: &[u8; 16], nonce: &[u8; 12], plaintext: &[u8]) -> (r: Option<Vec<u8>>)
    ensures
        plaintext@.len() <= GCM_MAX_INPUT_LEN ==> r is Some,
        r matches Some(c) ==> c@ == gcm_seal_of(key@, nonce@, plaintext@) && c@.len()
            == plaintext@.len() + TAG_LEN,
{
    let unbound = ring::aead::UnboundKey::new(&ring::aead::AES_128_GCM, key).ok()?;
    let sealing = ring::aead::LessSafeKey::new(unbound);
    let mut buf = plaintext.to_vec();
    let n = ring::aead::Nonce::assume_unique_for_key(*nonce);
    sealing.seal_in_place_append_tag(n, ring::aead::Aad::empty(), &mut buf).ok()?;
    Some(buf)
}

/// Relies on ring's `LessSafeKey::open_in_place` with `AES_128_GCM`: the
/// result depends on key, nonce and ciphertext alone. Opening what sealing
/// made under the same key and nonce gives the plaintext back; what opens is
/// exactly the seal of what it opens to, one tag longer; and an input
/// shorter than a tag never opens.
#[verifier::external_body]
fn aes_gcm_open(key: &[u8; 16], nonce: &[u8; 12], ciphertext: &[u8]) -> (r: Option<Vec<u8>>)
    ensures
        r is Some <==> gcm_open_of(key@, nonce@, ciphertext@) is Some,
        r matches Some(p) ==> gcm_open_of(key@, nonce@, ciphertext@) == Some(p@),
        r matches Some(p) ==> gcm_seal_of(key@, nonce@, p@) == ciphertext@ && ciphertext@.len()
            == p@.len() + TAG_LEN,
        ciphertext@.len() < TAG_LEN ==> r is None,
        forall|p: Seq<u8>|
            p.len() <= GCM_MAX_INPUT_LEN && #[trigger] gcm_seal_of(key@, nonce@, p) == ciphertext@
                ==> r is Some && r.unwrap()@ == p,
{
    let unbound = ring::aead::UnboundKey::new(&ring::aead::AES_128_GCM, key).ok()?;
    let opening = ring::aead::LessSafeKey::new(unbound);
    let mut buf = ciphertext.to_vec();
    let n = ring::aead::Nonce::assume_unique_for_key(*nonce);
    let plain = opening.open_in_place(n, ring::aead::Aad::empty(), &mut buf).ok()?;
    Some(plain.to_vec())
}

/// Relies on ring's `SystemRandom::fill`: fills `dest` from the operating
/// system's generator, or reports failure.
#[verifier::external_body]
fn fill_random(dest: &mut [u8]) -> (ok: bool)
    ensures
        final(dest)@.len() == old(dest)@.len(),
{
    ring::rand::SystemRandom::new().fill(dest).is_ok()
}

/// Why sealing or opening failed.
#[derive(Debug, Clone, Copy, PartialEq, Eq)]
pub enum CryptoError {
    /// The random source gave no bytes.
    RandomUnavailable,
    /// The cipher refused to seal the plaintext.
    SealFailure,
    /// The tag did not verify: tampering, a wrong key or a truncated message.
    AuthenticationFailure,
}

/// A 128-bit pre-shared key.
#[derive(Debug, Default)]
pub struct Key {
    pub bytes: [u8; 16],
}

impl Key {
    /// A key drawn from the operating system's random source.
    pub fn new() -> (r: Result<Key, CryptoError>)
        ensures
            r matches Err(e) ==> e == CryptoError::RandomUnavailable,
    {
        let mut bytes: [u8; 16] = [0u8; 16];
        if fill_random(&mut bytes) {
            Ok(Key { bytes })
        } else {
            Err(CryptoError::RandomUnavailable)
        }
    }

    /// The key whose leading bytes are `bytes` (at most 16 of them), padded
    /// with zeros.
    pub fn from_bytes(bytes: &[u8]) -> (r: Key)
        ensures
            forall|i: int|
                0 <= i < 16 ==> #[trigger] r.bytes@[i] == if i < bytes@.len() {
                    bytes@[i]
                } else {
                    0u8
                },
    {
        let mut key: [u8; 16] = [0u8; 16];
        let mut i: usize = 0;
        while i < 16 && i < bytes.len()
            invariant
                i <= 16,
                i <= bytes@.len(),
                forall|j: int| 0 <= j < i ==> #[trigger] key@[j] == bytes@[j],
                forall|j: int| i <= j < 16 ==> #[trigger] key@[j] == 0u8,
            decreases 16 - i,
        {
            key[i] = bytes[i];
            i = i + 1;
        }
        Key { bytes: key }
    }
}

/// A 96-bit nonce, fresh for every seal.
#[derive(Debug, Default)]
pub struct Nonce {
    pub bytes: [u8; 12],
}

impl View for Nonce {
    type V = Seq<u8>;

    open spec fn view(&self) -> Seq<u8> {
        self.bytes@
    }
}

impl Nonce {
    /// A nonce drawn from the operating system's random source.
    pub fn new() -> (r: Result<Nonce, CryptoError>)
        ensures
            r matches Err(e) ==> e == CryptoError::RandomUnavailable,
    {
        let mut bytes: [u8; 12] = [0u8; 12];
        if fill_random(&mut bytes) {
            Ok(Nonce { bytes })
        } else {
            Err(CryptoError::RandomUnavailable)
        }
    }
}

/// A nonce and the ciphertext-with-tag sealed under it.
#[derive(Debug)]
pub struct Sealed {
    pub nonce: Nonce,
    pub ciphertext: Vec<u8>,
}

/// Whether `s` is what sealing `plaintext` under `key` made.
pub open spec fn seals(s: &Sealed, key: &Key, plaintext: Seq<u8>) -> bool {
    s.ciphertext@ == gcm_seal_of(key.bytes@, s.nonce@, plaintext)
}

impl Sealed {
    /// Authenticates and decrypts the envelope. Fails with
    /// `AuthenticationFailure` exactly where the cipher rejects it; an
    /// envelope that `seal` made of `p` under `key` opens to `p`.
    pub fn open(&self, key: &Key) -> (r: Result<Vec<u8>, CryptoError>)
        ensures
            match r {
                Ok(p) => gcm_open_of(key.bytes@, self.nonce@, self.ciphertext@) == Some(
                    p@,
                ),
                Err(e) => e == CryptoError::AuthenticationFailure && gcm_open_of(
                    key.bytes@,
                    self.nonce@,
                    self.ciphertext@,
                ) is None,
            },
            r matches Ok(q) ==> seals(self, key, q@) && self.ciphertext@.len() == q@.len() + TAG_LEN,
            self.ciphertext@.len() < TAG_LEN ==> r is Err,
            forall|p: Seq<u8>|
                p.len() <= GCM_MAX_INPUT_LEN && #[trigger] seals(self, key, p) ==> (r matches Ok(q)
                    && q@ == p),
    {
        match aes_gcm_open(&key.bytes, &self.nonce.bytes, self.ciphertext.as_slice()) {
            Some(p) => Ok(p),
            None => Err(CryptoError::AuthenticationFailure),
        }
    }
}

/// Seals `plaintext` under `key` and the given nonce; it succeeds on every
/// plaintext within the cipher's length limit.
pub fn seal_with_nonce(key: &Key, nonce: Nonce, plaintext: &[u8]) -> (r: Result<
    Sealed,
    CryptoError,
>)
    ensures
        match r {
            Ok(s) => s.nonce@ == nonce@ && seals(&s, key, plaintext@) && s.ciphertext@.len()
                == plaintext@.len() + TAG_LEN,
            Err(e) => e == CryptoError::SealFailure,
        },
        plaintext@.len() <= GCM_MAX_INPUT_LEN ==> r is Ok,
{
    match aes_gcm_seal(&key.bytes, &nonce.bytes, plaintext) {
        Some(c) => Ok(Sealed { nonce, ciphertext: c }),
        None => Err(CryptoError::SealFailure),
    }
}

/// Seals `plaintext` under `key` with a fresh random nonce. Within the
/// cipher's length limit only a failing random source makes it fail.
pub fn seal(key: &Key, plaintext: &[u8]) -> (r: Result<Sealed, CryptoError>)
    ensures
        r matches Ok(s) ==> seals(&s, key, plaintext@) && s.ciphertext@.len() == plaintext@.len()
            + TAG_LEN,
        r matches Err(e) ==> e == CryptoError::RandomUnavailable || e == CryptoError::SealFailure,
        plaintext@.len() <= GCM_MAX_INPUT_LEN ==> (r matches Err(e) ==> e
            == CryptoError::RandomUnavailable),
{
    let nonce = Nonce::new()?;
    seal_with_nonce(key, nonce, plaintext)
}

} // verus!
