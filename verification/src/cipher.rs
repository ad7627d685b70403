//! AES-256-GCM framing of chat payloads. A frame is a 12-byte nonce followed
//! by the AES-GCM ciphertext (with its 16-byte tag) of at most 1024 bytes of
//! payload; the key is given as hex text.
use vstd::prelude::*;
use aes_gcm::aead::{Aead, OsRng};
use aes_gcm::{Aes256Gcm, Key, KeyInit, Nonce};
use rand::RngCore;
use crate::hexcodec::{hex_decode_spec, hex_encode_spec, hex_to_bytes, bytes_to_hex, lemma_hex_roundtrip};

verus! {

/// Largest plaintext, in bytes, that AES-GCM encrypts (2^36).
pub open spec fn aes_gcm_p_max() -> int {
    0x10_0000_0000
}

/// The ciphertext (tag appended) that AES-256-GCM computes for a key, a
/// 12-byte nonce and a plaintext, with no associated data.
pub uninterp spec fn aes256gcm_seal(key: Seq<u8>, nonce: Seq<u8>, plaintext: Seq<u8>) -> Seq<u8>;

/// What AES-256-GCM decryption gives for a key, a 12-byte nonce and a
/// ciphertext: the plaintext, or nothing when the tag does not match.
pub uninterp spec fn aes256gcm_open(key: Seq<u8>, nonce: Seq<u8>, ciphertext: Seq<u8>) -> Option<
    Seq<u8>,
>;

/// Calls `Aes256Gcm::encrypt` (aes-gcm, through the `aead::Aead` trait) with
/// the given 32-byte key and 12-byte nonce. The crate refuses only a
/// plaintext longer than 2^36 bytes; the result is the encrypted bytes
/// followed by the 16-byte tag.
#[verifier::external_body]
fn aes256gcm_encrypt(key: &[u8], nonce: &[u8], plaintext: &[u8]) -> (res: Option<Vec<u8>>)
    requires
        key@.len() == 32,
        nonce@.len() == 12,
    ensures
        plaintext@.len() <= aes_gcm_p_max() ==> res is Some,
        res matches Some(c) ==> c@ == aes256gcm_seal(key@, nonce@, plaintext@),
        res matches Some(c) ==> c@.len() == plaintext@.len() + 16,
{
    let cipher = Aes256Gcm::new(Key::<Aes256Gcm>::from_slice(key));
    cipher.encrypt(Nonce::from_slice(nonce), plaintext).ok()
}

/// Calls `Aes256Gcm::decrypt` (aes-gcm, through the `aead::Aead` trait) with
/// the given 32-byte key and 12-byte nonce. It refuses a ciphertext shorter
/// than the 16-byte tag, and gives back the plaintext of any ciphertext that
/// encryption under the same key and nonce produced.
#[verifier::external_body]
fn aes256gcm_decrypt(key: &[u8], nonce: &[u8], ciphertext: &[u8]) -> (res: Option<Vec<u8>>)
    requires
        key@.len() == 32,
        nonce@.len() == 12,
    ensures
        match res {
            Some(p) => aes256gcm_open(key@, nonce@, ciphertext@) == Some(p@),
            None => aes256gcm_open(key@, nonce@, ciphertext@) is None,
        },
        ciphertext@.len() < 16 ==> res is None,
        res is None ==> forall|p: Seq<u8>|
            p.len() <= aes_gcm_p_max() ==> #[trigger] aes256gcm_seal(key@, nonce@, p)
                != ciphertext@,
        res matches Some(q) ==> forall|p: Seq<u8>|
            p.len() <= aes_gcm_p_max() && #[trigger] aes256gcm_seal(key@, nonce@, p)
                == ciphertext@ ==> q@ == p,
{
    let cipher = Aes256Gcm::new(Key::<Aes256Gcm>::from_slice(key));
    cipher.decrypt(Nonce::from_slice(nonce), ciphertext).ok()
}

/// Calls `OsRng::fill_bytes` (rand_core, as aes-gcm re-exports it) on a
/// 12-byte buffer. Nothing is promised of the bytes but their number.
#[verifier::external_body]
fn random_nonce() -> (res: Vec<u8>)
    ensures
        res@.len() == 12,
{
    let mut nonce = [0u8; 12];
    OsRng.fill_bytes(&mut nonce);
    nonce.to_vec()
}

/// Calls `rand::thread_rng().fill_bytes` on a buffer of `length` bytes.
/// Nothing is promised of the bytes but their number.
#[verifier::external_body]
fn random_bytes(length: usize) -> (res: Vec<u8>)
    ensures
        res@.len() == length,
{
    let mut bytes = vec![0u8; length];
    rand::thread_rng().fill_bytes(&mut bytes);
    bytes
}

/// Why encryption or decryption failed.
#[derive(Debug, Clone, Copy, PartialEq, Eq, Structural)]
pub enum CryptoError {
    /// The key text is not hexadecimal.
    KeyHex,
    /// The cipher refused the plaintext.
    Encryption,
    /// The frame did not authenticate under the key.
    Decryption,
}

/// Longest payload that is encrypted; longer payloads are cut to this length.
pub const MAX_PAYLOAD: usize = 1024;

/// Length of the nonce at the front of every frame.
pub const NONCE_LEN: usize = 12;

/// The payload as it is encrypted: its first 1024 bytes.
pub open spec fn truncated(data: Seq<u8>) -> Seq<u8> {
    if data.len() > 1024 {
        data.take(1024)
    } else {
        data
    }
}

/// What is sealed of a payload is its beginning: the first 1024 bytes of
/// a longer payload, the whole of a shorter one, byte for byte in place.
pub proof fn lemma_truncated_is_prefix(data: Seq<u8>)
    ensures
        truncated(data).len() == (if data.len() > 1024 {
            1024
        } else {
            data.len()
        }),
        forall|i: int| 0 <= i < truncated(data).len() ==> #[trigger] truncated(data)[i] == data[i],
{
}

/// A key text that the cipher can be built from without a panic: either not
/// hexadecimal at all (which is an error) or the hex text of exactly 32 bytes.
pub open spec fn key_usable(key: Seq<char>) -> bool {
    hex_decode_spec(key) matches Some(k) ==> k.len() == 32
}

/// The frame for a payload under a key and a nonce.
pub open spec fn frame_spec(key: Seq<u8>, nonce: Seq<u8>, data: Seq<u8>) -> Seq<u8> {
    nonce + aes256gcm_seal(key, nonce, truncated(data))
}

/// The frame that encrypting `data` with `nonce` under the key text gives.
pub open spec fn encrypt_spec(key_str: Seq<char>, data: Seq<u8>, nonce: Seq<u8>) -> Result<
    Seq<u8>,
    CryptoError,
> {
    match hex_decode_spec(key_str) {
        None => Err(CryptoError::KeyHex),
        Some(k) => Ok(frame_spec(k, nonce, data)),
    }
}

/// What decrypting a frame under the key text gives.
pub open spec fn decrypt_spec(key_str: Seq<char>, frame: Seq<u8>) -> Result<Seq<u8>, CryptoError> {
    match hex_decode_spec(key_str) {
        None => Err(CryptoError::KeyHex),
        Some(k) => match aes256gcm_open(k, frame.take(12), frame.skip(12)) {
            Some(p) => Ok(p),
            None => Err(CryptoError::Decryption),
        },
    }
}

/// The view of an encryption or decryption result.
pub open spec fn result_view(r: Result<Vec<u8>, CryptoError>) -> Result<Seq<u8>, CryptoError> {
    match r {
        Ok(v) => Ok(v@),
        Err(e) => Err(e),
    }
}

/// Copies the first `len` bytes of `data`.
fn prefix(data: &[u8], len: usize) -> (res: Vec<u8>)
    requires
        len <= data@.len(),
    ensures
        res@ == data@.take(len as int),
{
    let mut out: Vec<u8> = Vec::new();
    let mut i: usize = 0;
    while i < len
        invariant
            i <= len <= data@.len(),
            out@ == data@.take(i as int),
        decreases len - i,
    {
        out.push(data[i]);
        assert(data@.take(i + 1) =~= data@.take(i as int).push(data@[i as int]));
        i = i + 1;
    }
    out
}

/// Copies the bytes of `data` from `start` on.
fn suffix(data: &[u8], start: usize) -> (res: Vec<u8>)
    requires
        start <= data@.len(),
    ensures
        res@ == data@.skip(start as int),
{
    let mut out: Vec<u8> = Vec::new();
    let mut i: usize = start;
    while i < data.len()
        invariant
            start <= i <= data@.len(),
            out@ == data@.subrange(start as int, i as int),
        decreases data@.len() - i,
    {
        out.push(data[i]);
        assert(data@.subrange(start as int, i + 1) =~= data@.subrange(start as int, i as int).push(
            data@[i as int],
        ));
        i = i + 1;
    }
    assert(data@.subrange(start as int, data@.len() as int) =~= data@.skip(start as int));
    out
}

/// Encrypts a payload with the given nonce: the frame is the nonce followed
/// by the AES-256-GCM ciphertext of the payload's first 1024 bytes.
pub fn encrypt_with_nonce(key_str: &str, data: &[u8], nonce: &[u8]) -> (res: Result<
    Vec<u8>,
    CryptoError,
>)
    requires
        nonce@.len() == 12,
        key_usable(key_str@),
    ensures
        result_view(res) == encrypt_spec(key_str@, data@, nonce@),
        res matches Ok(f) ==> f@.len() == 12 + truncated(data@).len() + 16,
{
    let key = match hex_to_bytes(key_str) {
        Ok(k) => k,
        Err(_) => {
            return Err(CryptoError::KeyHex);
        },
    };
    let plain = if data.len() > MAX_PAYLOAD {
        prefix(data, MAX_PAYLOAD)
    } else {
        prefix(data, data.len())
    };
    assert(plain@ == truncated(data@)) by {
        assert(data@.take(data@.len() as int) =~= data@);
    }
    let sealed = match aes256gcm_encrypt(key.as_slice(), nonce, plain.as_slice()) {
        Some(c) => c,
        None => {
            return Err(CryptoError::Encryption);
        },
    };
    let mut out = prefix(nonce, NONCE_LEN);
    assert(nonce@.take(12) =~= nonce@);
    let mut rest = sealed;
    out.append(&mut rest);
    Ok(out)
}

/// Encrypts a payload under the key text with a fresh random nonce.
pub fn encrypt(key_str: &str, data: &[u8]) -> (res: Result<Vec<u8>, CryptoError>)
    requires
        key_usable(key_str@),
    ensures
        hex_decode_spec(key_str@) is None ==> res == Err::<Vec<u8>, CryptoError>(
            CryptoError::KeyHex,
        ),
        hex_decode_spec(key_str@) matches Some(k) ==> (res matches Ok(f) && f@.len() == 12
            + truncated(data@).len() + 16 && f@ == frame_spec(k, f@.take(12), data@)),
{
    let nonce = random_nonce();
    let res = encrypt_with_nonce(key_str, data, nonce.as_slice());
    proof {
        if res is Ok {
            assert(res->Ok_0@.take(12) =~= nonce@);
        }
    }
    res
}

/// Decrypts a frame: its first 12 bytes are the nonce, the rest the
/// AES-256-GCM ciphertext. A frame that `encrypt` made under the same key
/// decrypts to the payload it encrypted (cut to 1024 bytes).
pub fn decrypt(key_str: &str, ciphertext: &[u8]) -> (res: Result<Vec<u8>, CryptoError>)
    requires
        key_usable(key_str@),
        hex_decode_spec(key_str@) is Some ==> ciphertext@.len() >= 12,
    ensures
        result_view(res) == decrypt_spec(key_str@, ciphertext@),
        hex_decode_spec(key_str@) is Some && ciphertext@.len() < 28 ==> res == Err::<
            Vec<u8>,
            CryptoError,
        >(CryptoError::Decryption),
        forall|k: Seq<u8>, n: Seq<u8>, d: Seq<u8>|
            hex_decode_spec(key_str@) == Some(k) && n.len() == 12 && #[trigger] frame_spec(k, n, d)
                == ciphertext@ ==> result_view(res) == Ok::<Seq<u8>, CryptoError>(truncated(d)),
{
    let key = match hex_to_bytes(key_str) {
        Ok(k) => k,
        Err(_) => {
            return Err(CryptoError::KeyHex);
        },
    };
    let nonce = prefix(ciphertext, NONCE_LEN);
    let body = suffix(ciphertext, NONCE_LEN);
    let res = aes256gcm_decrypt(key.as_slice(), nonce.as_slice(), body.as_slice());
    proof {
        assert forall|k: Seq<u8>, n: Seq<u8>, d: Seq<u8>|
            hex_decode_spec(key_str@) == Some(k) && n.len() == 12 && #[trigger] frame_spec(k, n, d)
                == ciphertext@ implies (res matches Some(q) && q@ == truncated(d)) by {
            assert(ciphertext@.take(12) =~= n);
            assert(ciphertext@.skip(12) =~= aes256gcm_seal(k, n, truncated(d)));
            assert(aes256gcm_seal(key@, nonce@, truncated(d)) == body@);
            assert(truncated(d).len() <= aes_gcm_p_max());
        }
    }
    match res {
        Some(p) => Ok(p),
        None => Err(CryptoError::Decryption),
    }
}

/// A random key of `length` bytes, as lower-case hex text.
pub fn generate_key(length: usize) -> (res: String)
    ensures
        exists|b: Seq<u8>| b.len() == length && res@ == #[trigger] hex_encode_spec(b),
        hex_decode_spec(res@) matches Some(b) && b.len() == length,
{
    let key = random_bytes(length);
    let res = bytes_to_hex(key.as_slice());
    proof {
        lemma_hex_roundtrip(key@);
    }
    res
}

} // verus!
