//! The encryption envelope and the master-password verification hash.
//!
//! `encrypt` derives a fresh 32-byte key from the password and a random
//! 16-byte salt with PBKDF2-HMAC-SHA-256 (100,000 iterations), encrypts the
//! content under AES-256-GCM with a random 12-byte nonce, and frames the
//! result as `base64(salt || nonce || ciphertext-with-tag)`. `decrypt`
//! inverts that framing and re-derives the key. `hash_password` is the
//! deterministic SHA-256 verification hash, encoded as lowercase hex.
//!
//! The outside primitives (PBKDF2, AES-GCM, SHA-256, base64, the system
//! randomness) are reached through trusted wrappers; everything around them
//! is verified against names for their results.

use aes_gcm::aead::Aead;
use aes_gcm::aead::KeyInit;
use aes_gcm::Aes256Gcm;
use aes_gcm::Nonce;
use base64::Engine;
use rand::RngCore;
use sha2::Digest;
use vstd::prelude::*;
use vstd::utf8::{encode_utf8, decode_utf8, valid_utf8, encode_utf8_valid_utf8};

use crate::text::lemma_encode_utf8_injective;

verus! {

/// How an envelope operation fails. `DecryptionFailed` covers both a wrong
/// password and tampered data, on purpose: the caller must not be able to
/// tell them apart.
#[derive(Clone, Copy, Debug, PartialEq, Eq, Structural)]
pub enum CryptoError {
    EncryptionFailed,
    DecryptionFailed,
    InvalidFormat,
}

pub const SALT_LENGTH: usize = 16;

pub const NONCE_LENGTH: usize = 12;

pub const KEY_LENGTH: usize = 32;

/// Content larger than this is refused by `encrypt`; it keeps every length
/// that the envelope computes comfortably inside the AEAD's message limit
/// and the address space of any target.
pub const MAX_PLAINTEXT_BYTES: usize = 0x4000_0000;

/// The 32-byte key that PBKDF2-HMAC-SHA-256 with 100,000 iterations derives
/// from a password and a salt.
pub uninterp spec fn pbkdf2_key_of(password: Seq<u8>, salt: Seq<u8>) -> Seq<u8>;

/// The ciphertext-with-tag that AES-256-GCM produces for a key, a nonce and
/// a plaintext. Encryption is a deterministic function of those three.
pub uninterp spec fn aes256gcm_ct_of(key: Seq<u8>, nonce: Seq<u8>, plaintext: Seq<u8>) -> Seq<u8>;

/// What AES-256-GCM decryption returns for a key, a nonce and a
/// ciphertext-with-tag: the plaintext, or `None` when the authentication
/// tag does not verify.
pub uninterp spec fn aes256gcm_pt_of(key: Seq<u8>, nonce: Seq<u8>, ciphertext: Seq<u8>) -> Option<
    Seq<u8>,
>;

/// The SHA-256 digest of a byte sequence.
pub uninterp spec fn sha256_of(bytes: Seq<u8>) -> Seq<u8>;

/// The standard (padded) base64 encoding of a byte sequence.
pub uninterp spec fn base64_of(bytes: Seq<u8>) -> Seq<char>;

/// What strict standard base64 decoding returns: the decoded bytes, or
/// `None` when the text is not a canonical base64 encoding.
pub uninterp spec fn base64_decoded(text: Seq<char>) -> Option<Seq<u8>>;

/// The lowercase hex digit for a value below 16.
pub open spec fn hex_digit(n: u8) -> char
    recommends
        n < 16,
{
    if n < 10 {
        (48 + n) as char
    } else {
        (87 + n) as char
    }
}

/// Lowercase hex encoding: two digits for each byte, high nibble first.
pub open spec fn hex_of(bytes: Seq<u8>) -> Seq<char> {
    Seq::new(
        bytes.len() * 2,
        |i: int|
            if i % 2 == 0 {
                hex_digit((bytes[i / 2] / 16) as u8)
            } else {
                hex_digit((bytes[i / 2] % 16) as u8)
            },
    )
}

/// The verification hash of a password: SHA-256 over its UTF-8 bytes,
/// encoded as lowercase hex.
pub open spec fn password_hash_of(password: Seq<char>) -> Seq<char> {
    hex_of(sha256_of(encode_utf8(password)))
}

/// Relies on `rand`'s `OsRng::fill_bytes`: `n` bytes from the operating
/// system's randomness. Nothing is assumed of their values.
#[verifier::external_body]
fn random_bytes(n: usize) -> (r: Vec<u8>)
    ensures
        r@.len() == n,
{
    let mut v = vec![0u8; n];
    rand::rngs::OsRng.fill_bytes(&mut v);
    v
}

/// Relies on `pbkdf2::pbkdf2_hmac` with SHA-256: the derived key is a
/// function of the password and the salt alone; 32 bytes are requested.
#[verifier::external_body]
fn derive_key(password: &[u8], salt: &[u8]) -> (r: Vec<u8>)
    ensures
        r@ == pbkdf2_key_of(password@, salt@),
        r@.len() == KEY_LENGTH,
{
    let mut key = [0u8; 32];
    pbkdf2::pbkdf2_hmac::<sha2::Sha256>(password, salt, 100_000, &mut key);
    key.to_vec()
}

/// Relies on `aes_gcm::Aes256Gcm`: with a 32-byte key, a 12-byte nonce and
/// a plaintext within the AEAD's limit, encryption succeeds, appends a
/// 16-byte tag, and is a deterministic function of its three inputs.
#[verifier::external_body]
fn aes_gcm_encrypt(key: &[u8], nonce: &[u8], plaintext: &[u8]) -> (r: Vec<u8>)
    requires
        key@.len() == KEY_LENGTH,
        nonce@.len() == NONCE_LENGTH,
        plaintext@.len() <= MAX_PLAINTEXT_BYTES,
    ensures
        r@ == aes256gcm_ct_of(key@, nonce@, plaintext@),
        r@.len() == plaintext@.len() + 16,
{
    let cipher = Aes256Gcm::new_from_slice(key).expect("key is 32 bytes");
    cipher.encrypt(Nonce::from_slice(nonce), plaintext).expect("plaintext is within the AEAD limit")
}

/// Relies on `aes_gcm::Aes256Gcm`: decryption returns the plaintext exactly
/// when the authentication tag verifies, strips the 16-byte tag, and
/// inverts encryption under the same key and nonce.
#[verifier::external_body]
fn aes_gcm_decrypt(key: &[u8], nonce: &[u8], ciphertext: &[u8]) -> (r: Option<Vec<u8>>)
    requires
        key@.len() == KEY_LENGTH,
        nonce@.len() == NONCE_LENGTH,
    ensures
        r is Some <==> aes256gcm_pt_of(key@, nonce@, ciphertext@) is Some,
        r matches Some(v) ==> aes256gcm_pt_of(key@, nonce@, ciphertext@) == Some(v@) && v@.len()
            + 16 == ciphertext@.len(),
        r matches Some(v) ==> forall|pt: Seq<u8>|
            pt.len() <= MAX_PLAINTEXT_BYTES && ciphertext@ == aes256gcm_ct_of(key@, nonce@, pt)
                ==> v@ == pt,
        r is None ==> forall|pt: Seq<u8>|
            pt.len() <= MAX_PLAINTEXT_BYTES ==> ciphertext@ != aes256gcm_ct_of(key@, nonce@, pt),
{
    let cipher = Aes256Gcm::new_from_slice(key).expect("key is 32 bytes");
    match cipher.decrypt(Nonce::from_slice(nonce), ciphertext) {
        Ok(v) => Some(v),
        Err(_) => None,
    }
}

/// Relies on `sha2::Sha256`: the 32-byte digest is a function of the input
/// bytes alone.
#[verifier::external_body]
fn sha256_digest(data: &[u8]) -> (r: Vec<u8>)
    ensures
        r@ == sha256_of(data@),
        r@.len() == 32,
{
    let mut hasher = sha2::Sha256::new();
    hasher.update(data);
    hasher.finalize().to_vec()
}

/// Relies on `hex::encode`: lowercase hex, two digits per byte, high nibble
/// first, exactly as `hex_of` states.
#[verifier::external_body]
fn hex_encode(data: &[u8]) -> (r: String)
    ensures
        r@ == hex_of(data@),
{
    hex::encode(data)
}

/// Relies on `base64`'s `STANDARD` engine: padded standard-alphabet
/// encoding, a function of the input bytes alone; strict decoding gives
/// the input back.
#[verifier::external_body]
fn base64_encode(data: &[u8]) -> (r: String)
    requires
        data@.len() <= usize::MAX / 2,
    ensures
        r@ == base64_of(data@),
        base64_decoded(r@) == Some(data@),
{
    base64::engine::general_purpose::STANDARD.encode(data)
}

/// Relies on `base64`'s `STANDARD` engine: strict decoding succeeds exactly
/// on canonical encodings and inverts `STANDARD` encoding.
#[verifier::external_body]
fn base64_decode(text: &str) -> (r: Option<Vec<u8>>)
    ensures
        r is Some <==> base64_decoded(text@) is Some,
        r matches Some(v) ==> base64_decoded(text@) == Some(v@),
        r matches Some(v) ==> forall|b: Seq<u8>| text@ == base64_of(b) ==> v@ == b,
        r is None ==> forall|b: Seq<u8>| text@ != base64_of(b),
{
    match base64::engine::general_purpose::STANDARD.decode(text) {
        Ok(v) => Some(v),
        Err(_) => None,
    }
}

/// Relies on `String::from_utf8`: succeeds exactly on valid UTF-8 and
/// returns the string those bytes encode.
#[verifier::external_body]
fn bytes_to_string(bytes: Vec<u8>) -> (r: Option<String>)
    ensures
        r is Some <==> valid_utf8(bytes@),
        r matches Some(s) ==> encode_utf8(s@) == bytes@,
{
    match String::from_utf8(bytes) {
        Ok(s) => Some(s),
        Err(_) => None,
    }
}

/// The byte image of an envelope: salt, then nonce, then the AES-256-GCM
/// ciphertext-with-tag under the key derived from the password and salt.
pub open spec fn envelope_bytes(
    salt: Seq<u8>,
    nonce: Seq<u8>,
    plaintext: Seq<u8>,
    password: Seq<char>,
) -> Seq<u8> {
    salt + nonce + aes256gcm_ct_of(pbkdf2_key_of(encode_utf8(password), salt), nonce, plaintext)
}

/// `env` is the envelope that encrypting `plaintext` under `password` with
/// the given salt and nonce produces.
pub open spec fn is_envelope_of(
    env: Seq<char>,
    plaintext: Seq<char>,
    password: Seq<char>,
    salt: Seq<u8>,
    nonce: Seq<u8>,
) -> bool {
    &&& salt.len() == SALT_LENGTH
    &&& nonce.len() == NONCE_LENGTH
    &&& env == base64_of(envelope_bytes(salt, nonce, encode_utf8(plaintext), password))
}

/// What decryption returns for an envelope and a password, as a function of
/// the named outside results: `InvalidFormat` when the base64 framing or the
/// length is wrong, `DecryptionFailed` when the tag or the UTF-8 decoding
/// fails, and the plaintext otherwise.
pub open spec fn decrypt_result(env: Seq<char>, password: Seq<char>) -> Result<
    Seq<char>,
    CryptoError,
> {
    match base64_decoded(env) {
        Option::None => Err(CryptoError::InvalidFormat),
        Option::Some(data) => {
            if data.len() < SALT_LENGTH + NONCE_LENGTH {
                Err(CryptoError::InvalidFormat)
            } else {
                let salt = data.subrange(0, SALT_LENGTH as int);
                let nonce = data.subrange(SALT_LENGTH as int, (SALT_LENGTH + NONCE_LENGTH) as int);
                let ct = data.skip((SALT_LENGTH + NONCE_LENGTH) as int);
                match aes256gcm_pt_of(pbkdf2_key_of(encode_utf8(password), salt), nonce, ct) {
                    Option::None => Err(CryptoError::DecryptionFailed),
                    Option::Some(pt) => {
                        if valid_utf8(pt) {
                            Ok(decode_utf8(pt))
                        } else {
                            Err(CryptoError::DecryptionFailed)
                        }
                    },
                }
            }
        },
    }
}

/// Encrypts `content` under `password`: fresh random salt and nonce, a key
/// derived from the password and salt, AES-256-GCM, and base64 framing.
///
/// Succeeds on every content within `MAX_PLAINTEXT_BYTES`; the envelope it
/// returns is the encryption of `content` for some salt and nonce of the
/// right lengths, so `decrypt` with the same password returns `content`.
/// The envelope base64-decodes to salt, nonce and ciphertext-with-tag,
/// 16 + 12 + (content bytes + 16) bytes in all.
pub fn encrypt(content: &str, password: &str) -> (r: Result<String, CryptoError>)
    ensures
        r is Ok <==> encode_utf8(content@).len() <= MAX_PLAINTEXT_BYTES,
        r matches Ok(env) ==> exists|salt: Seq<u8>, nonce: Seq<u8>|
            #![auto]
            is_envelope_of(env@, content@, password@, salt, nonce) && base64_decoded(env@)
                == Some(envelope_bytes(salt, nonce, encode_utf8(content@), password@))
                && envelope_bytes(salt, nonce, encode_utf8(content@), password@).len()
                == SALT_LENGTH + NONCE_LENGTH + encode_utf8(content@).len() + 16,
        r is Err ==> r == Err::<String, CryptoError>(CryptoError::EncryptionFailed),
{
    let content_bytes = content.as_bytes();
    if content_bytes.len() > MAX_PLAINTEXT_BYTES {
        return Err(CryptoError::EncryptionFailed);
    }
    let mut salt = random_bytes(SALT_LENGTH);
    let mut nonce = random_bytes(NONCE_LENGTH);
    let ghost gsalt = salt@;
    let ghost gnonce = nonce@;
    let key = derive_key(password.as_bytes(), salt.as_slice());
    let mut ciphertext = aes_gcm_encrypt(key.as_slice(), nonce.as_slice(), content_bytes);
    let ghost gct = ciphertext@;
    let mut combined: Vec<u8> = Vec::new();
    combined.append(&mut salt);
    combined.append(&mut nonce);
    combined.append(&mut ciphertext);
    proof {
        assert(combined@ =~= gsalt + gnonce + gct);
    }
    let env = base64_encode(combined.as_slice());
    let r: Result<String, CryptoError> = Ok(env);
    proof {
        let renv = r->Ok_0;
        assert(is_envelope_of(renv@, content@, password@, gsalt, gnonce));
        assert(base64_decoded(renv@) == Some(
            envelope_bytes(gsalt, gnonce, encode_utf8(content@), password@),
        ));
        assert(envelope_bytes(gsalt, gnonce, encode_utf8(content@), password@).len()
            == SALT_LENGTH + NONCE_LENGTH + encode_utf8(content@).len() + 16);
    }
    r
}

/// Decrypts an envelope produced by `encrypt`. Returns exactly
/// `decrypt_result(encrypted@, password@)`; in particular, for every
/// envelope that `encrypt` built from some plaintext under this password,
/// it returns that plaintext (the round trip).
pub fn decrypt(encrypted: &str, password: &str) -> (r: Result<String, CryptoError>)
    ensures
        r matches Ok(s) ==> decrypt_result(encrypted@, password@) == Ok::<Seq<char>, CryptoError>(
            s@,
        ),
        r matches Err(e) ==> decrypt_result(encrypted@, password@) == Err::<Seq<char>, CryptoError>(
            e,
        ),
        forall|pt: Seq<char>, salt: Seq<u8>, nonce: Seq<u8>|
            is_envelope_of(encrypted@, pt, password@, salt, nonce) && encode_utf8(pt).len()
                <= MAX_PLAINTEXT_BYTES ==> (r matches Ok(s) && s@ == pt),
{
    let data = match base64_decode(encrypted) {
        Some(v) => v,
        None => {
            return Err(CryptoError::InvalidFormat);
        },
    };
    if data.len() < SALT_LENGTH + NONCE_LENGTH {
        proof {
            assert forall|pt: Seq<char>, esalt: Seq<u8>, enonce: Seq<u8>|
                !(is_envelope_of(encrypted@, pt, password@, esalt, enonce) && encode_utf8(
                    pt,
                ).len() <= MAX_PLAINTEXT_BYTES) by {
                if is_envelope_of(encrypted@, pt, password@, esalt, enonce) {
                    lemma_envelope_split(
                        envelope_bytes(esalt, enonce, encode_utf8(pt), password@),
                        esalt,
                        enonce,
                        encode_utf8(pt),
                        password@,
                    );
                }
            }
        }
        return Err(CryptoError::InvalidFormat);
    }
    let salt = vstd::slice::slice_subrange(data.as_slice(), 0, SALT_LENGTH);
    let nonce = vstd::slice::slice_subrange(data.as_slice(), SALT_LENGTH, SALT_LENGTH + NONCE_LENGTH);
    let ct = vstd::slice::slice_subrange(data.as_slice(), SALT_LENGTH + NONCE_LENGTH, data.len());
    let key = derive_key(password.as_bytes(), salt);
    let plain_bytes = match aes_gcm_decrypt(key.as_slice(), nonce, ct) {
        Some(v) => v,
        None => {
            proof {
                assert forall|pt: Seq<char>, esalt: Seq<u8>, enonce: Seq<u8>|
                    !(is_envelope_of(encrypted@, pt, password@, esalt, enonce) && encode_utf8(
                        pt,
                    ).len() <= MAX_PLAINTEXT_BYTES) by {
                    if is_envelope_of(encrypted@, pt, password@, esalt, enonce) {
                        lemma_envelope_split(data@, esalt, enonce, encode_utf8(pt), password@);
                    }
                }
            }
            return Err(CryptoError::DecryptionFailed);
        },
    };
    match bytes_to_string(plain_bytes) {
        Some(s) => {
            proof {
                vstd::utf8::encode_utf8_decode_utf8(s@);
                assert forall|pt: Seq<char>, esalt: Seq<u8>, enonce: Seq<u8>|
                    is_envelope_of(encrypted@, pt, password@, esalt, enonce) && encode_utf8(
                        pt,
                    ).len() <= MAX_PLAINTEXT_BYTES implies s@ == pt by {
                    lemma_envelope_split(data@, esalt, enonce, encode_utf8(pt), password@);
                    lemma_encode_utf8_injective(s@, pt);
                }
            }
            Ok(s)
        },
        None => {
            proof {
                assert forall|pt: Seq<char>, esalt: Seq<u8>, enonce: Seq<u8>|
                    !(is_envelope_of(encrypted@, pt, password@, esalt, enonce) && encode_utf8(
                        pt,
                    ).len() <= MAX_PLAINTEXT_BYTES) by {
                    if is_envelope_of(encrypted@, pt, password@, esalt, enonce) {
                        lemma_envelope_split(data@, esalt, enonce, encode_utf8(pt), password@);
                        encode_utf8_valid_utf8(pt);
                    }
                }
            }
            Err(CryptoError::DecryptionFailed)
        },
    }
}

/// Splitting the byte image of a well-formed envelope at the salt and nonce
/// boundaries gives back the salt, the nonce and the ciphertext it was
/// built from.
proof fn lemma_envelope_split(
    data: Seq<u8>,
    salt: Seq<u8>,
    nonce: Seq<u8>,
    plaintext: Seq<u8>,
    password: Seq<char>,
)
    requires
        salt.len() == SALT_LENGTH,
        nonce.len() == NONCE_LENGTH,
        data == envelope_bytes(salt, nonce, plaintext, password),
    ensures
        data.len() >= SALT_LENGTH + NONCE_LENGTH,
        data.subrange(0, SALT_LENGTH as int) == salt,
        data.subrange(SALT_LENGTH as int, (SALT_LENGTH + NONCE_LENGTH) as int) == nonce,
        data.skip((SALT_LENGTH + NONCE_LENGTH) as int) == aes256gcm_ct_of(
            pbkdf2_key_of(encode_utf8(password), salt),
            nonce,
            plaintext,
        ),
{
    let ct = aes256gcm_ct_of(pbkdf2_key_of(encode_utf8(password), salt), nonce, plaintext);
    assert(data.subrange(0, SALT_LENGTH as int) =~= salt);
    assert(data.subrange(SALT_LENGTH as int, (SALT_LENGTH + NONCE_LENGTH) as int) =~= nonce);
    assert(data.skip((SALT_LENGTH + NONCE_LENGTH) as int) =~= ct);
}

/// The deterministic verification hash of the master password: SHA-256 over
/// its UTF-8 bytes, as 64 lowercase hex characters.
pub fn hash_password(password: &str) -> (r: String)
    ensures
        r@ == password_hash_of(password@),
        r@.len() == 64,
{
    let digest = sha256_digest(password.as_bytes());
    hex_encode(digest.as_slice())
}

/// Recomputes the verification hash and compares. True exactly when `hash`
/// is the verification hash of `password`; with it, `verify_password(p,
/// hash_password(p))` always holds.
pub fn verify_password(password: &str, hash: &str) -> (r: bool)
    ensures
        r == (password_hash_of(password@) == hash@),
{
    let computed = hash_password(password);
    crate::text::str_eq(computed.as_str(), hash)
}

} // verus!
