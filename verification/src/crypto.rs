//! Cryptographic primitives of the vault: password hashing and
//! verification, key derivation, authenticated encryption of text
//! fields, and random generation of salts and passwords.
//!
//! The actual cryptography is performed by outside crates behind small
//! trusted wrappers; everything above the wrappers is verified.  The
//! results of the deterministic outside computations are given names
//! (`b64_encoding`, `aead_opened`, `derived_key`, ...) that the
//! contracts of the verified functions speak of exactly.

use vstd::prelude::*;

use aes_gcm::aead::{Aead, AeadCore, KeyInit};
use argon2::password_hash::{PasswordHash, PasswordHasher, PasswordVerifier, SaltString};

verus! {

/// The error kinds the cryptographic layer can report.
#[derive(Clone, Copy, Debug, PartialEq, Eq, Structural)]
pub enum CryptoError {
    /// Authenticated encryption itself failed (internal failure of the cipher).
    EncryptionError,
    /// The authentication tag check failed (wrong key, tampered data, or a
    /// nonce of the wrong length), or the decrypted bytes were not valid text.
    DecryptionError,
    /// Password hashing, hash parsing, or key derivation failed.
    HashingError,
    /// Malformed base64 input.
    EncodingError,
}

/// A single encrypted field: ciphertext and nonce, both base64 text.
#[derive(Debug)]
pub struct EncryptedData {
    pub ciphertext: String,
    pub nonce: String,
}

/// The standard base64 encoding of a byte string, as `base64`'s
/// `STANDARD` engine produces it.
pub uninterp spec fn b64_encoding(bytes: Seq<u8>) -> Seq<char>;

/// What `base64`'s `STANDARD` engine decodes a text to: `None` where
/// the text is not valid base64.
pub uninterp spec fn b64_decoding(text: Seq<char>) -> Option<Seq<u8>>;

/// What AES-256-GCM decryption of `ciphertext` under `key` and `nonce`
/// opens to, read as UTF-8 text: `None` where the authentication tag
/// check fails or the decrypted bytes are not valid UTF-8.
pub uninterp spec fn aead_opened(key: Seq<u8>, nonce: Seq<u8>, ciphertext: Seq<u8>) -> Option<
    Seq<char>,
>;

/// Whether Argon2 verification of `password` against the PHC hash
/// string `hash` succeeds.
pub uninterp spec fn password_verifies(password: Seq<char>, hash: Seq<char>) -> bool;

/// Whether `hash` parses as a PHC password-hash string.
pub uninterp spec fn phc_parses(hash: Seq<char>) -> bool;

/// The 32-byte key that Argon2 derives from a password and a 16-byte
/// salt: a function of the two alone.
pub uninterp spec fn derived_key(password: Seq<char>, salt: Seq<u8>) -> Seq<u8>;

/// Passwords handed to Argon2 must stay under its 2^32 - 1 byte input
/// limit; a character is at most four UTF-8 bytes.
pub open spec fn password_len_ok(password: Seq<char>) -> bool {
    password.len() < 0x4000_0000
}

/// Relies on `base64::engine::general_purpose::STANDARD.encode`: the
/// encoding is a function of the bytes alone, and decoding it with the
/// same engine gives the bytes back (the engine's documented round trip).
#[verifier::external_body]
pub(crate) fn b64_encode(bytes: &[u8]) -> (r: String)
    ensures
        r@ == b64_encoding(bytes@),
        b64_decoding(r@) == Some(bytes@),
{
    base64::Engine::encode(&base64::engine::general_purpose::STANDARD, bytes)
}

/// Relies on `base64::engine::general_purpose::STANDARD.decode`: the
/// result is a function of the text alone; decoding fails exactly on
/// text that is not valid base64.
#[verifier::external_body]
pub(crate) fn b64_decode(text: &str) -> (r: Result<Vec<u8>, CryptoError>)
    ensures
        r is Ok <==> b64_decoding(text@) is Some,
        r matches Ok(b) ==> b64_decoding(text@) == Some(b@),
        r matches Err(e) ==> e == CryptoError::EncodingError,
{
    match base64::Engine::decode(&base64::engine::general_purpose::STANDARD, text) {
        Ok(b) => Ok(b),
        Err(_) => Err(CryptoError::EncodingError),
    }
}

/// Relies on `aes_gcm::Aes256Gcm`: `generate_nonce` draws a random
/// 96-bit nonce from the operating system's generator, and `encrypt`
/// produces a ciphertext that `decrypt` under the same key and nonce
/// opens back to the plaintext (the AEAD round trip).  The plaintext
/// goes in as UTF-8 bytes, and the sealed bytes are those bytes'
/// number plus the 16 of the appended authentication tag.  Encryption
/// fails only on the cipher's message-length cap of 2^36 bytes, so a
/// plaintext within it is always sealed.
#[verifier::external_body]
fn aead_seal(plaintext: &str, key: &[u8]) -> (r: Result<(Vec<u8>, Vec<u8>), CryptoError>)
    requires
        key@.len() == 32,
    ensures
        vstd::utf8::encode_utf8(plaintext@).len() <= 0x10_0000_0000 ==> r is Ok,
        r matches Ok((nonce, ciphertext)) ==> nonce@.len() == 12 && ciphertext@.len()
            == vstd::utf8::encode_utf8(plaintext@).len() + 16 && aead_opened(
            key@,
            nonce@,
            ciphertext@,
        ) == Some(plaintext@),
        r matches Err(e) ==> e == CryptoError::EncryptionError,
{
    let cipher = aes_gcm::Aes256Gcm::new(aes_gcm::Key::<aes_gcm::Aes256Gcm>::from_slice(key));
    let nonce = aes_gcm::Aes256Gcm::generate_nonce(&mut aes_gcm::aead::OsRng);
    match cipher.encrypt(&nonce, plaintext.as_bytes()) {
        Ok(ciphertext) => Ok((nonce.to_vec(), ciphertext)),
        Err(_) => Err(CryptoError::EncryptionError),
    }
}

/// Relies on `aes_gcm::Aes256Gcm::decrypt`, whose result is a function
/// of key, nonce and ciphertext alone, together with
/// `String::from_utf8` on the decrypted bytes: exactly the
/// `aead_opened` of the inputs.
#[verifier::external_body]
fn aead_open(key: &[u8], nonce: &[u8], ciphertext: &[u8]) -> (r: Result<String, CryptoError>)
    requires
        key@.len() == 32,
        nonce@.len() == 12,
    ensures
        r is Ok <==> aead_opened(key@, nonce@, ciphertext@) is Some,
        r matches Ok(s) ==> aead_opened(key@, nonce@, ciphertext@) == Some(s@),
        r matches Err(e) ==> e == CryptoError::DecryptionError,
{
    let cipher = aes_gcm::Aes256Gcm::new(aes_gcm::Key::<aes_gcm::Aes256Gcm>::from_slice(key));
    let plaintext = cipher
        .decrypt(aes_gcm::Nonce::from_slice(nonce), ciphertext)
        .map_err(|_| CryptoError::DecryptionError)?;
    String::from_utf8(plaintext).map_err(|_| CryptoError::DecryptionError)
}

/// Relies on `argon2::Argon2::hash_password` with a salt freshly drawn
/// by `SaltString::generate`: whatever salt was drawn, the produced PHC
/// string parses back, and verification of the same password against it
/// succeeds (the password-hash round trip).  With the generated salt
/// (16 bytes, well within every limit) and a password under the length
/// cap, the crate has no failure path, so the call succeeds.
#[verifier::external_body]
fn argon2_hash(password: &str) -> (r: Result<String, CryptoError>)
    requires
        password_len_ok(password@),
    ensures
        r is Ok,
        r matches Ok(h) ==> phc_parses(h@) && password_verifies(password@, h@),
{
    let salt = SaltString::generate(&mut argon2::password_hash::rand_core::OsRng);
    match argon2::Argon2::default().hash_password(password.as_bytes(), &salt) {
        Ok(hash) => Ok(hash.to_string()),
        Err(_) => Err(CryptoError::HashingError),
    }
}

/// Relies on `argon2::password_hash::PasswordHash::new`, which parses
/// exactly the well-formed PHC strings, and on
/// `argon2::Argon2::verify_password`, whose outcome is a function of
/// the password and the parsed hash alone.
#[verifier::external_body]
fn argon2_verify(password: &str, hash: &str) -> (r: Result<bool, CryptoError>)
    requires
        password_len_ok(password@),
    ensures
        r is Ok <==> phc_parses(hash@),
        r matches Ok(b) ==> b == password_verifies(password@, hash@),
        r matches Err(e) ==> e == CryptoError::HashingError,
{
    let parsed_hash = match PasswordHash::new(hash) {
        Ok(h) => h,
        Err(_) => {
            return Err(CryptoError::HashingError);
        },
    };
    Ok(argon2::Argon2::default().verify_password(password.as_bytes(), &parsed_hash).is_ok())
}

/// Relies on `argon2::Argon2::hash_password_into`, a deterministic
/// function of password and salt, applied to the B64 re-encoding of the
/// 16-byte salt that `SaltString::encode_b64` produces (a 22-byte
/// encoded salt, within every documented length limit, so none of the
/// crate's parameter checks can fail).
#[verifier::external_body]
fn argon2_derive(password: &str, salt: &[u8]) -> (r: Result<[u8; 32], CryptoError>)
    requires
        salt@.len() == 16,
        password_len_ok(password@),
    ensures
        r is Ok,
        r matches Ok(k) ==> k@ == derived_key(password@, salt@),
{
    let salt_string = SaltString::encode_b64(salt).map_err(|_| CryptoError::HashingError)?;
    let mut key = [0u8; 32];
    argon2::Argon2::default()
        .hash_password_into(password.as_bytes(), salt_string.as_salt().as_str().as_bytes(), &mut key)
        .map_err(|_| CryptoError::HashingError)?;
    Ok(key)
}

/// Relies on `rand::rngs::OsRng::fill_bytes`, which fills the buffer
/// from the operating system's random generator; nothing can be said of
/// the bytes drawn.
#[verifier::external_body]
fn random_salt() -> [u8; 16] {
    let mut salt = [0u8; 16];
    rand::RngCore::fill_bytes(&mut rand::rngs::OsRng, &mut salt);
    salt
}

/// Relies on `rand::Rng::gen_range`, documented to return a uniformly
/// distributed value of the given range, here `0..bound`.
#[verifier::external_body]
fn random_index(bound: usize) -> (r: usize)
    requires
        bound > 0,
    ensures
        r < bound,
{
    rand::Rng::gen_range(&mut rand::rngs::OsRng, 0..bound)
}

/// What decrypting an [`EncryptedData`] under `key` yields: the exact
/// model of [`CryptoService::decrypt`], error kinds included.
pub open spec fn spec_decrypt(field: EncryptedData, key: Seq<u8>) -> Result<
    Seq<char>,
    CryptoError,
> {
    match b64_decoding(field.ciphertext@) {
        Option::None => Result::Err(CryptoError::EncodingError),
        Option::Some(ciphertext) => match b64_decoding(field.nonce@) {
            Option::None => Result::Err(CryptoError::EncodingError),
            Option::Some(nonce) => if nonce.len() != 12 {
                Result::Err(CryptoError::DecryptionError)
            } else {
                match aead_opened(key, nonce, ciphertext) {
                    Option::Some(plaintext) => Result::Ok(plaintext),
                    Option::None => Result::Err(CryptoError::DecryptionError),
                }
            },
        },
    }
}

/// The characters a generated password may draw from.
pub open spec fn password_charset(include_symbols: bool) -> Seq<char> {
    if include_symbols {
        base_charset() + symbol_charset()
    } else {
        base_charset()
    }
}

pub open spec fn base_charset() -> Seq<char> {
    "abcdefghijklmnopqrstuvwxyzABCDEFGHIJKLMNOPQRSTUVWXYZ0123456789"@
}

pub open spec fn symbol_charset() -> Seq<char> {
    "!@#$%^&*()_+-=[]{}|;:,.<>?"@
}

/// Stateless cryptographic engine: a pure function library over
/// explicit password, salt and key inputs.
pub struct CryptoService;

impl CryptoService {
    /// Hash a password with Argon2 under a fresh random salt, giving a
    /// self-describing PHC hash string that the same password verifies
    /// against.
    pub fn hash_password(password: &str) -> (r: Result<String, CryptoError>)
        requires
            password_len_ok(password@),
        ensures
            r is Ok,
            r matches Ok(h) ==> phc_parses(h@) && password_verifies(password@, h@),
    {
        argon2_hash(password)
    }

    /// Verify a password against a PHC hash string: `Ok(true)` exactly
    /// where the password matches, `HashingError` exactly where the
    /// hash string is malformed.
    pub fn verify_password(password: &str, hash: &str) -> (r: Result<bool, CryptoError>)
        requires
            password_len_ok(password@),
        ensures
            r is Ok <==> phc_parses(hash@),
            r matches Ok(b) ==> b == password_verifies(password@, hash@),
            r matches Err(e) ==> e == CryptoError::HashingError,
    {
        argon2_verify(password, hash)
    }

    /// Derive the vault's 32-byte symmetric key from a password and a
    /// 16-byte salt: deterministic, so the same pair always rehydrates
    /// the same key.
    pub fn derive_key_from_password(password: &str, salt: &[u8]) -> (r: Result<
        [u8; 32],
        CryptoError,
    >)
        requires
            salt@.len() == 16,
            password_len_ok(password@),
        ensures
            r is Ok,
            r matches Ok(k) ==> k@ == derived_key(password@, salt@),
    {
        argon2_derive(password, salt)
    }

    /// Generate a fresh random 16-byte salt.
    pub fn generate_salt() -> [u8; 16] {
        random_salt()
    }

    /// Encrypt a text under the key with a freshly drawn random nonce:
    /// decrypting the returned field under the same key gives the text
    /// back.  The field's ciphertext decodes to the text's UTF-8 bytes
    /// plus the 16-byte authentication tag, its nonce to 12 bytes.  A
    /// text within the cipher's 2^36-byte cap is always encrypted.
    pub fn encrypt(data: &str, key: &[u8; 32]) -> (r: Result<EncryptedData, CryptoError>)
        ensures
            vstd::utf8::encode_utf8(data@).len() <= 0x10_0000_0000 ==> r is Ok,
            r matches Ok(field) ==> spec_decrypt(field, key@) == Result::<_, CryptoError>::Ok(
                data@,
            ),
            r matches Ok(field) ==> (b64_decoding(field.ciphertext@) matches Some(ct) && ct.len()
                == vstd::utf8::encode_utf8(data@).len() + 16),
            r matches Ok(field) ==> (b64_decoding(field.nonce@) matches Some(n) && n.len() == 12),
            r matches Err(e) ==> e == CryptoError::EncryptionError,
    {
        match aead_seal(data, key.as_slice()) {
            Ok((nonce, ciphertext)) => Ok(
                EncryptedData {
                    ciphertext: b64_encode(ciphertext.as_slice()),
                    nonce: b64_encode(nonce.as_slice()),
                },
            ),
            Err(e) => Err(e),
        }
    }

    /// Decrypt an encrypted field under the key.  The result is exactly
    /// [`spec_decrypt`] of the inputs: malformed base64 is an
    /// `EncodingError`; a nonce of the wrong length, a failed
    /// authentication tag check, and non-text plaintext are a
    /// `DecryptionError`.
    pub fn decrypt(encrypted_data: &EncryptedData, key: &[u8; 32]) -> (r: Result<
        String,
        CryptoError,
    >)
        ensures
            r matches Ok(s) ==> spec_decrypt(*encrypted_data, key@) == Result::<
                _,
                CryptoError,
            >::Ok(s@),
            r matches Err(e) ==> spec_decrypt(*encrypted_data, key@) == Result::<
                Seq<char>,
                _,
            >::Err(e),
    {
        let ciphertext = match b64_decode(encrypted_data.ciphertext.as_str()) {
            Ok(b) => b,
            Err(e) => {
                return Err(e);
            },
        };
        let nonce = match b64_decode(encrypted_data.nonce.as_str()) {
            Ok(b) => b,
            Err(e) => {
                return Err(e);
            },
        };
        if nonce.len() != 12 {
            return Err(CryptoError::DecryptionError);
        }
        aead_open(key.as_slice(), nonce.as_slice(), ciphertext.as_slice())
    }

    /// Generate a random password of the asked-for length, each
    /// character drawn without bias from the letters-and-digits
    /// charset, extended with the fixed symbol set when asked.
    pub fn generate_password(length: usize, include_symbols: bool) -> (r: String)
        ensures
            r@.len() == length,
            forall|i: int|
                0 <= i < r@.len() ==> password_charset(include_symbols).contains(#[trigger] r@[i]),
    {
        proof {
            reveal_strlit("abcdefghijklmnopqrstuvwxyzABCDEFGHIJKLMNOPQRSTUVWXYZ0123456789");
        }
        let mut charset: String = "abcdefghijklmnopqrstuvwxyzABCDEFGHIJKLMNOPQRSTUVWXYZ0123456789".to_owned();
        if include_symbols {
            charset.append("!@#$%^&*()_+-=[]{}|;:,.<>?");
        }
        proof {
            assert(charset@ == password_charset(include_symbols));
        }
        let charset_len = charset.as_str().unicode_len();
        let mut password = String::new();
        let mut i: usize = 0;
        while i < length
            invariant
                0 <= i <= length,
                password@.len() == i,
                charset@ == password_charset(include_symbols),
                charset_len == charset@.len(),
                charset_len > 0,
                forall|j: int|
                    0 <= j < password@.len() ==> password_charset(include_symbols).contains(
                        #[trigger] password@[j],
                    ),
            decreases length - i,
        {
            let idx = random_index(charset_len);
            let one = charset.as_str().substring_char(idx, idx + 1);
            proof {
                assert(one@[0] == charset@[idx as int]);
                assert(password_charset(include_symbols).contains(charset@[idx as int]));
            }
            password.append(one);
            i = i + 1;
        }
        password
    }
}

/// A hash produced from a password verifies that password: the fact
/// `hash_password` promises of its result is exactly the one
/// `verify_password` reports back.
pub proof fn lemma_hash_then_verify(password: Seq<char>, hash: Seq<char>, reported: bool)
    requires
        password_verifies(password, hash),
        reported == password_verifies(password, hash),
    ensures
        reported,
{
}

/// Key derivation is deterministic: two keys derived from the same
/// password and salt are the same key.
pub proof fn lemma_derived_key_deterministic(
    password: Seq<char>,
    salt: Seq<u8>,
    k1: Seq<u8>,
    k2: Seq<u8>,
)
    requires
        k1 == derived_key(password, salt),
        k2 == derived_key(password, salt),
    ensures
        k1 == k2,
{
}

/// The encryption round trip: a field that `encrypt` promises opens to
/// the plaintext is returned by `decrypt` as exactly that plaintext.
pub proof fn lemma_encrypt_decrypt_round_trip(
    field: EncryptedData,
    key: Seq<u8>,
    plaintext: Seq<char>,
    result: Result<Seq<char>, CryptoError>,
)
    requires
        spec_decrypt(field, key) == Result::<_, CryptoError>::Ok(plaintext),
        result == spec_decrypt(field, key),
    ensures
        result == Result::<_, CryptoError>::Ok(plaintext),
{
}

} // verus!
