//! Key derivation, authenticated encryption, the textual encoding of byte
//! fields, and the handle that owns key material.
//!
//! The primitives themselves (Argon2id, AES-256-GCM, base64, the operating
//! system's random source) are not implemented here. Each is reached through
//! one private function whose contract is taken on trust from the crate that
//! provides it; everything built on top of those contracts is proved.

use aes_gcm::aead::{Aead, KeyInit, OsRng};
use aes_gcm::{Aes256Gcm, Nonce};
use argon2::password_hash::rand_core::RngCore;
use argon2::password_hash::{PasswordHasher, SaltString};
use argon2::{Algorithm, Argon2, Params, Version};
use base64::engine::general_purpose::STANDARD;
use base64::Engine;
use vstd::prelude::*;
use vstd::utf8::encode_utf8;
use zeroize::Zeroize;

verus! {

/// Length of an AES-GCM nonce in bytes (96 bits).
pub const NONCE_SIZE: usize = 12;

/// Length of an AES-256 key in bytes.
pub const KEY_SIZE: usize = 32;

/// Length of the salt that is generated for every save, in bytes.
pub const SALT_SIZE: usize = 16;

/// Length of the authentication tag that follows the ciphertext, in bytes.
pub const TAG_SIZE: usize = 16;

/// What can go wrong in this module. The text carried by `KdfError` is for
/// display only; it is not part of the variant's identity.
#[derive(Debug, PartialEq, Eq)]
pub enum CryptoError {
    EncryptionFailed,
    DecryptionFailed,
    InvalidKey,
    KdfError(String),
    /// A text is not the base64 text of any byte string. This is an error
    /// of format; `DecryptionFailed` is kept for a message that no plaintext
    /// encrypts to.
    InvalidFormat,
}

impl CryptoError {
    /// The text that `message` returns.
    pub open spec fn message_text(self) -> Seq<char> {
        match self {
            CryptoError::EncryptionFailed => "Échec du chiffrement"@,
            CryptoError::DecryptionFailed =>
                "Échec du déchiffrement (mot de passe incorrect ou coffre corrompu)"@,
            CryptoError::InvalidKey => "Clé invalide"@,
            CryptoError::KdfError(detail) => "Erreur KDF: "@ + detail@,
            CryptoError::InvalidFormat => "Format invalide (base64 attendu)"@,
        }
    }

    /// Wording of the error for a user. A failed decryption names both
    /// possible causes, since the two cannot be told apart.
    pub fn message(&self) -> (text: String)
        ensures
            text@ == self.message_text(),
    {
        match self {
            CryptoError::EncryptionFailed => String::from_str("Échec du chiffrement"),
            CryptoError::DecryptionFailed => String::from_str(
                "Échec du déchiffrement (mot de passe incorrect ou coffre corrompu)",
            ),
            CryptoError::InvalidKey => String::from_str("Clé invalide"),
            CryptoError::KdfError(detail) => {
                String::from_str("Erreur KDF: ").concat(detail.as_str())
            },
            CryptoError::InvalidFormat => String::from_str("Format invalide (base64 attendu)"),
        }
    }
}

/// Cost parameters of the key derivation.
#[derive(Debug, Clone, Copy)]
pub struct CryptoParams {
    /// Number of passes over the memory.
    pub time_cost: u32,
    /// Memory size in KiB.
    pub memory_cost: u32,
    /// Number of lanes.
    pub parallelism: u32,
}

/// The default costs: two passes over 64 MiB in a single lane.
pub open spec fn default_params() -> CryptoParams {
    CryptoParams { time_cost: 2, memory_cost: 65536, parallelism: 1 }
}

impl Default for CryptoParams {
    /// Two passes over 64 MiB in a single lane.
    fn default() -> (params: Self)
        ensures
            params == default_params(),
    {
        Self { time_cost: 2, memory_cost: 65536, parallelism: 1 }
    }
}

/// `password_hash::SaltString`: a salt as unpadded base64 text of at most 64
/// characters. Nothing inside it is visible here.
#[verifier::external_type_specification]
#[verifier::external_body]
pub struct ExSaltString(SaltString);

/// `argon2::Params`: a set of costs that Argon2 has accepted. Nothing inside
/// it is visible here.
#[verifier::external_type_specification]
#[verifier::external_body]
pub struct ExArgon2Params(Params);

/// `password_hash::Error`, carried from the call that failed to the place
/// where its text is read.
#[verifier::external_type_specification]
#[verifier::external_body]
pub struct ExPasswordHashError(argon2::password_hash::Error);

/// `argon2::Error`, carried from the call that failed to the place where
/// its text is read.
#[verifier::external_type_specification]
#[verifier::external_body]
pub struct ExArgon2Error(argon2::Error);

/// The bytes that a salt string stands for: what decoding its text gives.
pub uninterp spec fn salt_string_bytes(salt: SaltString) -> Seq<u8>;

/// The memory cost, time cost, parallelism and output length that a
/// parameter set holds.
pub uninterp spec fn argon2_costs(params: Params) -> (u32, u32, u32, usize);

/// The 32-byte tag that Argon2id, version 0x13, computes for a password and
/// a salt under the given costs, with no secret and no associated data.
pub uninterp spec fn argon2id(
    password: Seq<u8>,
    salt: Seq<u8>,
    memory_cost: u32,
    time_cost: u32,
    parallelism: u32,
) -> Seq<u8>;

/// Longest salt whose encoding fits a salt string (64 characters).
pub const MAX_SALT_SIZE: usize = 48;

/// Shortest salt that Argon2 hashes.
pub const MIN_SALT_SIZE: usize = 8;

/// Shortest salt whose encoding is accepted as a salt string (4 characters).
pub const MIN_SALT_STRING_SIZE: usize = 3;

/// Largest number of lanes that Argon2 accepts.
pub const MAX_PARALLELISM: u32 = 0xFF_FFFF;

/// Longest password that Argon2 hashes, in bytes.
pub open spec fn max_password_len() -> int {
    0xFFFF_FFFF
}

/// The cost parameters that Argon2 accepts: at least 8 KiB of memory and at
/// least 8 KiB for each lane, at least one pass, between 1 and 2^24 - 1 lanes.
pub open spec fn kdf_params_valid(params: CryptoParams) -> bool {
    &&& params.memory_cost >= 8
    &&& params.memory_cost >= 8 * params.parallelism
    &&& params.time_cost >= 1
    &&& 1 <= params.parallelism <= MAX_PARALLELISM
}

/// The passwords and salts that Argon2 hashes: a password of at most
/// 2^32 - 1 bytes and a salt of at least 8 bytes.
pub open spec fn kdf_hashes(password: Seq<u8>, salt: Seq<u8>) -> bool {
    password.len() <= max_password_len() && salt.len() >= MIN_SALT_SIZE
}

/// The inputs from which a key is derived. Any other input is refused with
/// `KdfError`.
pub open spec fn kdf_accepts(password: Seq<char>, salt: Seq<u8>, params: CryptoParams) -> bool {
    &&& MIN_SALT_SIZE <= salt.len() <= MAX_SALT_SIZE
    &&& kdf_params_valid(params)
    &&& encode_utf8(password).len() <= max_password_len()
}

/// The key that belongs to a password, a salt and cost parameters.
pub open spec fn derived_key(password: Seq<char>, salt: Seq<u8>, params: CryptoParams) -> Seq<u8> {
    argon2id(
        encode_utf8(password),
        salt,
        params.memory_cost,
        params.time_cost,
        params.parallelism,
    )
}

/// What `derive_key` returns on given inputs.
pub open spec fn derive_key_post(
    password: Seq<char>,
    salt: Seq<u8>,
    params: CryptoParams,
    outcome: Result<Seq<u8>, CryptoError>,
) -> bool {
    match outcome {
        Ok(key) => {
            &&& kdf_accepts(password, salt, params)
            &&& key == derived_key(password, salt, params)
            &&& key.len() == KEY_SIZE
        },
        Err(e) => !kdf_accepts(password, salt, params) && e is KdfError,
    }
}

/// A result with the bytes it carries taken as a sequence.
pub open spec fn bytes_outcome(r: Result<Vec<u8>, CryptoError>) -> Result<Seq<u8>, CryptoError> {
    match r {
        Ok(bytes) => Ok(bytes@),
        Err(e) => Err(e),
    }
}

/// `SaltString::encode_b64`: encodes the salt as unpadded base64 into a
/// buffer of 64 characters. It fails exactly when the encoding does not fit,
/// that is for more than 48 bytes; a salt string that it returns decodes to
/// the salt it was given.
#[verifier::external_body]
fn salt_string_encode(salt: &[u8]) -> (r: Result<SaltString, argon2::password_hash::Error>)
    ensures
        r is Ok <==> salt@.len() <= MAX_SALT_SIZE,
        r matches Ok(s) ==> salt_string_bytes(s) == salt@,
{
    SaltString::encode_b64(salt)
}

/// The output lengths that Argon2 accepts: 4 to 2^32 - 1 bytes.
pub open spec fn kdf_output_len_valid(len: usize) -> bool {
    4 <= len <= 0xFFFF_FFFF
}

/// What `Params::new` accepts: costs and an output length within Argon2's
/// limits.
pub open spec fn argon2_accepts(
    memory_cost: u32,
    time_cost: u32,
    parallelism: u32,
    output_len: usize,
) -> bool {
    kdf_params_valid(CryptoParams { time_cost, memory_cost, parallelism })
        && kdf_output_len_valid(output_len)
}

/// `Params::new`: checks the costs and the output length against Argon2's
/// limits and keeps them. The product `8 * parallelism` is computed in 32
/// bits there, so larger lane counts are kept away from it.
#[verifier::external_body]
fn argon2_params_new(
    memory_cost: u32,
    time_cost: u32,
    parallelism: u32,
    output_len: usize,
) -> (r: Result<Params, argon2::Error>)
    requires
        8 * parallelism <= u32::MAX,
    ensures
        r is Ok <==> argon2_accepts(memory_cost, time_cost, parallelism, output_len),
        r matches Ok(p) ==> argon2_costs(p) == (memory_cost, time_cost, parallelism, output_len),
{
    Params::new(memory_cost, time_cost, parallelism, Some(output_len))
}

/// `PasswordHasher::hash_password` on an Argon2id context of version 0x13
/// made from `params`: decodes the salt string, refuses a password of more
/// than 2^32 - 1 bytes and a salt of fewer than 8 bytes, and otherwise
/// returns a hash that holds the tag, which has the output length of the
/// parameters; the contract speaks of 32 bytes. The salt string is first read
/// back as a salt, which panics below 4 characters (3 bytes). The working
/// memory is allocated in one piece; running out of memory is outside this
/// contract, as for any allocation.
#[verifier::external_body]
fn argon2id_hash_password(params: Params, password: &[u8], salt: &SaltString) -> (r: Result<
    Option<Vec<u8>>,
    argon2::password_hash::Error,
>)
    requires
        argon2_costs(params).3 == KEY_SIZE,
        salt_string_bytes(*salt).len() >= MIN_SALT_STRING_SIZE,
        salt_string_bytes(*salt).len() <= MAX_SALT_SIZE,
    ensures
        r is Ok <==> kdf_hashes(password@, salt_string_bytes(*salt)),
        r matches Ok(hash) ==> hash is Some,
        r matches Ok(Some(tag)) ==> tag@.len() == KEY_SIZE,
        r matches Ok(Some(tag)) ==> tag@ == argon2id(
            password@,
            salt_string_bytes(*salt),
            argon2_costs(params).0,
            argon2_costs(params).1,
            argon2_costs(params).2,
        ),
{
    let hasher = Argon2::new(Algorithm::Argon2id, Version::V0x13, params);
    match hasher.hash_password(password, salt) {
        Ok(hash) => Ok(hash.hash.map(|output| output.as_bytes().to_vec())),
        Err(e) => Err(e),
    }
}

/// The `Display` text of a password-hash error.
#[verifier::external_body]
fn password_hash_error_text(e: &argon2::password_hash::Error) -> String {
    e.to_string()
}

/// The `Display` text of an Argon2 error.
#[verifier::external_body]
fn argon2_error_text(e: &argon2::Error) -> String {
    e.to_string()
}

/// Derives a 256-bit key from a password and a salt with Argon2id.
///
/// The key is a function of the password, the salt and the costs alone. A
/// salt outside 8 to 48 bytes, costs outside Argon2's limits or a password
/// of more than 2^32 - 1 bytes are refused with `KdfError`.
pub fn derive_key(password: &str, salt: &[u8], params: &CryptoParams) -> (r: Result<
    Vec<u8>,
    CryptoError,
>)
    ensures
        derive_key_post(password@, salt@, *params, bytes_outcome(r)),
{
    let salt_string = match salt_string_encode(salt) {
        Ok(s) => s,
        Err(e) => {
            return Err(CryptoError::KdfError(password_hash_error_text(&e)));
        },
    };
    if params.parallelism > MAX_PARALLELISM {
        return Err(CryptoError::KdfError(String::from_str("too many threads")));
    }
    let argon2_params = match argon2_params_new(
        params.memory_cost,
        params.time_cost,
        params.parallelism,
        KEY_SIZE,
    ) {
        Ok(p) => p,
        Err(e) => {
            return Err(CryptoError::KdfError(argon2_error_text(&e)));
        },
    };
    if salt.len() < MIN_SALT_STRING_SIZE {
        return Err(CryptoError::KdfError(String::from_str("salt is too short")));
    }
    let hash = match argon2id_hash_password(argon2_params, password.as_bytes(), &salt_string) {
        Ok(h) => h,
        Err(e) => {
            return Err(CryptoError::KdfError(password_hash_error_text(&e)));
        },
    };
    match hash {
        Some(key) => Ok(key),
        None => Err(CryptoError::KdfError(String::from_str("No hash generated"))),
    }
}

/// Two derivations from the same password, salt and costs agree: both
/// succeed or both fail, and where they succeed they give the same 32 bytes.
pub proof fn lemma_derive_key_deterministic(
    password: Seq<char>,
    salt: Seq<u8>,
    params: CryptoParams,
    first: Result<Seq<u8>, CryptoError>,
    second: Result<Seq<u8>, CryptoError>,
)
    requires
        derive_key_post(password, salt, params, first),
        derive_key_post(password, salt, params, second),
    ensures
        first is Ok <==> second is Ok,
        first matches Ok(k1) ==> second matches Ok(k2) && k1 == k2 && k1.len() == 32,
{
}

/// `RngCore::fill_bytes` on `OsRng`: overwrites the buffer with bytes from
/// the operating system's random source. The length stays; nothing is known
/// of the bytes. It panics if the random source fails.
#[verifier::external_body]
fn fill_random(buffer: &mut Vec<u8>)
    ensures
        final(buffer)@.len() == old(buffer)@.len(),
{
    OsRng.fill_bytes(buffer);
}

/// A fresh random salt of 16 bytes.
pub fn generate_salt() -> (salt: Vec<u8>)
    ensures
        salt@.len() == SALT_SIZE,
{
    let mut salt = vec![0u8; SALT_SIZE];
    fill_random(&mut salt);
    salt
}

/// A fresh random nonce of 12 bytes.
pub fn generate_nonce() -> (nonce: Vec<u8>)
    ensures
        nonce@.len() == NONCE_SIZE,
{
    let mut nonce = vec![0u8; NONCE_SIZE];
    fill_random(&mut nonce);
    nonce
}

/// `aes_gcm::Error`: the cipher's one error, which says nothing of its
/// cause.
#[verifier::external_type_specification]
#[verifier::external_body]
pub struct ExAeadError(aes_gcm::Error);

/// The output of AES-256-GCM for a key of 32 bytes, a nonce of 12 bytes and
/// a plaintext, with empty associated data: the ciphertext followed by the
/// 16-byte authentication tag.
pub uninterp spec fn aes256gcm_seal(key: Seq<u8>, nonce: Seq<u8>, plaintext: Seq<u8>) -> Seq<u8>;

/// Longest plaintext that AES-GCM encrypts, in bytes (2^36).
pub open spec fn max_plaintext_len() -> int {
    0x10_0000_0000
}

/// Longest sealed message that AES-GCM looks at, in bytes: 2^36 + 16 bytes
/// of ciphertext and the tag.
pub open spec fn max_sealed_len() -> int {
    0x10_0000_0020
}

/// `sealed` is what encrypting `plaintext` under `key` and `nonce` gives; it
/// is 16 bytes longer than the plaintext.
pub open spec fn is_sealing(
    key: Seq<u8>,
    nonce: Seq<u8>,
    plaintext: Seq<u8>,
    sealed: Seq<u8>,
) -> bool {
    sealed == aes256gcm_seal(key, nonce, plaintext) && sealed.len() == plaintext.len() + TAG_SIZE
}

/// `plaintext` is the one plaintext whose encryption under `key` and `nonce`
/// is `sealed`.
pub open spec fn is_opening(
    key: Seq<u8>,
    nonce: Seq<u8>,
    sealed: Seq<u8>,
    plaintext: Seq<u8>,
) -> bool {
    &&& aes256gcm_seal(key, nonce, plaintext) == sealed
    &&& forall|other: Seq<u8>| #[trigger]
        aes256gcm_seal(key, nonce, other) == sealed ==> other == plaintext
}

/// No plaintext encrypts to `sealed` under `key` and `nonce`.
pub open spec fn has_no_opening(key: Seq<u8>, nonce: Seq<u8>, sealed: Seq<u8>) -> bool {
    forall|plaintext: Seq<u8>| #[trigger] aes256gcm_seal(key, nonce, plaintext) != sealed
}

/// What `encrypt` returns on given inputs.
pub open spec fn encrypt_post(
    data: Seq<u8>,
    key: Seq<u8>,
    nonce: Seq<u8>,
    outcome: Result<Seq<u8>, CryptoError>,
) -> bool {
    match outcome {
        Ok(sealed) => {
            &&& key.len() == KEY_SIZE
            &&& nonce.len() == NONCE_SIZE
            &&& data.len() <= max_plaintext_len()
            &&& is_sealing(key, nonce, data, sealed)
        },
        Err(e) => if key.len() != KEY_SIZE {
            e == CryptoError::InvalidKey
        } else {
            &&& e == CryptoError::EncryptionFailed
            &&& nonce.len() != NONCE_SIZE || data.len() > max_plaintext_len()
        },
    }
}

/// What `decrypt` returns on given inputs.
pub open spec fn decrypt_post(
    sealed: Seq<u8>,
    key: Seq<u8>,
    nonce: Seq<u8>,
    outcome: Result<Seq<u8>, CryptoError>,
) -> bool {
    match outcome {
        Ok(plaintext) => {
            &&& key.len() == KEY_SIZE
            &&& nonce.len() == NONCE_SIZE
            &&& TAG_SIZE <= sealed.len() <= max_sealed_len()
            &&& plaintext.len() + TAG_SIZE == sealed.len()
            &&& is_opening(key, nonce, sealed, plaintext)
        },
        Err(e) => if key.len() != KEY_SIZE {
            e == CryptoError::InvalidKey
        } else {
            &&& e == CryptoError::DecryptionFailed
            &&& nonce.len() != NONCE_SIZE || sealed.len() > max_sealed_len() || has_no_opening(
                key,
                nonce,
                sealed,
            )
        },
    }
}

/// `Aead::encrypt` on an `Aes256Gcm` made from `key` by
/// `KeyInit::new_from_slice`, with `nonce` read by `Nonce::from_slice`. A
/// plaintext of more than 2^36 bytes is refused; any other is encrypted in
/// counter mode and followed by its 16-byte tag. The key must have 32 bytes
/// for the cipher to be made, and `Nonce::from_slice` panics on any length
/// but 12.
#[verifier::external_body]
fn aes256gcm_encrypt(key: &[u8], nonce: &[u8], plaintext: &[u8]) -> (r: Result<
    Vec<u8>,
    aes_gcm::Error,
>)
    requires
        key@.len() == KEY_SIZE,
        nonce@.len() == NONCE_SIZE,
    ensures
        r is Ok <==> plaintext@.len() <= max_plaintext_len(),
        r matches Ok(sealed) ==> sealed@ == aes256gcm_seal(key@, nonce@, plaintext@),
        r matches Ok(sealed) ==> sealed@.len() == plaintext@.len() + TAG_SIZE,
{
    match Aes256Gcm::new_from_slice(key) {
        Ok(cipher) => cipher.encrypt(Nonce::from_slice(nonce), plaintext),
        Err(_) => Err(aes_gcm::Error),
    }
}

/// `Aead::decrypt` on an `Aes256Gcm` made from `key` by
/// `KeyInit::new_from_slice`, with `nonce` read by `Nonce::from_slice`. The
/// tag over the ciphertext is computed as in encryption and compared with
/// the last 16 bytes; only if they agree is the ciphertext decrypted, with
/// the key stream that encryption used. A message that is shorter than a
/// tag is refused before that. So what comes back encrypts to the message
/// and is 16 bytes shorter, nothing else encrypts to it, and a refusal of a
/// message within the length limit means that no plaintext encrypts to it.
#[verifier::external_body]
fn aes256gcm_decrypt(key: &[u8], nonce: &[u8], sealed: &[u8]) -> (r: Result<
    Vec<u8>,
    aes_gcm::Error,
>)
    requires
        key@.len() == KEY_SIZE,
        nonce@.len() == NONCE_SIZE,
    ensures
        r matches Ok(plaintext) ==> is_opening(key@, nonce@, sealed@, plaintext@),
        r is Ok ==> TAG_SIZE <= sealed@.len() <= max_sealed_len(),
        r matches Ok(plaintext) ==> plaintext@.len() + TAG_SIZE == sealed@.len(),
        r is Err ==> (sealed@.len() > max_sealed_len() || has_no_opening(key@, nonce@, sealed@)),
{
    match Aes256Gcm::new_from_slice(key) {
        Ok(cipher) => cipher.decrypt(Nonce::from_slice(nonce), sealed),
        Err(_) => Err(aes_gcm::Error),
    }
}

/// Encrypts `data` with AES-256-GCM; the 16-byte tag follows the ciphertext.
///
/// A key of any length but 32 bytes gives `InvalidKey`; a nonce of any
/// length but 12 bytes, or data of more than 2^36 bytes, `EncryptionFailed`.
pub fn encrypt(data: &[u8], key: &[u8], nonce: &[u8]) -> (r: Result<Vec<u8>, CryptoError>)
    ensures
        encrypt_post(data@, key@, nonce@, bytes_outcome(r)),
{
    if key.len() != KEY_SIZE {
        return Err(CryptoError::InvalidKey);
    }
    if nonce.len() != NONCE_SIZE {
        return Err(CryptoError::EncryptionFailed);
    }
    match aes256gcm_encrypt(key, nonce, data) {
        Ok(sealed) => Ok(sealed),
        Err(_) => Err(CryptoError::EncryptionFailed),
    }
}

/// Decrypts a message that `encrypt` produced and checks its tag.
///
/// A key of any length but 32 bytes gives `InvalidKey`. Everything else that
/// goes wrong gives `DecryptionFailed`: a nonce of any length but 12 bytes,
/// and a message that is not the encryption of any plaintext under this key
/// and nonce, whether the key is wrong or the message was altered.
pub fn decrypt(ciphertext: &[u8], key: &[u8], nonce: &[u8]) -> (r: Result<Vec<u8>, CryptoError>)
    ensures
        decrypt_post(ciphertext@, key@, nonce@, bytes_outcome(r)),
{
    if key.len() != KEY_SIZE {
        return Err(CryptoError::InvalidKey);
    }
    if nonce.len() != NONCE_SIZE {
        return Err(CryptoError::DecryptionFailed);
    }
    match aes256gcm_decrypt(key, nonce, ciphertext) {
        Ok(plaintext) => Ok(plaintext),
        Err(_) => Err(CryptoError::DecryptionFailed),
    }
}

/// Decrypting what was encrypted, under the same key and nonce, gives the
/// data back.
pub proof fn lemma_decrypt_inverts_encrypt(
    data: Seq<u8>,
    key: Seq<u8>,
    nonce: Seq<u8>,
    sealed: Seq<u8>,
    opened: Result<Seq<u8>, CryptoError>,
)
    requires
        encrypt_post(data, key, nonce, Ok(sealed)),
        decrypt_post(sealed, key, nonce, opened),
    ensures
        opened == Ok::<Seq<u8>, CryptoError>(data),
{
    assert(aes256gcm_seal(key, nonce, data) == sealed);
}

/// A message that differs from what encryption gave is refused with
/// `DecryptionFailed`, unless it is itself the encryption of other data,
/// which it then opens to. It never opens to the data that was encrypted.
pub proof fn lemma_altered_message_never_opens_to_the_data(
    data: Seq<u8>,
    key: Seq<u8>,
    nonce: Seq<u8>,
    sealed: Seq<u8>,
    altered: Seq<u8>,
    opened: Result<Seq<u8>, CryptoError>,
)
    requires
        encrypt_post(data, key, nonce, Ok(sealed)),
        altered != sealed,
        decrypt_post(altered, key, nonce, opened),
    ensures
        opened matches Err(e) ==> e == CryptoError::DecryptionFailed,
        opened matches Ok(other) ==> other != data && aes256gcm_seal(key, nonce, other)
            == altered,
{
}

/// Owner of derived key material. The handle cannot be cloned, gives its
/// bytes out by reference only, and overwrites them when it goes out of
/// scope. Copies that the compiler or the operating system made elsewhere
/// are beyond its reach.
pub struct SecureKey {
    key: Vec<u8>,
}

impl View for SecureKey {
    type V = Seq<u8>;

    closed spec fn view(&self) -> Seq<u8> {
        self.key@
    }
}

impl SecureKey {
    /// Takes ownership of the key bytes.
    pub fn new(key: Vec<u8>) -> (handle: Self)
        ensures
            handle@ == key@,
    {
        Self { key }
    }

    /// The key bytes, for as long as the handle is borrowed.
    pub fn as_bytes(&self) -> (bytes: &[u8])
        ensures
            bytes@ == self@,
    {
        self.key.as_slice()
    }
}

/// `Zeroize::zeroize` on a byte vector: every byte, and the spare capacity,
/// is overwritten with zero and the vector is then cleared, so nothing is
/// left to read.
#[verifier::external_body]
fn wipe(bytes: &mut Vec<u8>)
    ensures
        final(bytes)@ == Seq::<u8>::empty(),
    opens_invariants none
    no_unwind
{
    bytes.zeroize();
}

impl Drop for SecureKey {
    /// Overwrites the key bytes and leaves the handle empty.
    fn drop(&mut self)
        ensures
            final(self)@ == Seq::<u8>::empty(),
        opens_invariants none
        no_unwind
    {
        wipe(&mut self.key);
    }
}

/// `base64::DecodeError`: why a text was refused. It is not looked into.
#[verifier::external_type_specification]
#[verifier::external_body]
pub struct ExBase64DecodeError(base64::DecodeError);

/// The standard base64 text of a byte string: the alphabet `A-Z a-z 0-9 + /`
/// with `=` padding to a multiple of four characters.
pub uninterp spec fn base64_standard(data: Seq<u8>) -> Seq<char>;

/// `text` is the base64 text of `data`, and of nothing else.
pub open spec fn is_base64_of(text: Seq<char>, data: Seq<u8>) -> bool {
    &&& base64_standard(data) == text
    &&& forall|other: Seq<u8>| #[trigger] base64_standard(other) == text ==> other == data
}

/// `text` is not the base64 text of any byte string.
pub open spec fn is_not_base64(text: Seq<char>) -> bool {
    forall|data: Seq<u8>| #[trigger] base64_standard(data) != text
}

/// What `decode_base64` returns on a given text.
pub open spec fn decode_base64_post(text: Seq<char>, outcome: Result<Seq<u8>, CryptoError>) -> bool {
    match outcome {
        Ok(data) => is_base64_of(text, data),
        Err(e) => e == CryptoError::InvalidFormat && is_not_base64(text),
    }
}

/// `Engine::encode` on the `STANDARD` engine. It panics only if the length
/// of the text does not fit `usize`; a slice never holds more than
/// `isize::MAX` bytes, and four thirds of that fit.
#[verifier::external_body]
fn base64_encode(data: &[u8]) -> (text: String)
    ensures
        text@ == base64_standard(data@),
{
    STANDARD.encode(data)
}

/// `Engine::decode` on the `STANDARD` engine, which takes canonical text
/// only: every character from the alphabet, padding present and of the right
/// length, no stray bits in the last character. So a text that it accepts is
/// the encoding of what it returns and of nothing else, and a text that it
/// refuses is the encoding of nothing.
#[verifier::external_body]
fn base64_decode(text: &str) -> (r: Result<Vec<u8>, base64::DecodeError>)
    ensures
        r matches Ok(data) ==> is_base64_of(text@, data@),
        r is Err ==> is_not_base64(text@),
{
    STANDARD.decode(text)
}

/// The base64 text of `data`.
pub fn encode_base64(data: &[u8]) -> (text: String)
    ensures
        text@ == base64_standard(data@),
{
    base64_encode(data)
}

/// The bytes that `data` is the base64 text of, or `InvalidFormat` if it is
/// the text of none.
pub fn decode_base64(data: &str) -> (r: Result<Vec<u8>, CryptoError>)
    ensures
        decode_base64_post(data@, bytes_outcome(r)),
{
    match base64_decode(data) {
        Ok(bytes) => Ok(bytes),
        Err(_) => Err(CryptoError::InvalidFormat),
    }
}

/// Decoding the base64 text of a byte string gives the byte string back.
pub proof fn lemma_decode_inverts_encode(data: Seq<u8>, decoded: Result<Seq<u8>, CryptoError>)
    requires
        decode_base64_post(base64_standard(data), decoded),
    ensures
        decoded == Ok::<Seq<u8>, CryptoError>(data),
{
    assert(base64_standard(data) == base64_standard(data));
}

} // verus!
