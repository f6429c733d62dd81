//! Sealing the serialized vault into a container and opening it again, and
//! the rows of the delimited-text export and import.

use crate::container::{
    decode_container, decodes_to, encode_container, encodes, lemma_kdf_name_is_unambiguous,
    malformed, names_kdf,
};
use crate::crypto::{
    aes256gcm_seal, base64_standard, decrypt, default_params, derive_key, derived_key, encrypt,
    generate_nonce, generate_salt, has_no_opening, is_opening, is_sealing, kdf_accepts,
    max_password_len, max_plaintext_len, max_sealed_len, CryptoError, CryptoParams, SecureKey,
    NONCE_SIZE, SALT_SIZE, TAG_SIZE,
};
use crate::models::{Entry, Vault, VaultFile};
use crate::text::{join_with, joined, option_text, split_at, split_on, texts, trimmed};
use vstd::prelude::*;
use vstd::utf8::encode_utf8;

verus! {

/// Why a container could not be opened.
#[derive(Debug, PartialEq, Eq)]
pub enum StorageError {
    /// The container does not name its key derivation in a way that is
    /// understood, or one of its byte fields is not base64 text.
    Format,
    /// The key could not be derived, or the ciphertext is not what this
    /// passphrase sealed.
    Crypto(CryptoError),
}

/// `file` is the container that seals `content` under `password` with the
/// given costs, salt and nonce.
pub open spec fn is_container_of(
    file: VaultFile,
    content: Seq<u8>,
    password: Seq<char>,
    params: CryptoParams,
    salt: Seq<u8>,
    nonce: Seq<u8>,
) -> bool {
    exists|sealed: Seq<u8>|
        {
            &&& is_sealing(derived_key(password, salt, params), nonce, content, sealed)
            &&& #[trigger] encodes(file, params, salt, nonce, sealed)
        }
}

/// The inputs that `seal_vault` makes a container from.
pub open spec fn sealable(
    content: Seq<u8>,
    password: Seq<char>,
    params: CryptoParams,
    salt: Seq<u8>,
    nonce: Seq<u8>,
) -> bool {
    &&& kdf_accepts(password, salt, params)
    &&& nonce.len() == NONCE_SIZE
    &&& content.len() <= max_plaintext_len()
}

/// What `seal_vault` returns on given inputs.
pub open spec fn seal_vault_post(
    content: Seq<u8>,
    password: Seq<char>,
    params: CryptoParams,
    salt: Seq<u8>,
    nonce: Seq<u8>,
    outcome: Result<VaultFile, CryptoError>,
) -> bool {
    match outcome {
        Ok(file) => sealable(content, password, params, salt, nonce) && is_container_of(
            file,
            content,
            password,
            params,
            salt,
            nonce,
        ),
        Err(e) => if !kdf_accepts(password, salt, params) {
            e is KdfError
        } else {
            e == CryptoError::EncryptionFailed && !sealable(content, password, params, salt, nonce)
        },
    }
}

/// Seals the serialized vault under a key derived from the passphrase, the
/// salt and the costs, and writes costs, salt, nonce and ciphertext into a
/// container.
///
/// The key lives in a `SecureKey` and is wiped when the function returns,
/// on every path.
pub fn seal_vault(
    content: &[u8],
    master_password: &str,
    params: &CryptoParams,
    salt: &[u8],
    nonce: &[u8],
) -> (r: Result<VaultFile, CryptoError>)
    ensures
        seal_vault_post(content@, master_password@, *params, salt@, nonce@, r),
{
    let key = match derive_key(master_password, salt, params) {
        Ok(key) => key,
        Err(e) => {
            return Err(e);
        },
    };
    let secure_key = SecureKey::new(key);
    let ciphertext = match encrypt(content, secure_key.as_bytes(), nonce) {
        Ok(sealed) => sealed,
        Err(e) => {
            return Err(e);
        },
    };
    let file = encode_container(params, salt, nonce, ciphertext.as_slice());
    assert(encodes(file, *params, salt@, nonce@, ciphertext@));
    Ok(file)
}

/// What `save_vault` returns, whatever salt and nonce were drawn.
pub open spec fn save_vault_post(
    content: Seq<u8>,
    password: Seq<char>,
    outcome: Result<VaultFile, CryptoError>,
) -> bool {
    exists|salt: Seq<u8>, nonce: Seq<u8>|
        {
            &&& salt.len() == SALT_SIZE
            &&& nonce.len() == NONCE_SIZE
            &&& #[trigger] seal_vault_post(
                content,
                password,
                default_params(),
                salt,
                nonce,
                outcome,
            )
        }
}

/// Seals the serialized vault into a container under the default costs,
/// with a salt and a nonce that are drawn afresh from the random source.
///
/// It succeeds unless the passphrase or the content is longer than the
/// primitives take.
pub fn save_vault(content: &[u8], master_password: &str) -> (r: Result<VaultFile, CryptoError>)
    ensures
        save_vault_post(content@, master_password@, r),
{
    let salt = generate_salt();
    let nonce = generate_nonce();
    let params = CryptoParams::default();
    let r = seal_vault(content, master_password, &params, salt.as_slice(), nonce.as_slice());
    assert(seal_vault_post(content@, master_password@, default_params(), salt@, nonce@, r));
    r
}

/// Saving succeeds for every passphrase of at most 2^32 - 1 bytes and every
/// content of at most 2^36 bytes, and fails for any other.
pub proof fn lemma_save_succeeds(
    content: Seq<u8>,
    password: Seq<char>,
    outcome: Result<VaultFile, CryptoError>,
)
    requires
        save_vault_post(content, password, outcome),
    ensures
        outcome is Ok <==> encode_utf8(password).len() <= max_password_len()
            && content.len() <= max_plaintext_len(),
{
}

/// What opening decoded fields under a passphrase gives.
pub open spec fn opened_as(
    password: Seq<char>,
    params: CryptoParams,
    salt: Seq<u8>,
    nonce: Seq<u8>,
    sealed: Seq<u8>,
    outcome: Result<Seq<u8>, StorageError>,
) -> bool {
    let key = derived_key(password, salt, params);
    match outcome {
        Ok(content) => {
            &&& kdf_accepts(password, salt, params)
            &&& nonce.len() == NONCE_SIZE
            &&& TAG_SIZE <= sealed.len() <= max_sealed_len()
            &&& content.len() + TAG_SIZE == sealed.len()
            &&& is_opening(key, nonce, sealed, content)
        },
        Err(StorageError::Crypto(e)) => if !kdf_accepts(password, salt, params) {
            e is KdfError
        } else {
            &&& e == CryptoError::DecryptionFailed
            &&& nonce.len() != NONCE_SIZE || sealed.len() > max_sealed_len() || has_no_opening(
                key,
                nonce,
                sealed,
            )
        },
        Err(StorageError::Format) => false,
    }
}

/// What `load_vault` returns on a given container and passphrase.
pub open spec fn load_vault_post(
    file: VaultFile,
    password: Seq<char>,
    outcome: Result<Seq<u8>, StorageError>,
) -> bool {
    if outcome == Err::<Seq<u8>, StorageError>(StorageError::Format) {
        malformed(file)
    } else {
        exists|params: CryptoParams, salt: Seq<u8>, nonce: Seq<u8>, sealed: Seq<u8>|
            {
                &&& #[trigger] decodes_to(file, params, salt, nonce, sealed)
                &&& opened_as(password, params, salt, nonce, sealed, outcome)
            }
    }
}

/// A result with the content it carries taken as a sequence.
pub open spec fn content_outcome(r: Result<Vec<u8>, StorageError>) -> Result<
    Seq<u8>,
    StorageError,
> {
    match r {
        Ok(bytes) => Ok(bytes@),
        Err(e) => Err(e),
    }
}

/// Opens a container with the passphrase and returns the serialized vault.
///
/// A container that cannot be decoded is a format error. A passphrase, a
/// salt or costs that the key derivation refuses are a `KdfError`. Anything
/// else that keeps the content from being read is `DecryptionFailed`,
/// whether the passphrase is wrong or the container was altered: the two
/// cannot be told apart.
pub fn load_vault(file: &VaultFile, master_password: &str) -> (r: Result<Vec<u8>, StorageError>)
    ensures
        load_vault_post(*file, master_password@, content_outcome(r)),
{
    let fields = match decode_container(file) {
        Ok(fields) => fields,
        Err(e) => {
            return Err(e);
        },
    };
    assert(decodes_to(*file, fields.params, fields.salt@, fields.nonce@, fields.ciphertext@));
    let key = match derive_key(master_password, fields.salt.as_slice(), &fields.params) {
        Ok(key) => key,
        Err(e) => {
            return Err(StorageError::Crypto(e));
        },
    };
    let secure_key = SecureKey::new(key);
    match decrypt(fields.ciphertext.as_slice(), secure_key.as_bytes(), fields.nonce.as_slice()) {
        Ok(content) => Ok(content),
        Err(e) => Err(StorageError::Crypto(e)),
    }
}

/// Opening a container with the passphrase that sealed it gives the content
/// back, whatever costs, salt and nonce it was sealed with.
pub proof fn lemma_load_inverts_seal(
    content: Seq<u8>,
    password: Seq<char>,
    params: CryptoParams,
    salt: Seq<u8>,
    nonce: Seq<u8>,
    file: VaultFile,
    loaded: Result<Seq<u8>, StorageError>,
)
    requires
        seal_vault_post(content, password, params, salt, nonce, Ok(file)),
        load_vault_post(file, password, loaded),
    ensures
        loaded == Ok::<Seq<u8>, StorageError>(content),
{
    let key = derived_key(password, salt, params);
    let sealed = choose|sealed: Seq<u8>|
        {
            &&& is_sealing(key, nonce, content, sealed)
            &&& #[trigger] encodes(file, params, salt, nonce, sealed)
        };
    assert(names_kdf(file.kdf@, params));
    assert(base64_standard(salt) == file.salt@);
    assert(base64_standard(nonce) == file.nonce@);
    assert(base64_standard(sealed) == file.ciphertext@);
    assert(!malformed(file));
    let (params2, salt2, nonce2, sealed2) = choose|
        params2: CryptoParams,
        salt2: Seq<u8>,
        nonce2: Seq<u8>,
        sealed2: Seq<u8>,
    |
        {
            &&& #[trigger] decodes_to(file, params2, salt2, nonce2, sealed2)
            &&& opened_as(password, params2, salt2, nonce2, sealed2, loaded)
        };
    lemma_kdf_name_is_unambiguous(file.kdf@, params, params2);
    assert(salt2 == salt && nonce2 == nonce && sealed2 == sealed);
    assert(aes256gcm_seal(key, nonce, content) == sealed);
}

/// Opening a saved container with the passphrase it was saved under gives
/// the content back.
pub proof fn lemma_load_inverts_save(
    content: Seq<u8>,
    password: Seq<char>,
    file: VaultFile,
    loaded: Result<Seq<u8>, StorageError>,
)
    requires
        save_vault_post(content, password, Ok(file)),
        load_vault_post(file, password, loaded),
    ensures
        loaded == Ok::<Seq<u8>, StorageError>(content),
{
    let (salt, nonce) = choose|salt: Seq<u8>, nonce: Seq<u8>|
        {
            &&& salt.len() == SALT_SIZE
            &&& nonce.len() == NONCE_SIZE
            &&& #[trigger] seal_vault_post(
                content,
                password,
                default_params(),
                salt,
                nonce,
                Ok(file),
            )
        };
    lemma_load_inverts_seal(content, password, default_params(), salt, nonce, file, loaded);
}

/// The text of an optional field: empty where there is none.
pub open spec fn optional_text(field: Option<String>) -> Seq<char> {
    match field {
        Some(text) => text@,
        None => Seq::<char>::empty(),
    }
}

/// The first row of the export, which names the fields.
pub open spec fn header_row() -> Seq<Seq<char>> {
    seq!["name"@, "login"@, "password"@, "url"@, "notes"@, "tags"@]
}

/// The row that the export holds for a record: name, login, the password
/// (or `***` in its place unless it is to be written in clear), URL and
/// notes (empty where there are none), and the tags with `;` between them.
pub open spec fn row_of(entry: Entry, plaintext: bool) -> Seq<Seq<char>> {
    seq![
        entry.name@,
        entry.login@,
        if plaintext {
            entry.password@
        } else {
            "***"@
        },
        optional_text(entry.url),
        optional_text(entry.notes),
        joined(texts(entry.tags@), ';'),
    ]
}

/// The field names of the export.
pub fn export_header() -> (row: Vec<String>)
    ensures
        texts(row@) == header_row(),
{
    let mut row: Vec<String> = Vec::new();
    row.push(String::from_str("name"));
    row.push(String::from_str("login"));
    row.push(String::from_str("password"));
    row.push(String::from_str("url"));
    row.push(String::from_str("notes"));
    row.push(String::from_str("tags"));
    assert(texts(row@) == header_row());
    row
}

/// The text of an optional field as a string of its own.
fn optional_field(field: &Option<String>) -> (text: String)
    ensures
        text@ == optional_text(*field),
{
    match field {
        Some(text) => text.clone(),
        None => String::new(),
    }
}

/// The row of the export for one record.
pub fn export_row(entry: &Entry, plaintext: bool) -> (row: Vec<String>)
    ensures
        texts(row@) == row_of(*entry, plaintext),
{
    let mut row: Vec<String> = Vec::new();
    row.push(entry.name.clone());
    row.push(entry.login.clone());
    if plaintext {
        row.push(entry.password.clone());
    } else {
        row.push(String::from_str("***"));
    }
    row.push(optional_field(&entry.url));
    row.push(optional_field(&entry.notes));
    row.push(join_with(&entry.tags, ';'));
    assert(texts(row@) == row_of(*entry, plaintext));
    row
}

/// The rows of the export of a vault: the field names, then one row for
/// each record in the vault's order. Passwords are written in clear only if
/// `plaintext` is set.
pub fn export_csv(vault: &Vault, plaintext: bool) -> (rows: Vec<Vec<String>>)
    ensures
        rows@.len() == vault.entries@.len() + 1,
        texts(rows@[0]@) == header_row(),
        forall|k: int|
            0 <= k < vault.entries@.len() ==> texts((#[trigger] rows@[k + 1])@) == row_of(
                vault.entries@[k],
                plaintext,
            ),
{
    let mut rows: Vec<Vec<String>> = Vec::new();
    rows.push(export_header());
    let mut i: usize = 0;
    while i < vault.entries.len()
        invariant
            i <= vault.entries@.len(),
            rows@.len() == i + 1,
            texts(rows@[0]@) == header_row(),
            forall|k: int|
                0 <= k < i ==> texts((#[trigger] rows@[k + 1])@) == row_of(
                    vault.entries@[k],
                    plaintext,
                ),
        decreases vault.entries@.len() - i,
    {
        rows.push(export_row(&vault.entries[i], plaintext));
        i = i + 1;
    }
    rows
}

/// A record of delimited text is taken in if it has at least three fields
/// and neither its name nor its login is empty.
pub open spec fn importable(record: Seq<String>) -> bool {
    record.len() >= 3 && record[0]@.len() > 0 && record[1]@.len() > 0
}

/// The text of field `i` of a record, if the record has that field and the
/// field is not empty.
pub open spec fn field_text(record: Seq<String>, i: int) -> Option<Seq<char>> {
    if i < record.len() && record[i]@.len() > 0 {
        Some(record[i]@)
    } else {
        None
    }
}

/// Every part without the white space around it.
pub open spec fn all_trimmed(parts: Seq<Seq<char>>) -> Seq<Seq<char>> {
    Seq::new(parts.len(), |i: int| trimmed(parts[i]))
}

/// The tags that a record of delimited text names: the parts of its sixth
/// field between `;`, each without the white space around it.
pub open spec fn record_tags(record: Seq<String>) -> Seq<Seq<char>> {
    match field_text(record, 5) {
        Some(text) => all_trimmed(split_on(text, ';')),
        None => Seq::empty(),
    }
}

/// `entry` holds what an importable record says: name, login and password
/// from the first three fields, URL, notes and tags from the next three
/// where they are present and not empty.
pub open spec fn imported_from(record: Seq<String>, entry: Entry) -> bool {
    &&& entry.name@ == record[0]@
    &&& entry.login@ == record[1]@
    &&& entry.password@ == record[2]@
    &&& option_text(entry.url) == field_text(record, 3)
    &&& option_text(entry.notes) == field_text(record, 4)
    &&& texts(entry.tags@) == record_tags(record)
    &&& entry.modified_at == entry.created_at
}

/// The importable records among `records`, in their order.
pub open spec fn importable_records(records: Seq<Vec<String>>) -> Seq<Seq<String>>
    decreases records.len(),
{
    if records.len() == 0 {
        Seq::empty()
    } else if importable(records.last()@) {
        importable_records(records.drop_last()).push(records.last()@)
    } else {
        importable_records(records.drop_last())
    }
}

/// Whether a record is taken in.
pub fn is_importable(record: &Vec<String>) -> (r: bool)
    ensures
        r == importable(record@),
{
    record.len() >= 3 && !record[0].as_str().is_empty() && !record[1].as_str().is_empty()
}

/// Field `i` of a record as a string of its own, if the record has that
/// field and the field is not empty.
fn present_field(record: &Vec<String>, i: usize) -> (field: Option<String>)
    ensures
        option_text(field) == field_text(record@, i as int),
{
    if i < record.len() && !record[i].as_str().is_empty() {
        Some(record[i].clone())
    } else {
        None
    }
}

/// The tags that a field of delimited text names.
pub fn parse_tags(field: &str) -> (tags: Vec<String>)
    ensures
        texts(tags@) == all_trimmed(split_on(field@, ';')),
{
    let parts = split_at(field, ';');
    let mut tags: Vec<String> = Vec::new();
    let mut i: usize = 0;
    while i < parts.len()
        invariant
            i <= parts@.len(),
            tags@.len() == i,
            forall|k: int| 0 <= k < i ==> (#[trigger] tags@[k])@ == trimmed(parts@[k]@),
        decreases parts@.len() - i,
    {
        tags.push(parts[i].as_str().trim().to_owned());
        i = i + 1;
    }
    assert(texts(tags@) == all_trimmed(texts(parts@)));
    tags
}

/// Fills URL, notes and tags of a record from the fourth, fifth and sixth
/// field of a record of delimited text, where they are present and not
/// empty. Everything else stays.
pub fn fill_optional_fields(entry: &mut Entry, record: &Vec<String>)
    ensures
        option_text(final(entry).url) == match field_text(record@, 3) {
            Some(text) => Some(text),
            None => option_text(old(entry).url),
        },
        option_text(final(entry).notes) == match field_text(record@, 4) {
            Some(text) => Some(text),
            None => option_text(old(entry).notes),
        },
        texts(final(entry).tags@) == match field_text(record@, 5) {
            Some(text) => all_trimmed(split_on(text, ';')),
            None => texts(old(entry).tags@),
        },
        final(entry).id == old(entry).id,
        final(entry).name == old(entry).name,
        final(entry).login == old(entry).login,
        final(entry).password == old(entry).password,
        final(entry).created_at == old(entry).created_at,
        final(entry).modified_at == old(entry).modified_at,
{
    match present_field(record, 3) {
        Some(url) => {
            entry.url = Some(url);
        },
        None => {},
    }
    match present_field(record, 4) {
        Some(notes) => {
            entry.notes = Some(notes);
        },
        None => {},
    }
    if 5 < record.len() && !record[5].as_str().is_empty() {
        entry.tags = parse_tags(record[5].as_str());
    }
}

/// The records that a table of delimited text gives: one for each
/// importable row, in the order of the rows, each with a new identifier
/// and created now. Rows that are not importable are passed over.
pub fn import_csv(records: &Vec<Vec<String>>) -> (entries: Vec<Entry>)
    ensures
        entries@.len() == importable_records(records@).len(),
        forall|k: int|
            0 <= k < entries@.len() ==> imported_from(
                importable_records(records@)[k],
                #[trigger] entries@[k],
            ),
{
    let mut entries: Vec<Entry> = Vec::new();
    let mut i: usize = 0;
    while i < records.len()
        invariant
            i <= records@.len(),
            entries@.len() == importable_records(records@.take(i as int)).len(),
            forall|k: int|
                0 <= k < entries@.len() ==> imported_from(
                    importable_records(records@.take(i as int))[k],
                    #[trigger] entries@[k],
                ),
        decreases records@.len() - i,
    {
        let record = &records[i];
        proof {
            assert(records@.take(i + 1).drop_last() == records@.take(i as int));
            assert(records@.take(i + 1).last() == records@[i as int]);
        }
        if is_importable(record) {
            let mut entry = Entry::new(record[0].clone(), record[1].clone(), record[2].clone());
            assert(texts(entry.tags@) == Seq::<Seq<char>>::empty());
            fill_optional_fields(&mut entry, record);
            entries.push(entry);
        }
        i = i + 1;
    }
    proof {
        assert(records@.take(records@.len() as int) == records@);
    }
    entries
}

} // verus!
