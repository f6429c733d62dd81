//! The container that is kept on disk: how it names its key derivation, and
//! how costs, salt, nonce and ciphertext are written into its text fields
//! and read from them.

use crate::crypto::{
    base64_standard, decode_base64, default_params, encode_base64, is_base64_of, is_not_base64,
    CryptoParams,
};
use crate::models::VaultFile;
use crate::storage::StorageError;
use crate::text::{
    decimal, format_decimal, is_digit, join_with, joined, lemma_decimal_injective,
    lemma_decimal_value, lemma_join_inverts_split, lemma_joined_lacks, lemma_split_inverts_join,
    lemma_split_without_separator, parse_decimal, split_at, split_on, texts,
};
use vstd::prelude::*;

verus! {

/// The format version that is written into a container.
pub const FORMAT_VERSION: u32 = 1;

/// One cost in the name of a key derivation: a key, `=`, and the value in
/// decimal notation.
pub open spec fn cost_field(key: Seq<char>, value: u32) -> Seq<char> {
    joined(seq![key, decimal(value as nat)], '=')
}

/// The costs in the name of a key derivation: memory, time and parallelism
/// with `,` between them, as in `m=65536,t=2,p=1`.
pub open spec fn kdf_costs_text(params: CryptoParams) -> Seq<char> {
    joined(
        seq![
            cost_field("m"@, params.memory_cost),
            cost_field("t"@, params.time_cost),
            cost_field("p"@, params.parallelism),
        ],
        ',',
    )
}

/// The name under which a container records its key derivation: the
/// algorithm, `$`, and the costs, as in `argon2id$m=65536,t=2,p=1`.
pub open spec fn kdf_label_text(params: CryptoParams) -> Seq<char> {
    joined(seq!["argon2id"@, kdf_costs_text(params)], '$')
}

/// `text` names Argon2id with the given costs: in full, or as the bare
/// `argon2id`, which stands for the default costs.
pub open spec fn names_kdf(text: Seq<char>, params: CryptoParams) -> bool {
    (text == "argon2id"@ && params == default_params()) || text == kdf_label_text(params)
}

/// `text` names no key derivation that is understood.
pub open spec fn names_no_kdf(text: Seq<char>) -> bool {
    forall|params: CryptoParams| !names_kdf(text, params)
}

/// Decimal notation holds nothing but digits.
proof fn lemma_decimal_lacks(n: nat, c: char)
    requires
        !is_digit(c),
    ensures
        !decimal(n).contains(c),
{
    lemma_decimal_value(n);
}

/// The two parts of a cost field.
proof fn lemma_cost_field_parts(key: Seq<char>, value: u32)
    requires
        !key.contains('='),
    ensures
        split_on(cost_field(key, value), '=') == seq![key, decimal(value as nat)],
{
    let parts = seq![key, decimal(value as nat)];
    lemma_decimal_lacks(value as nat, '=');
    lemma_split_inverts_join(parts, '=');
}

/// A cost field holds its key, `=` and digits, and nothing else.
proof fn lemma_cost_field_lacks(key: Seq<char>, value: u32, c: char)
    requires
        !is_digit(c),
        c != '=',
        !key.contains(c),
    ensures
        !cost_field(key, value).contains(c),
{
    let parts = seq![key, decimal(value as nat)];
    lemma_decimal_lacks(value as nat, c);
    lemma_joined_lacks(parts, '=', c);
}

/// The parts of the name of a key derivation: splitting it gives the
/// algorithm and the costs, and splitting the costs gives the three fields.
proof fn lemma_kdf_label_parts(params: CryptoParams)
    ensures
        split_on(kdf_label_text(params), '$') == seq!["argon2id"@, kdf_costs_text(params)],
        split_on(kdf_costs_text(params), ',') == seq![
            cost_field("m"@, params.memory_cost),
            cost_field("t"@, params.time_cost),
            cost_field("p"@, params.parallelism),
        ],
        kdf_label_text(params) != "argon2id"@,
{
    reveal_strlit("argon2id");
    reveal_strlit("m");
    reveal_strlit("t");
    reveal_strlit("p");
    let m = cost_field("m"@, params.memory_cost);
    let t = cost_field("t"@, params.time_cost);
    let p = cost_field("p"@, params.parallelism);
    let fields = seq![m, t, p];
    lemma_cost_field_parts("m"@, params.memory_cost);
    lemma_cost_field_parts("t"@, params.time_cost);
    lemma_cost_field_parts("p"@, params.parallelism);
    lemma_cost_field_lacks("m"@, params.memory_cost, ',');
    lemma_cost_field_lacks("t"@, params.time_cost, ',');
    lemma_cost_field_lacks("p"@, params.parallelism, ',');
    lemma_cost_field_lacks("m"@, params.memory_cost, '$');
    lemma_cost_field_lacks("t"@, params.time_cost, '$');
    lemma_cost_field_lacks("p"@, params.parallelism, '$');
    lemma_split_inverts_join(fields, ',');
    lemma_joined_lacks(fields, ',', '$');
    let parts = seq!["argon2id"@, kdf_costs_text(params)];
    assert(!"argon2id"@.contains('$'));
    lemma_split_inverts_join(parts, '$');
    lemma_split_without_separator("argon2id"@, '$');
}

/// A name stands for one set of costs only.
pub proof fn lemma_kdf_name_is_unambiguous(text: Seq<char>, a: CryptoParams, b: CryptoParams)
    requires
        names_kdf(text, a),
        names_kdf(text, b),
    ensures
        a == b,
{
    lemma_kdf_label_parts(a);
    lemma_kdf_label_parts(b);
    if text != "argon2id"@ {
        reveal_strlit("m");
        reveal_strlit("t");
        reveal_strlit("p");
        lemma_cost_field_parts("m"@, a.memory_cost);
        lemma_cost_field_parts("t"@, a.time_cost);
        lemma_cost_field_parts("p"@, a.parallelism);
        lemma_cost_field_parts("m"@, b.memory_cost);
        lemma_cost_field_parts("t"@, b.time_cost);
        lemma_cost_field_parts("p"@, b.parallelism);
        let fa = split_on(kdf_costs_text(a), ',');
        let fb = split_on(kdf_costs_text(b), ',');
        assert(kdf_costs_text(a) == split_on(text, '$')[1]);
        assert(kdf_costs_text(b) == split_on(text, '$')[1]);
        assert(fa[0] == fb[0] && fa[1] == fb[1] && fa[2] == fb[2]);
        assert(decimal(a.memory_cost as nat) == split_on(fa[0], '=')[1]);
        assert(decimal(b.memory_cost as nat) == split_on(fb[0], '=')[1]);
        assert(decimal(a.time_cost as nat) == split_on(fa[1], '=')[1]);
        assert(decimal(b.time_cost as nat) == split_on(fb[1], '=')[1]);
        assert(decimal(a.parallelism as nat) == split_on(fa[2], '=')[1]);
        assert(decimal(b.parallelism as nat) == split_on(fb[2], '=')[1]);
        lemma_decimal_injective(a.memory_cost as nat, b.memory_cost as nat);
        lemma_decimal_injective(a.time_cost as nat, b.time_cost as nat);
        lemma_decimal_injective(a.parallelism as nat, b.parallelism as nat);
    }
}

/// One cost as it stands in the name of a key derivation.
fn cost_field_string(key: &str, value: u32) -> (field: String)
    ensures
        field@ == cost_field(key@, value),
{
    let mut parts: Vec<String> = Vec::new();
    parts.push(key.to_owned());
    parts.push(format_decimal(value));
    assert(texts(parts@) == seq![key@, decimal(value as nat)]);
    join_with(&parts, '=')
}

/// The name under which a container records Argon2id with the given costs.
pub fn kdf_label(params: &CryptoParams) -> (label: String)
    ensures
        label@ == kdf_label_text(*params),
{
    let mut fields: Vec<String> = Vec::new();
    fields.push(cost_field_string("m", params.memory_cost));
    fields.push(cost_field_string("t", params.time_cost));
    fields.push(cost_field_string("p", params.parallelism));
    assert(texts(fields@) == seq![
        cost_field("m"@, params.memory_cost),
        cost_field("t"@, params.time_cost),
        cost_field("p"@, params.parallelism),
    ]);
    let mut parts: Vec<String> = Vec::new();
    parts.push(String::from_str("argon2id"));
    parts.push(join_with(&fields, ','));
    assert(texts(parts@) == seq!["argon2id"@, kdf_costs_text(*params)]);
    join_with(&parts, '$')
}

/// The value of a cost field with the given key, if the field is one.
fn parse_cost_field(field: &str, key: &str) -> (r: Option<u32>)
    requires
        !key@.contains('='),
    ensures
        match r {
            Some(value) => field@ == cost_field(key@, value),
            None => forall|value: u32| field@ != cost_field(key@, value),
        },
{
    let parts = split_at(field, '=');
    proof {
        assert forall|value: u32| field@ == cost_field(key@, value) implies texts(parts@)
            == seq![key@, decimal(value as nat)] by {
            lemma_cost_field_parts(key@, value);
        }
        lemma_join_inverts_split(field@, '=');
    }
    if parts.len() != 2 {
        return None;
    }
    if parts[0] != key.to_owned() {
        proof {
            assert forall|value: u32| field@ != cost_field(key@, value) by {
                if field@ == cost_field(key@, value) {
                    assert(texts(parts@)[0] == key@);
                }
            }
        }
        return None;
    }
    match parse_decimal(parts[1].as_str()) {
        Some(value) => {
            proof {
                assert(texts(parts@) == seq![key@, decimal(value as nat)]);
            }
            Some(value)
        },
        None => {
            proof {
                assert forall|value: u32| field@ != cost_field(key@, value) by {
                    if field@ == cost_field(key@, value) {
                        assert(texts(parts@)[1] == decimal(value as nat));
                    }
                }
            }
            None
        },
    }
}

/// The costs that the name of a key derivation stands for, if it is a name
/// that is understood: `argon2id` alone for the default costs, or
/// `argon2id$m=..,t=..,p=..` with each cost in decimal notation.
pub fn parse_kdf_label(text: &str) -> (r: Option<CryptoParams>)
    ensures
        match r {
            Some(params) => names_kdf(text@, params),
            None => names_no_kdf(text@),
        },
{
    if text.to_owned() == String::from_str("argon2id") {
        return Some(CryptoParams::default());
    }
    let parts = split_at(text, '$');
    proof {
        reveal_strlit("m");
        reveal_strlit("t");
        reveal_strlit("p");
        assert forall|params: CryptoParams| names_kdf(text@, params) implies texts(parts@)
            == seq!["argon2id"@, kdf_costs_text(params)] by {
            lemma_kdf_label_parts(params);
        }
        lemma_join_inverts_split(text@, '$');
    }
    if parts.len() != 2 {
        return None;
    }
    if parts[0] != String::from_str("argon2id") {
        proof {
            assert forall|params: CryptoParams| !names_kdf(text@, params) by {
                if names_kdf(text@, params) {
                    assert(texts(parts@)[0] == "argon2id"@);
                }
            }
        }
        return None;
    }
    let fields = split_at(parts[1].as_str(), ',');
    proof {
        assert forall|params: CryptoParams| names_kdf(text@, params) implies texts(fields@)
            == seq![
            cost_field("m"@, params.memory_cost),
            cost_field("t"@, params.time_cost),
            cost_field("p"@, params.parallelism),
        ] by {
            lemma_kdf_label_parts(params);
            assert(texts(parts@)[1] == kdf_costs_text(params));
        }
        lemma_join_inverts_split(parts@[1]@, ',');
    }
    if fields.len() != 3 {
        return None;
    }
    let memory_cost = match parse_cost_field(fields[0].as_str(), "m") {
        Some(value) => value,
        None => {
            proof {
                assert forall|params: CryptoParams| !names_kdf(text@, params) by {
                    if names_kdf(text@, params) {
                        assert(texts(fields@)[0] == cost_field("m"@, params.memory_cost));
                    }
                }
            }
            return None;
        },
    };
    let time_cost = match parse_cost_field(fields[1].as_str(), "t") {
        Some(value) => value,
        None => {
            proof {
                assert forall|params: CryptoParams| !names_kdf(text@, params) by {
                    if names_kdf(text@, params) {
                        assert(texts(fields@)[1] == cost_field("t"@, params.time_cost));
                    }
                }
            }
            return None;
        },
    };
    let parallelism = match parse_cost_field(fields[2].as_str(), "p") {
        Some(value) => value,
        None => {
            proof {
                assert forall|params: CryptoParams| !names_kdf(text@, params) by {
                    if names_kdf(text@, params) {
                        assert(texts(fields@)[2] == cost_field("p"@, params.parallelism));
                    }
                }
            }
            return None;
        },
    };
    let params = CryptoParams { time_cost, memory_cost, parallelism };
    proof {
        assert(texts(fields@) == seq![
            cost_field("m"@, memory_cost),
            cost_field("t"@, time_cost),
            cost_field("p"@, parallelism),
        ]);
        assert(texts(parts@) == seq!["argon2id"@, kdf_costs_text(params)]);
    }
    Some(params)
}

/// What the fields of a container stand for.
#[derive(Debug)]
pub struct ContainerFields {
    /// The costs of the key derivation.
    pub params: CryptoParams,
    pub salt: Vec<u8>,
    pub nonce: Vec<u8>,
    /// The ciphertext with the authentication tag at its end.
    pub ciphertext: Vec<u8>,
}

/// `file` is the container of the given costs, salt, nonce and ciphertext:
/// version 1, the key derivation named in full, the byte fields as base64.
pub open spec fn encodes(
    file: VaultFile,
    params: CryptoParams,
    salt: Seq<u8>,
    nonce: Seq<u8>,
    ciphertext: Seq<u8>,
) -> bool {
    &&& file.version == FORMAT_VERSION
    &&& file.kdf@ == kdf_label_text(params)
    &&& file.salt@ == base64_standard(salt)
    &&& file.nonce@ == base64_standard(nonce)
    &&& file.ciphertext@ == base64_standard(ciphertext)
}

/// What the fields of a container stand for: the costs that its key
/// derivation names, and the bytes that its byte fields are the base64
/// text of.
pub open spec fn decodes_to(
    file: VaultFile,
    params: CryptoParams,
    salt: Seq<u8>,
    nonce: Seq<u8>,
    ciphertext: Seq<u8>,
) -> bool {
    &&& names_kdf(file.kdf@, params)
    &&& is_base64_of(file.salt@, salt)
    &&& is_base64_of(file.nonce@, nonce)
    &&& is_base64_of(file.ciphertext@, ciphertext)
}

/// The container cannot be decoded: its key derivation is not understood,
/// or one of its byte fields is not base64 text.
pub open spec fn malformed(file: VaultFile) -> bool {
    ||| names_no_kdf(file.kdf@)
    ||| is_not_base64(file.salt@)
    ||| is_not_base64(file.nonce@)
    ||| is_not_base64(file.ciphertext@)
}

/// What `decode_container` returns on a given container.
pub open spec fn decode_container_post(
    file: VaultFile,
    outcome: Result<ContainerFields, StorageError>,
) -> bool {
    match outcome {
        Ok(fields) => decodes_to(
            file,
            fields.params,
            fields.salt@,
            fields.nonce@,
            fields.ciphertext@,
        ),
        Err(e) => e == StorageError::Format && malformed(file),
    }
}

/// Writes costs, salt, nonce and ciphertext into a container.
pub fn encode_container(params: &CryptoParams, salt: &[u8], nonce: &[u8], ciphertext: &[u8]) -> (file:
    VaultFile)
    ensures
        encodes(file, *params, salt@, nonce@, ciphertext@),
{
    VaultFile {
        version: FORMAT_VERSION,
        kdf: kdf_label(params),
        salt: encode_base64(salt),
        nonce: encode_base64(nonce),
        ciphertext: encode_base64(ciphertext),
    }
}

/// Reads costs, salt, nonce and ciphertext from a container. Whether the
/// ciphertext is genuine is not looked at; only opening it shows that. The
/// format version is not looked at either.
pub fn decode_container(file: &VaultFile) -> (r: Result<ContainerFields, StorageError>)
    ensures
        decode_container_post(*file, r),
{
    let params = match parse_kdf_label(file.kdf.as_str()) {
        Some(params) => params,
        None => {
            return Err(StorageError::Format);
        },
    };
    let salt = match decode_base64(file.salt.as_str()) {
        Ok(bytes) => bytes,
        Err(_) => {
            return Err(StorageError::Format);
        },
    };
    let nonce = match decode_base64(file.nonce.as_str()) {
        Ok(bytes) => bytes,
        Err(_) => {
            return Err(StorageError::Format);
        },
    };
    let ciphertext = match decode_base64(file.ciphertext.as_str()) {
        Ok(bytes) => bytes,
        Err(_) => {
            return Err(StorageError::Format);
        },
    };
    Ok(ContainerFields { params, salt, nonce, ciphertext })
}

/// Decoding a container gives back what was encoded into it.
pub proof fn lemma_decode_container_inverts_encode(
    file: VaultFile,
    params: CryptoParams,
    salt: Seq<u8>,
    nonce: Seq<u8>,
    ciphertext: Seq<u8>,
    decoded: Result<ContainerFields, StorageError>,
)
    requires
        encodes(file, params, salt, nonce, ciphertext),
        decode_container_post(file, decoded),
    ensures
        decoded matches Ok(fields) && fields.params == params && fields.salt@ == salt
            && fields.nonce@ == nonce && fields.ciphertext@ == ciphertext,
{
    assert(names_kdf(file.kdf@, params));
    assert(base64_standard(salt) == file.salt@);
    assert(base64_standard(nonce) == file.nonce@);
    assert(base64_standard(ciphertext) == file.ciphertext@);
    match decoded {
        Ok(fields) => {
            lemma_kdf_name_is_unambiguous(file.kdf@, params, fields.params);
        },
        Err(_) => {},
    }
}

} // verus!
