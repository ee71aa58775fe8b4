//! The calls this library makes into other crates.
//!
//! Nothing in this file is proved. Each function states what the called code
//! does, as its source shows it, and the rest of the library is proved from
//! these statements.

use vstd::prelude::*;

verus! {

/// The number that `bytes` denotes, most significant byte first.
pub open spec fn big_endian_value(bytes: Seq<u8>) -> nat
    decreases bytes.len(),
{
    if bytes.len() == 0 {
        0
    } else {
        256 * big_endian_value(bytes.drop_last()) + bytes.last() as nat
    }
}

/// The length of `bytes` without its leading zero bytes: the size in bytes
/// of the number that `bytes` denotes.
pub open spec fn significant_len(bytes: Seq<u8>) -> nat
    decreases bytes.len(),
{
    if bytes.len() == 0 {
        0
    } else if bytes[0] == 0 {
        significant_len(bytes.drop_first())
    } else {
        bytes.len()
    }
}

/// The public exponents that the `rsa` crate accepts: 2 up to 2^30.
pub open spec fn exponent_in_range(exponent: Seq<u8>) -> bool {
    2 <= big_endian_value(exponent) <= 0x4000_0000
}

/// Bytes that OAEP with SHA-256 adds to a message: two digests and two more.
pub open spec fn oaep_overhead() -> nat {
    66
}

/// Whether the `rsa` crate encrypts a message of `message_len` bytes with
/// OAEP over SHA-256 under this key: the exponent is one it accepts, and the
/// message with the padding fits in the modulus.
pub open spec fn oaep_accepts(modulus: Seq<u8>, exponent: Seq<u8>, message_len: nat) -> bool {
    exponent_in_range(exponent) && message_len + oaep_overhead() <= significant_len(modulus)
}

/// Why the `rsa` crate does not encrypt under a key that `oaep_accepts`
/// turns down, in the words of the crate's error: the exponent is looked at
/// first, the length of the message last.
pub open spec fn oaep_refusal(exponent: Seq<u8>) -> Seq<char> {
    if big_endian_value(exponent) < 2 {
        "PublicExponentTooSmall"@
    } else if big_endian_value(exponent) > 0x4000_0000 {
        "PublicExponentTooLarge"@
    } else {
        "MessageTooLong"@
    }
}

/// Whether `c` is a hexadecimal digit, of either case.
pub open spec fn is_hex_digit(c: char) -> bool {
    ('0' <= c && c <= '9') || ('a' <= c && c <= 'f') || ('A' <= c && c <= 'F')
}

/// The number a hexadecimal digit stands for.
pub open spec fn hex_digit_value(c: char) -> nat
    recommends
        is_hex_digit(c),
{
    if '0' <= c && c <= '9' {
        (c as u32 - '0' as u32) as nat
    } else if 'a' <= c && c <= 'f' {
        (c as u32 - 'a' as u32 + 10) as nat
    } else {
        (c as u32 - 'A' as u32 + 10) as nat
    }
}

/// Whether `s` is an even number of hexadecimal digits.
pub open spec fn is_hex(s: Seq<char>) -> bool {
    s.len() % 2 == 0 && forall|i: int| 0 <= i < s.len() ==> is_hex_digit(#[trigger] s[i])
}

/// The bytes that the hexadecimal text `s` denotes, two digits to a byte.
pub open spec fn hex_bytes(s: Seq<char>) -> Seq<u8>
    recommends
        is_hex(s),
{
    Seq::new(
        s.len() / 2,
        |i: int| (16 * hex_digit_value(s[2 * i]) + hex_digit_value(s[2 * i + 1])) as u8,
    )
}

/// The SHA-256 digest of `data`.
pub uninterp spec fn sha256_digest(data: Seq<u8>) -> Seq<u8>;

/// Whether `signature` is a PKCS#1 v1.5 signature over the SHA-256 digest
/// `digest`, by the key with this modulus and public exponent.
pub uninterp spec fn pkcs1v15_sha256_accepts(
    modulus: Seq<u8>,
    exponent: Seq<u8>,
    digest: Seq<u8>,
    signature: Seq<u8>,
) -> bool;

/// Whether `ciphertext` is among the RSA-OAEP (SHA-256) encryptions of
/// `message` under the key with this modulus and public exponent. Encryption
/// draws a fresh seed each time, so one message has many ciphertexts: this is
/// a relation, and it picks none of them.
pub uninterp spec fn oaep_sha256_encrypts(
    modulus: Seq<u8>,
    exponent: Seq<u8>,
    message: Seq<u8>,
    ciphertext: Seq<u8>,
) -> bool;

/// The tag and the decoded contents of the first PEM block in `text`, if
/// `text` holds a well-formed one.
pub uninterp spec fn pem_block(text: Seq<char>) -> Option<(Seq<char>, Seq<u8>)>;

/// The modulus and public exponent, most significant byte first, of the RSA
/// public key that a PEM block with this tag and these contents encodes, if
/// it encodes one.
pub uninterp spec fn rsa_public_key(tag: Seq<char>, contents: Seq<u8>) -> Option<(Seq<u8>, Seq<u8>)>;

/// What a JSON document says of its method: `None` if `json` is not a JSON
/// document, `Some(None)` if it is one without a text under the key `method`
/// at its top level, and `Some(Some(name))` if that text is `name`.
pub uninterp spec fn json_method(json: Seq<u8>) -> Option<Option<Seq<char>>>;

/// `Digest::digest` of `sha2::Sha256`: the SHA-256 digest of `data`, which is
/// 32 bytes long.
#[verifier::external_body]
pub(crate) fn sha256(data: &[u8]) -> (r: Vec<u8>)
    ensures
        r@ == sha256_digest(data@),
        r@.len() == 32,
{
    <sha2::Sha256 as digest::Digest>::digest(data).to_vec()
}

/// `Unsigned::to_usize` on the output size of `sha2::Sha256`: 32.
#[verifier::external_body]
pub(crate) fn sha256_output_size() -> (r: usize)
    ensures
        r == 32,
{
    <<sha2::Sha256 as digest::Digest>::OutputSize as generic_array::typenum::Unsigned>::to_usize()
}

/// `rsa::PublicKey::verify` with PKCS#1 v1.5 padding for SHA-256, on the key
/// built by `rsa::RSAPublicKey::new`. A key that `new` turns down accepts no
/// signature.
#[verifier::external_body]
pub(crate) fn pkcs1v15_sha256_verify(
    modulus: &[u8],
    exponent: &[u8],
    digest: &[u8],
    signature: &[u8],
) -> (r: bool)
    ensures
        r == pkcs1v15_sha256_accepts(modulus@, exponent@, digest@, signature@),
{
    let n = rsa::BigUint::from_bytes_be(modulus);
    let e = rsa::BigUint::from_bytes_be(exponent);
    let padding = rsa::PaddingScheme::new_pkcs1v15_sign(Some(rsa::Hash::SHA2_256));
    match rsa::RSAPublicKey::new(n, e) {
        Ok(key) => rsa::PublicKey::verify(&key, padding, digest, signature).is_ok(),
        Err(_) => false,
    }
}

/// `rsa::PublicKey::encrypt` with OAEP padding over SHA-256 and the thread's
/// random generator, on the key built by `rsa::RSAPublicKey::new`.
///
/// The call succeeds exactly when the exponent is one the crate accepts and
/// the message, with the padding's 66 bytes, fits in the modulus. The
/// ciphertext is as long as the modulus. On failure the result is the
/// `Debug` text of the crate's error, which is the name of one of three of
/// its variants.
#[verifier::external_body]
pub(crate) fn oaep_sha256_encrypt(
    modulus: &[u8],
    exponent: &[u8],
    message: &[u8],
) -> (r: Result<Vec<u8>, String>)
    ensures
        r is Ok <==> oaep_accepts(modulus@, exponent@, message@.len()),
        r is Ok ==> r->Ok_0@.len() == significant_len(modulus@),
        r is Ok ==> oaep_sha256_encrypts(modulus@, exponent@, message@, r->Ok_0@),
        r is Err ==> r->Err_0@ == oaep_refusal(exponent@),
{
    let n = rsa::BigUint::from_bytes_be(modulus);
    let e = rsa::BigUint::from_bytes_be(exponent);
    let key = rsa::RSAPublicKey::new(n, e).map_err(|err| format!("{:?}", err))?;
    let padding = rsa::PaddingScheme::new_oaep::<sha2::Sha256>();
    let mut rng = rand::thread_rng();
    rsa::PublicKey::encrypt(&key, &mut rng, padding, message).map_err(|err| format!("{:?}", err))
}

/// `pem::parse`: the first PEM block of `text`, as its tag and its decoded
/// contents, or the `Debug` text of the crate's error.
#[verifier::external_body]
pub(crate) fn pem_parse(text: &str) -> (r: Result<(String, Vec<u8>), String>)
    ensures
        match r {
            Ok(block) => pem_block(text@) == Some((block.0@, block.1@)),
            Err(_) => pem_block(text@) is None,
        },
{
    match pem::parse(text) {
        Ok(block) => Ok((block.tag, block.contents)),
        Err(err) => Err(format!("{:?}", err)),
    }
}

/// `RSAPublicKey::try_from` on a PEM block: the modulus and the public
/// exponent of the key it encodes, most significant byte first, or the
/// `Debug` text of the crate's error. The crate hands out no key whose
/// exponent it does not accept.
#[verifier::external_body]
pub(crate) fn rsa_public_key_from_pem(
    tag: String,
    contents: Vec<u8>,
) -> (r: Result<(Vec<u8>, Vec<u8>), String>)
    ensures
        match r {
            Ok(key) => rsa_public_key(tag@, contents@) == Some((key.0@, key.1@))
                && exponent_in_range(key.1@),
            Err(_) => rsa_public_key(tag@, contents@) is None,
        },
{
    let block = pem::Pem { tag, contents };
    match <rsa::RSAPublicKey as std::convert::TryFrom<pem::Pem>>::try_from(block) {
        Ok(key) => Ok(
            (
                rsa::PublicKeyParts::n(&key).to_bytes_be(),
                rsa::PublicKeyParts::e(&key).to_bytes_be(),
            ),
        ),
        Err(err) => Err(format!("{:?}", err)),
    }
}

/// `hex::decode`, with the `Debug` text of the crate's error.
///
/// The call succeeds exactly on an even number of hexadecimal digits, of
/// either case; each pair of digits gives one byte, the first digit its high
/// half.
#[verifier::external_body]
pub(crate) fn hex_decode(src: &str) -> (r: Result<Vec<u8>, String>)
    ensures
        r is Ok <==> is_hex(src@),
        r matches Ok(bytes) ==> bytes@ == hex_bytes(src@),
{
    hex::decode(src).map_err(|err| format!("{:?}", err))
}

/// `serde_json::Error`: why a text is no JSON document. Nothing is known of
/// what is inside.
#[verifier::external_type_specification]
#[verifier::external_body]
pub struct ExJsonError(serde_json::Error);

/// `serde_json::from_slice` into a `serde_json::Value`, then the text under
/// the key `method`, as `Value`'s index and `as_str` give it.
#[verifier::external_body]
pub(crate) fn parse_json_method(json: &[u8]) -> (r: Result<Option<String>, serde_json::Error>)
    ensures
        match r {
            Ok(Some(name)) => json_method(json@) == Some(Some(name@)),
            Ok(None) => json_method(json@) == Some(None::<Seq<char>>),
            Err(_) => json_method(json@) is None,
        },
{
    let document: serde_json::Value = serde_json::from_slice(json)?;
    Ok(document["method"].as_str().map(|name| name.to_owned()))
}

/// The `Display` text of a `serde_json::Error`.
#[verifier::external_body]
pub(crate) fn json_error_text(err: &serde_json::Error) -> (r: String) {
    format!("{}", err)
}

} // verus!
