//! The envelope that lets a request and its answer cross the public node
//! unread and unforged: signature checks on the way in, chunked RSA-OAEP
//! encryption on the way out.

use crate::bindings::{
    exponent_in_range, oaep_overhead, oaep_refusal, oaep_sha256_encrypt, oaep_sha256_encrypts, pem_block,
    pem_parse, pkcs1v15_sha256_accepts, pkcs1v15_sha256_verify, rsa_public_key,
    rsa_public_key_from_pem, sha256, sha256_digest, sha256_output_size, significant_len,
};
use vstd::prelude::*;
use vstd::slice::slice_subrange;
use vstd::string::StringExecFns;

verus! {

/// An RSA public key: modulus and public exponent, most significant byte
/// first.
#[derive(Debug, PartialEq, Eq)]
pub struct PublicKey {
    pub modulus: Vec<u8>,
    pub exponent: Vec<u8>,
}

impl Clone for PublicKey {
    fn clone(&self) -> (r: Self)
        ensures
            r.modulus@ == self.modulus@,
            r.exponent@ == self.exponent@,
    {
        PublicKey { modulus: self.modulus.clone(), exponent: self.exponent.clone() }
    }
}

impl PublicKey {
    /// The length of the modulus in bytes. Every ciphertext block and every
    /// signature under this key is this long.
    pub open spec fn spec_size(&self) -> nat {
        significant_len(self.modulus@)
    }

    /// Whether the public exponent is one that RSA operations accept.
    pub open spec fn wf(&self) -> bool {
        exponent_in_range(self.exponent@)
    }

    /// The most bytes that one OAEP block can carry under this key: the
    /// length of the modulus less the padding, or nothing where the modulus
    /// is too short for the padding.
    pub open spec fn spec_max_chunk_size(&self) -> nat {
        if self.spec_size() > oaep_overhead() {
            (self.spec_size() - oaep_overhead()) as nat
        } else {
            0
        }
    }

    /// Whether the key can encrypt: its exponent is in range and one block
    /// carries at least a byte.
    pub open spec fn can_encrypt(&self) -> bool {
        self.wf() && self.spec_max_chunk_size() > 0
    }

    /// The length of the modulus in bytes.
    pub fn size(&self) -> (r: usize)
        ensures
            r == self.spec_size(),
    {
        let len: usize = self.modulus.len();
        let mut i: usize = 0;
        assert(self.modulus@.skip(0) =~= self.modulus@);
        while i < len && self.modulus[i] == 0
            invariant
                i <= len,
                len == self.modulus@.len(),
                significant_len(self.modulus@) == significant_len(self.modulus@.skip(i as int)),
            decreases len - i,
        {
            assert(self.modulus@.skip(i as int).drop_first() =~= self.modulus@.skip(i + 1));
            i += 1;
        }
        len - i
    }
}

/// How many chunks of at most `size` bytes a payload of `len` bytes makes.
pub open spec fn chunk_count(len: nat, size: nat) -> nat {
    if size == 0 {
        0
    } else {
        ((len + size - 1) / (size as int)) as nat
    }
}

/// The `i`-th chunk of `payload` when it is cut every `size` bytes. Every
/// chunk but the last is `size` bytes long.
pub open spec fn chunk(payload: Seq<u8>, size: nat, i: int) -> Seq<u8>
    recommends
        size > 0,
        0 <= i < chunk_count(payload.len(), size),
{
    let end = if (i + 1) * size <= payload.len() {
        (i + 1) * size
    } else {
        payload.len() as int
    };
    payload.subrange(i * size, end)
}

/// The `i`-th block of `size` bytes of `ciphertext`.
pub open spec fn block(ciphertext: Seq<u8>, size: nat, i: int) -> Seq<u8> {
    ciphertext.subrange(i * size, (i + 1) * size)
}

/// Whether `ciphertext` is an envelope of `payload` under `key`: one block of
/// modulus length for each chunk of the payload, in order, each block an
/// OAEP encryption of its chunk.
pub open spec fn is_envelope(key: PublicKey, payload: Seq<u8>, ciphertext: Seq<u8>) -> bool {
    let size = key.spec_size();
    let chunk_size = key.spec_max_chunk_size();
    let count = chunk_count(payload.len(), chunk_size);
    &&& ciphertext.len() == count * size
    &&& forall|i: int|
        0 <= i < count ==> oaep_sha256_encrypts(
            key.modulus@,
            key.exponent@,
            #[trigger] chunk(payload, chunk_size, i),
            block(ciphertext, size, i),
        )
}

/// The first `count` chunks of `payload`, joined in order.
pub open spec fn join_chunks(payload: Seq<u8>, size: nat, count: nat) -> Seq<u8>
    decreases count,
{
    if count == 0 {
        Seq::empty()
    } else {
        join_chunks(payload, size, (count - 1) as nat) + chunk(payload, size, count - 1)
    }
}

/// What a reader makes of an envelope: the first `count` blocks of `size`
/// bytes, each opened by `open`, joined in order.
pub open spec fn open_envelope(
    ciphertext: Seq<u8>,
    size: nat,
    count: nat,
    open: spec_fn(Seq<u8>) -> Seq<u8>,
) -> Seq<u8>
    decreases count,
{
    if count == 0 {
        Seq::empty()
    } else {
        open_envelope(ciphertext, size, (count - 1) as nat, open) + open(
            block(ciphertext, size, count - 1),
        )
    }
}

/// The chunks of a payload, joined in order, are the payload.
pub proof fn lemma_join_chunks(payload: Seq<u8>, size: nat, count: nat)
    requires
        size > 0,
        count <= chunk_count(payload.len(), size),
    ensures
        join_chunks(payload, size, count) == payload.subrange(
            0,
            if count * size <= payload.len() {
                (count * size) as int
            } else {
                payload.len() as int
            },
        ),
    decreases count,
{
    if count == 0 {
        assert(0 * size == 0) by (nonlinear_arith);
        assert(payload.subrange(0, 0) =~= Seq::<u8>::empty());
    } else {
        let before = (count - 1) as nat;
        lemma_join_chunks(payload, size, before);
        assert(count * size == before * size + size) by (nonlinear_arith)
            requires
                before == count - 1,
        ;
        assert(before * size < payload.len()) by (nonlinear_arith)
            requires
                size > 0,
                before < (payload.len() + size - 1) / (size as int),
        ;
        let end = if count * size <= payload.len() {
            (count * size) as int
        } else {
            payload.len() as int
        };
        assert(chunk(payload, size, before as int) == payload.subrange((before * size) as int, end));
        assert(payload.subrange(0, (before * size) as int) + payload.subrange(
            (before * size) as int,
            end,
        ) =~= payload.subrange(0, end));
    }
}

/// Round trip: a reader who cuts an envelope into blocks of modulus length
/// and opens each block on its own gets the payload back, whole and in
/// order, provided that `open` undoes the encryption of a single block. The
/// holder of the private key has such an `open`.
pub proof fn lemma_envelope_round_trip(
    key: PublicKey,
    payload: Seq<u8>,
    ciphertext: Seq<u8>,
    open: spec_fn(Seq<u8>) -> Seq<u8>,
)
    requires
        payload.len() > 0 ==> key.spec_max_chunk_size() > 0,
        is_envelope(key, payload, ciphertext),
        forall|message: Seq<u8>, sealed: Seq<u8>| #[trigger]
            oaep_sha256_encrypts(key.modulus@, key.exponent@, message, sealed) ==> open(sealed)
                == message,
    ensures
        key.spec_size() > 0 ==> open_envelope(
            ciphertext,
            key.spec_size(),
            ciphertext.len() / key.spec_size(),
            open,
        ) == payload,
        payload.len() == 0 ==> ciphertext.len() == 0,
{
    let size = key.spec_size();
    let chunk_size = key.spec_max_chunk_size();
    let count = chunk_count(payload.len(), chunk_size);
    if chunk_size == 0 {
        assert(count == 0);
        assert(count * size == 0) by (nonlinear_arith)
            requires
                count == 0,
        ;
        assert(payload =~= Seq::<u8>::empty());
        if size > 0 {
            assert(0int / (size as int) == 0) by (nonlinear_arith)
                requires
                    size > 0,
            ;
        }
    } else {
        assert(ciphertext.len() / size == count) by (nonlinear_arith)
            requires
                size > 0,
                ciphertext.len() == count * size,
        ;
        lemma_opened_is_joined(key, payload, ciphertext, open, count);
        lemma_join_chunks(payload, chunk_size, count);
        assert(count * chunk_size >= payload.len()) by (nonlinear_arith)
            requires
                chunk_size > 0,
                count == (payload.len() + chunk_size - 1) / (chunk_size as int),
        ;
        assert(payload.subrange(0, payload.len() as int) =~= payload);
        if payload.len() == 0 {
            assert(count == 0) by (nonlinear_arith)
                requires
                    chunk_size > 0,
                    payload.len() == 0,
                    count == (payload.len() + chunk_size - 1) / (chunk_size as int),
            ;
            assert(count * size == 0) by (nonlinear_arith)
                requires
                    count == 0,
            ;
        }
    }
}

proof fn lemma_opened_is_joined(
    key: PublicKey,
    payload: Seq<u8>,
    ciphertext: Seq<u8>,
    open: spec_fn(Seq<u8>) -> Seq<u8>,
    count: nat,
)
    requires
        is_envelope(key, payload, ciphertext),
        count <= chunk_count(payload.len(), key.spec_max_chunk_size()),
        forall|message: Seq<u8>, sealed: Seq<u8>| #[trigger]
            oaep_sha256_encrypts(key.modulus@, key.exponent@, message, sealed) ==> open(sealed)
                == message,
    ensures
        open_envelope(ciphertext, key.spec_size(), count, open) == join_chunks(
            payload,
            key.spec_max_chunk_size(),
            count,
        ),
    decreases count,
{
    if count > 0 {
        lemma_opened_is_joined(key, payload, ciphertext, open, (count - 1) as nat);
        let piece = chunk(payload, key.spec_max_chunk_size(), count - 1);
        assert(oaep_sha256_encrypts(
            key.modulus@,
            key.exponent@,
            piece,
            block(ciphertext, key.spec_size(), count - 1),
        ));
    }
}

/// Whether `message` opens with `prefix`.
pub open spec fn starts_with(message: Seq<char>, prefix: Seq<char>) -> bool {
    message.len() >= prefix.len() && message.subrange(0, prefix.len() as int) == prefix
}

proof fn lemma_chunk_count_step(len: nat, size: nat, i: nat)
    requires
        size > 0,
        i * size < len,
    ensures
        i < chunk_count(len, size),
        (i + 1) * size >= len ==> chunk_count(len, size) == i + 1,
{
    assert(i < (len + size - 1) / (size as int)) by (nonlinear_arith)
        requires
            size > 0,
            i * size < len,
    ;
    if (i + 1) * size >= len {
        assert((len + size - 1) / (size as int) == i + 1) by (nonlinear_arith)
            requires
                size > 0,
                i * size < len,
                (i + 1) * size >= len,
        ;
    }
}

/// The error that `encrypt` gives; `detail` is what the RSA operation said.
fn encrypt_failure(detail: &str) -> (r: String)
    ensures
        r@ == "encrypt failed: "@ + detail@,
{
    String::from_str("encrypt failed: ").concat(detail)
}

/// Encrypts a payload of any length: the payload is cut into chunks of the
/// largest size that one OAEP block carries, each chunk is encrypted on its
/// own with fresh randomness, and the blocks are joined in order. The empty
/// payload makes the empty envelope under any key; any other payload needs a
/// key that can encrypt.
pub fn encrypt(key: &PublicKey, payload: &[u8]) -> (r: Result<Vec<u8>, String>)
    ensures
        r is Ok <==> payload@.len() == 0 || key.can_encrypt(),
        r matches Ok(ciphertext) ==> is_envelope(*key, payload@, ciphertext@),
        r matches Err(message) ==> message@ == "encrypt failed: "@ + oaep_refusal(
            key.exponent@,
        ),
{
    let key_size: usize = key.size();
    let hash_size: usize = sha256_output_size();
    let len: usize = payload.len();
    let mut out: Vec<u8> = Vec::new();
    if len == 0 {
        assert(chunk_count(0, key.spec_max_chunk_size()) == 0) by (nonlinear_arith);
        return Ok(out);
    }
    if key_size <= 2 * hash_size + 2 {
        // A modulus this short has no room for a byte beside the padding, so
        // the operation turns the payload down.
        return match oaep_sha256_encrypt(
            key.modulus.as_slice(),
            key.exponent.as_slice(),
            payload,
        ) {
            Ok(_) => Ok(out),
            Err(detail) => Err(encrypt_failure(detail.as_str())),
        };
    }
    let max_chunk_size: usize = key_size - (2 * hash_size + 2);
    let mut start: usize = 0;
    let ghost mut done: nat = 0;
    let ghost size = key.spec_size();
    let ghost chunk_size = key.spec_max_chunk_size();
    while start < len
        invariant
            len == payload@.len(),
            key_size == size,
            size == key.spec_size(),
            max_chunk_size == chunk_size,
            chunk_size == key.spec_max_chunk_size(),
            chunk_size > 0,
            start <= len,
            start < len ==> start == done * chunk_size,
            start == len ==> done == chunk_count(len as nat, chunk_size),
            start > 0 ==> key.wf(),
            out@.len() == done * size,
            forall|i: int|
                0 <= i < done ==> oaep_sha256_encrypts(
                    key.modulus@,
                    key.exponent@,
                    #[trigger] chunk(payload@, chunk_size, i),
                    block(out@, size, i),
                ),
        decreases len - start,
    {
        let end: usize = if len - start <= max_chunk_size {
            len
        } else {
            start + max_chunk_size
        };
        proof {
            lemma_chunk_count_step(len as nat, chunk_size, done);
            assert((done + 1) * chunk_size == done * chunk_size + chunk_size)
                by (nonlinear_arith);
            assert(payload@.subrange(start as int, end as int) == chunk(
                payload@,
                chunk_size,
                done as int,
            ));
        }
        let piece = slice_subrange(payload, start, end);
        match oaep_sha256_encrypt(key.modulus.as_slice(), key.exponent.as_slice(), piece) {
            Ok(mut sealed) => {
                let ghost before = out@;
                let ghost sealed_view = sealed@;
                out.append(&mut sealed);
                proof {
                    assert((done + 1) * size == done * size + size) by (nonlinear_arith);
                    assert(block(out@, size, done as int) =~= sealed_view);
                    assert forall|i: int| 0 <= i < done implies block(out@, size, i) == block(
                        before,
                        size,
                        i,
                    ) by {
                        assert((i + 1) * size <= done * size) by (nonlinear_arith)
                            requires
                                0 <= i < done,
                        ;
                        assert(i * size >= 0) by (nonlinear_arith)
                            requires
                                0 <= i,
                        ;
                        assert((i + 1) * size == i * size + size) by (nonlinear_arith);
                        assert(before.len() == done * size);
                        assert(out@ =~= before + sealed_view);
                        assert(block(out@, size, i) =~= block(before, size, i));
                    }
                    done = done + 1;
                }
                start = end;
            },
            Err(detail) => {
                return Err(encrypt_failure(detail.as_str()));
            },
        }
    }
    Ok(out)
}

/// Whether `signature` is the signature of the holder of `key` over
/// `message`: RSA with PKCS#1 v1.5 padding over the SHA-256 digest.
pub open spec fn signature_valid(key: PublicKey, message: Seq<u8>, signature: Seq<u8>) -> bool {
    pkcs1v15_sha256_accepts(key.modulus@, key.exponent@, sha256_digest(message), signature)
}

/// Checks the signature that came with a signed request.
pub fn verify_sig(key: &PublicKey, message: &[u8], signature: &[u8]) -> (r: bool)
    ensures
        r == signature_valid(*key, message@, signature@),
{
    let hashed = sha256(message);
    pkcs1v15_sha256_verify(
        key.modulus.as_slice(),
        key.exponent.as_slice(),
        hashed.as_slice(),
        signature,
    )
}

/// The text that opens the error for a key file that is no PEM.
pub open spec fn parsing_failure_prefix(path: Seq<char>) -> Seq<char> {
    "failed parsing key file "@ + path + ": "@
}

/// The text that opens the error for a PEM block that holds no RSA key.
pub open spec fn loading_failure_prefix(path: Seq<char>) -> Seq<char> {
    "failed loading key file "@ + path + ": "@
}

/// What the text of a key file holds: the key, or nothing if the text is no
/// PEM or its first block is no RSA public key.
pub open spec fn key_in(text: Seq<char>) -> Option<(Seq<u8>, Seq<u8>)> {
    match pem_block(text) {
        Some((tag, contents)) => rsa_public_key(tag, contents),
        None => None,
    }
}

/// The error for a key file whose text is no PEM; `detail` is what the PEM
/// parser said.
pub fn parsing_failure(path: &str, detail: &str) -> (r: String)
    ensures
        r@ == parsing_failure_prefix(path@) + detail@,
{
    let message = String::from_str("failed parsing key file ").concat(path).concat(": ").concat(
        detail,
    );
    assert(message@ =~= parsing_failure_prefix(path@) + detail@);
    message
}

/// The error for a key file whose PEM block holds no RSA public key;
/// `detail` is what the key parser said.
pub fn loading_failure(path: &str, detail: &str) -> (r: String)
    ensures
        r@ == loading_failure_prefix(path@) + detail@,
{
    let message = String::from_str("failed loading key file ").concat(path).concat(": ").concat(
        detail,
    );
    assert(message@ =~= loading_failure_prefix(path@) + detail@);
    message
}

/// Reads the relay's public key from the text of its PEM file. `path` is
/// the file's name, for the error messages.
pub fn load_public_key(path: &str, text: &str) -> (r: Result<PublicKey, String>)
    ensures
        match r {
            Ok(key) => key_in(text@) == Some((key.modulus@, key.exponent@)) && key.wf(),
            Err(message) => key_in(text@) is None && if pem_block(text@) is None {
                starts_with(message@, parsing_failure_prefix(path@))
            } else {
                starts_with(message@, loading_failure_prefix(path@))
            },
        },
{
    match pem_parse(text) {
        Err(detail) => {
            let message = parsing_failure(path, detail.as_str());
            assert(message@.subrange(0, parsing_failure_prefix(path@).len() as int)
                =~= parsing_failure_prefix(path@));
            Err(message)
        },
        Ok(parsed) => {
            let (tag, contents) = parsed;
            match rsa_public_key_from_pem(tag, contents) {
                Err(detail) => {
                    let message = loading_failure(path, detail.as_str());
                    assert(message@.subrange(0, loading_failure_prefix(path@).len() as int)
                        =~= loading_failure_prefix(path@));
                    Err(message)
                },
                Ok(parts) => {
                    let (modulus, exponent) = parts;
                    Ok(PublicKey { modulus, exponent })
                },
            }
        },
    }
}

} // verus!
