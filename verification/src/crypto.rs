//! The cryptographic primitives the ledger rests on: SHA-256, lower-case hex
//! text, and ECDSA over secp256k1. Keys, digests and signatures travel as
//! plain bytes: a secret key as its 32 bytes, a public key in compressed
//! form, a signature in compact form.
//!
//! The primitives themselves are not verified here. Each is reached through
//! one function whose contract is taken on trust; everything built on top of
//! them is proved from those contracts.

use crate::encoding::optional_view;
use rand::rngs::OsRng;
use secp256k1::ecdsa::Signature;
use secp256k1::{Message, PublicKey, Secp256k1, SecretKey};
use sha2::{Digest, Sha256};
use vstd::prelude::*;

verus! {

/// Length of a SHA-256 digest in bytes.
pub const DIGEST_LEN: usize = 32;

/// The SHA-256 digest of `data`.
pub uninterp spec fn sha256_digest(data: Seq<u8>) -> Seq<u8>;

/// The compact ECDSA signature of a 32-byte `digest` under `secret_key`, made
/// with a deterministic nonce; `None` where the digest or the key is
/// malformed.
pub uninterp spec fn ecdsa_signature(digest: Seq<u8>, secret_key: Seq<u8>) -> Option<Seq<u8>>;

/// Whether `signature` is a well-formed ECDSA signature of `digest` that
/// checks out under a well-formed `public_key`.
pub uninterp spec fn ecdsa_verifies(digest: Seq<u8>, signature: Seq<u8>, public_key: Seq<u8>) -> bool;

/// The ASCII code of the lower-case hex digit for `nibble`, meaningful for
/// `nibble < 16`.
pub open spec fn hex_digit(nibble: int) -> u8 {
    if nibble < 10 {
        (48 + nibble) as u8
    } else {
        (87 + nibble) as u8
    }
}

/// Lower-case hex text of `data`: two digits per byte, high nibble first.
pub open spec fn hex_text(data: Seq<u8>) -> Seq<char> {
    Seq::new(
        2 * data.len(),
        |i: int|
            hex_digit(
                if i % 2 == 0 {
                    data[i / 2] as int / 16
                } else {
                    data[i / 2] as int % 16
                },
            ) as char,
    )
}

/// A secret key and a public key belong together when every 32-byte digest
/// can be signed with the one and the signature checks out under the other.
pub open spec fn keypair_matches(secret_key: Seq<u8>, public_key: Seq<u8>) -> bool {
    forall|digest: Seq<u8>|
        digest.len() == DIGEST_LEN ==> {
            &&& (#[trigger] ecdsa_signature(digest, secret_key)) is Some
            &&& ecdsa_verifies(digest, ecdsa_signature(digest, secret_key)->0, public_key)
        }
}

/// SHA-256 tells `a` and `b` apart: if they differ, so do their digests.
/// No two byte strings are known for which this fails.
pub open spec fn sha256_tells_apart(a: Seq<u8>, b: Seq<u8>) -> bool {
    a != b ==> sha256_digest(a) != sha256_digest(b)
}

/// Different byte strings have different hex text.
pub proof fn lemma_hex_text_injective(a: Seq<u8>, b: Seq<u8>)
    requires
        hex_text(a) == hex_text(b),
    ensures
        a == b,
{
    assert(hex_text(a).len() == 2 * a.len());
    assert(hex_text(b).len() == 2 * b.len());
    assert forall|k: int| 0 <= k < a.len() implies a[k] == b[k] by {
        let x = a[k] as int;
        let y = b[k] as int;
        assert(hex_text(a)[2 * k] == hex_digit(x / 16) as char);
        assert(hex_text(b)[2 * k] == hex_digit(y / 16) as char);
        assert(hex_text(a)[2 * k + 1] == hex_digit(x % 16) as char);
        assert(hex_text(b)[2 * k + 1] == hex_digit(y % 16) as char);
    }
    assert(a =~= b);
}

/// Calls `Sha256::digest` of the `sha2` crate. Trusted: the result is the
/// SHA-256 digest of the input, which is 32 bytes long.
#[verifier::external_body]
pub(crate) fn sha256(data: &[u8]) -> (digest: Vec<u8>)
    ensures
        digest@ == sha256_digest(data@),
        digest@.len() == DIGEST_LEN,
{
    Sha256::digest(data).to_vec()
}

/// Calls `hex::encode`. Trusted: the result holds two lower-case hex digits
/// for each input byte, in order, the high nibble first.
#[verifier::external_body]
pub(crate) fn hex_encode(data: &[u8]) -> (text: String)
    ensures
        text@ == hex_text(data@),
{
    ::hex::encode(data)
}

/// Calls `Secp256k1::sign_ecdsa` on a digest and a secret key parsed from
/// bytes, and serialises the signature in compact form; there is no
/// signature where one of the two does not parse. Trusted: the result
/// depends on the two byte strings alone, since the nonce is derived from
/// them.
#[verifier::external_body]
pub(crate) fn ecdsa_sign(digest: &[u8], secret_key: &[u8]) -> (signature: Option<Vec<u8>>)
    ensures
        optional_view(signature) == ecdsa_signature(digest@, secret_key@),
{
    let message = Message::from_digest_slice(digest).ok()?;
    let key = SecretKey::from_slice(secret_key).ok()?;
    Some(Secp256k1::new().sign_ecdsa(&message, &key).serialize_compact().to_vec())
}

/// Calls `Secp256k1::verify_ecdsa` on a digest, a compact signature and a
/// public key parsed from bytes; the answer is `false` where one of the
/// three does not parse. Trusted: the answer depends on the three byte
/// strings alone.
#[verifier::external_body]
pub(crate) fn ecdsa_verify(digest: &[u8], signature: &[u8], public_key: &[u8]) -> (ok: bool)
    ensures
        ok == ecdsa_verifies(digest@, signature@, public_key@),
{
    let message = Message::from_digest_slice(digest);
    let signature = Signature::from_compact(signature);
    let key = PublicKey::from_slice(public_key);
    match (message, signature, key) {
        (Ok(m), Ok(s), Ok(k)) => Secp256k1::new().verify_ecdsa(&m, &s, &k).is_ok(),
        _ => false,
    }
}

/// Calls `Secp256k1::generate_keypair` with the operating system's random
/// source and serialises both keys. Trusted, of every outcome: the secret
/// key has 32 bytes, the public key 33, and the two belong together, which
/// is the correctness of ECDSA: what the secret key signs, the public key
/// derived from it accepts.
#[verifier::external_body]
pub(crate) fn generate_keypair() -> (keys: (Vec<u8>, Vec<u8>))
    ensures
        keys.0@.len() == 32,
        keys.1@.len() == 33,
        keypair_matches(keys.0@, keys.1@),
{
    let (secret_key, public_key) = Secp256k1::new().generate_keypair(&mut OsRng);
    (secret_key.secret_bytes().to_vec(), public_key.serialize().to_vec())
}

} // verus!
