//! A wallet: a key pair and the address derived from its public key.

use crate::crypto::{generate_keypair, hex_encode, hex_text, keypair_matches, sha256, sha256_digest};
use crate::encoding::{byte_list_text, push_byte_list_text};
use vstd::prelude::*;
use vstd::string::*;

verus! {

/// A key pair with its address. The secret key is held as its 32 bytes, the
/// public key in compressed form.
pub struct Wallet {
    pub secret_key: Vec<u8>,
    pub public_key: Vec<u8>,
    pub address: String,
}

impl Clone for Wallet {
    fn clone(&self) -> (copy: Self)
        ensures
            copy.secret_key@ == self.secret_key@,
            copy.public_key@ == self.public_key@,
            copy.address@ == self.address@,
    {
        let secret_key = self.secret_key.clone();
        let public_key = self.public_key.clone();
        Wallet { secret_key, public_key, address: self.address.clone() }
    }
}

/// The address that belongs to a public key: the hex text of its SHA-256
/// digest.
pub open spec fn address_of(public_key: Seq<u8>) -> Seq<char> {
    hex_text(sha256_digest(public_key))
}

impl Wallet {
    /// A wallet is well formed when its keys belong together and its address
    /// is the one of its public key.
    pub open spec fn wf(&self) -> bool {
        &&& keypair_matches(self.secret_key@, self.public_key@)
        &&& self.address@ == address_of(self.public_key@)
    }

    /// What `info` tells of the wallet: the address on one line, the bytes of
    /// the public key on the next. The secret key is not told.
    pub open spec fn info_text(&self) -> Seq<char> {
        "Wallet address: "@ + self.address@ + "\nPublic key: "@ + byte_list_text(
            self.public_key@,
        )
    }

    /// The wallet's address and public key as two lines of text.
    pub fn info(&self) -> (text: String)
        ensures
            text@ == self.info_text(),
    {
        let mut text = "Wallet address: ".to_owned();
        text.append(self.address.as_str());
        text.append("\nPublic key: ");
        push_byte_list_text(&mut text, self.public_key.as_slice());
        text
    }

    /// The wallet that holds the given keys, with the address derived from
    /// the public one.
    pub fn from_keys(secret_key: Vec<u8>, public_key: Vec<u8>) -> (wallet: Wallet)
        ensures
            wallet.secret_key@ == secret_key@,
            wallet.public_key@ == public_key@,
            wallet.address@ == address_of(public_key@),
            wallet.address@.len() == 64,
    {
        let digest = sha256(public_key.as_slice());
        let address = hex_encode(digest.as_slice());
        Wallet { secret_key, public_key, address }
    }
}

/// A wallet with a fresh random key pair. Which keys come out is left to
/// chance; whatever they are, the wallet is well formed.
pub fn generate_wallet() -> (wallet: Wallet)
    ensures
        wallet.wf(),
        wallet.secret_key@.len() == 32,
        wallet.public_key@.len() == 33,
        wallet.address@.len() == 64,
{
    let (secret_key, public_key) = generate_keypair();
    Wallet::from_keys(secret_key, public_key)
}

} // verus!
