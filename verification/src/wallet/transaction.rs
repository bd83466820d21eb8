//! Signed transfers: how one is made, how it is checked, and the content
//! hash it is known by.

use crate::crypto::{
    ecdsa_sign, ecdsa_signature, ecdsa_verifies, ecdsa_verify, hex_encode, hex_text, sha256,
    sha256_digest,
};
use crate::encoding::{
    decimal, frame, lemma_decimal_injective, lemma_frame_prefix_unique, lemma_utf8_injective,
    optional_view, push_bytes, push_decimal, push_frame,
};
use crate::errors::TransactionError;
use crate::wallet::wallet::Wallet;
use vstd::prelude::*;
use vstd::string::*;
use vstd::utf8::*;

verus! {

/// ASCII code of `|`, which separates the parts of a payload.
pub const PAYLOAD_SEPARATOR: u8 = 124;

/// First byte of the encoding of an absent key or signature.
pub const ABSENT: u8 = 45;

/// First byte of the encoding of a key or signature that is present.
pub const PRESENT: u8 = 43;

/// A transfer of `amount` from one address to another. Once signed it
/// carries the sender's public key, in compressed form, and the signature,
/// in compact form.
#[derive(Debug, PartialEq, Eq)]
pub struct Transaction {
    pub from_address: String,
    pub to_address: String,
    pub amount: u64,
    pub public_key: Option<Vec<u8>>,
    pub signature: Option<Vec<u8>>,
}

/// What a transaction is, as mathematics sees it.
pub struct TransactionView {
    pub from_address: Seq<char>,
    pub to_address: Seq<char>,
    pub amount: u64,
    pub public_key: Option<Seq<u8>>,
    pub signature: Option<Seq<u8>>,
}

/// The text `from|to|amount` in UTF-8: what a signature covers.
pub open spec fn payload(from_address: Seq<char>, to_address: Seq<char>, amount: u64) -> Seq<u8> {
    encode_utf8(from_address) + seq![PAYLOAD_SEPARATOR] + encode_utf8(to_address)
        + seq![PAYLOAD_SEPARATOR] + decimal(amount as nat)
}

/// Hex text of `bytes` in UTF-8 where they are present, nothing where they
/// are not.
pub open spec fn optional_hex(bytes: Option<Seq<u8>>) -> Seq<u8> {
    match bytes {
        Some(b) => encode_utf8(hex_text(b)),
        None => Seq::empty(),
    }
}

/// A marker byte, followed by the frame of `bytes` where they are present.
pub open spec fn optional_frame(bytes: Option<Seq<u8>>) -> Seq<u8> {
    match bytes {
        Some(b) => seq![PRESENT] + frame(b),
        None => seq![ABSENT],
    }
}

impl TransactionView {
    /// What the signature covers.
    pub open spec fn payload(self) -> Seq<u8> {
        payload(self.from_address, self.to_address, self.amount)
    }

    /// The digest that is signed: SHA-256 of the payload.
    pub open spec fn signing_digest(self) -> Seq<u8> {
        sha256_digest(self.payload())
    }

    /// A transaction is valid when it carries a public key and a signature,
    /// and the signature checks out for the payload under that key.
    pub open spec fn is_valid(self) -> bool {
        &&& self.public_key is Some
        &&& self.signature is Some
        &&& ecdsa_verifies(self.signing_digest(), self.signature->0, self.public_key->0)
    }

    /// What the content hash covers: the payload, then the hex text of the
    /// public key and of the signature as far as they are present.
    pub open spec fn hash_input(self) -> Seq<u8> {
        self.payload() + optional_hex(self.public_key) + optional_hex(self.signature)
    }

    /// The content hash: hex text of the SHA-256 digest of the hash input.
    pub open spec fn tx_hash(self) -> Seq<char> {
        hex_text(sha256_digest(self.hash_input()))
    }

    /// The canonical encoding of a transaction inside a block: each field in
    /// declaration order, framed so that the fields can be told apart.
    pub open spec fn encoding(self) -> Seq<u8> {
        frame(encode_utf8(self.from_address)) + frame(encode_utf8(self.to_address)) + frame(
            decimal(self.amount as nat),
        ) + optional_frame(self.public_key) + optional_frame(self.signature)
    }
}

/// An optional frame followed by anything can be split off in one way only.
pub proof fn lemma_optional_frame_prefix_unique(
    a: Option<Seq<u8>>,
    r: Seq<u8>,
    b: Option<Seq<u8>>,
    s: Seq<u8>,
)
    requires
        optional_frame(a) + r == optional_frame(b) + s,
    ensures
        a == b,
        r == s,
{
    let x = optional_frame(a) + r;
    let y = optional_frame(b) + s;
    assert(x[0] == optional_frame(a)[0]);
    assert(y[0] == optional_frame(b)[0]);
    match (a, b) {
        (Some(p), Some(q)) => {
            assert(x.drop_first() =~= frame(p) + r);
            assert(y.drop_first() =~= frame(q) + s);
            lemma_frame_prefix_unique(p, r, q, s);
        },
        (None, None) => {
            assert(x.drop_first() =~= r);
            assert(y.drop_first() =~= s);
        },
        _ => {
            assert(false);
        },
    }
}

/// Six parts joined from the left are the same as joined from the right.
proof fn lemma_regroup(
    a: Seq<u8>,
    b: Seq<u8>,
    c: Seq<u8>,
    d: Seq<u8>,
    e: Seq<u8>,
    r: Seq<u8>,
)
    ensures
        a + b + c + d + e + r == a + (b + (c + (d + (e + r)))),
{
    assert(a + b + c + d + e + r =~= a + (b + (c + (d + (e + r)))));
}

/// The encoding of a transaction, followed by anything, can be split off in
/// one way only: it determines every field of the transaction.
pub proof fn lemma_transaction_encoding_prefix_unique(
    t: TransactionView,
    r: Seq<u8>,
    u: TransactionView,
    s: Seq<u8>,
)
    requires
        t.encoding() + r == u.encoding() + s,
    ensures
        t == u,
        r == s,
{
    let t4 = optional_frame(t.signature) + r;
    let u4 = optional_frame(u.signature) + s;
    let t3 = optional_frame(t.public_key) + t4;
    let u3 = optional_frame(u.public_key) + u4;
    let t2 = frame(decimal(t.amount as nat)) + t3;
    let u2 = frame(decimal(u.amount as nat)) + u3;
    let t1 = frame(encode_utf8(t.to_address)) + t2;
    let u1 = frame(encode_utf8(u.to_address)) + u2;
    lemma_regroup(
        frame(encode_utf8(t.from_address)),
        frame(encode_utf8(t.to_address)),
        frame(decimal(t.amount as nat)),
        optional_frame(t.public_key),
        optional_frame(t.signature),
        r,
    );
    lemma_regroup(
        frame(encode_utf8(u.from_address)),
        frame(encode_utf8(u.to_address)),
        frame(decimal(u.amount as nat)),
        optional_frame(u.public_key),
        optional_frame(u.signature),
        s,
    );
    lemma_frame_prefix_unique(encode_utf8(t.from_address), t1, encode_utf8(u.from_address), u1);
    lemma_utf8_injective(t.from_address, u.from_address);
    lemma_frame_prefix_unique(encode_utf8(t.to_address), t2, encode_utf8(u.to_address), u2);
    lemma_utf8_injective(t.to_address, u.to_address);
    lemma_frame_prefix_unique(decimal(t.amount as nat), t3, decimal(u.amount as nat), u3);
    lemma_decimal_injective(t.amount as nat, u.amount as nat);
    lemma_optional_frame_prefix_unique(t.public_key, t4, u.public_key, u4);
    lemma_optional_frame_prefix_unique(t.signature, r, u.signature, s);
}

impl View for Transaction {
    type V = TransactionView;

    open spec fn view(&self) -> TransactionView {
        TransactionView {
            from_address: self.from_address@,
            to_address: self.to_address@,
            amount: self.amount,
            public_key: optional_view(self.public_key),
            signature: optional_view(self.signature),
        }
    }
}

impl DeepView for Transaction {
    type V = TransactionView;

    open spec fn deep_view(&self) -> TransactionView {
        self@
    }
}

impl Clone for Transaction {
    fn clone(&self) -> (copy: Self)
        ensures
            copy@ == self@,
    {
        Transaction {
            from_address: self.from_address.clone(),
            to_address: self.to_address.clone(),
            amount: self.amount,
            public_key: clone_bytes(&self.public_key),
            signature: clone_bytes(&self.signature),
        }
    }
}

/// A copy of optional bytes.
fn clone_bytes(bytes: &Option<Vec<u8>>) -> (copy: Option<Vec<u8>>)
    ensures
        optional_view(copy) == optional_view(*bytes),
{
    match bytes {
        Some(b) => {
            let c = b.clone();
            Some(c)
        },
        None => None,
    }
}

/// The bytes of `from|to|amount`.
fn payload_bytes(from_address: &str, to_address: &str, amount: u64) -> (bytes: Vec<u8>)
    ensures
        bytes@ == payload(from_address@, to_address@, amount),
{
    let mut bytes: Vec<u8> = Vec::new();
    push_bytes(&mut bytes, from_address.as_bytes());
    bytes.push(PAYLOAD_SEPARATOR);
    push_bytes(&mut bytes, to_address.as_bytes());
    bytes.push(PAYLOAD_SEPARATOR);
    push_decimal(&mut bytes, amount);
    bytes
}

/// Appends the hex text of `bytes`, if there are any, to `buf`.
fn push_optional_hex(buf: &mut Vec<u8>, bytes: &Option<Vec<u8>>)
    ensures
        final(buf)@ == old(buf)@ + optional_hex(optional_view(*bytes)),
{
    match bytes {
        Some(b) => {
            let text = hex_encode(b.as_slice());
            push_bytes(buf, text.as_str().as_bytes());
        },
        None => {
        },
    }
}

/// Appends the marker and, if there are bytes, their frame to `buf`.
fn push_optional_frame(buf: &mut Vec<u8>, bytes: &Option<Vec<u8>>)
    ensures
        final(buf)@ == old(buf)@ + optional_frame(optional_view(*bytes)),
{
    match bytes {
        Some(b) => {
            buf.push(PRESENT);
            push_frame(buf, b.as_slice());
        },
        None => {
            buf.push(ABSENT);
        },
    }
}

/// Signs `data` with the wallet's secret key: the SHA-256 digest of `data`
/// is what gets signed. `None` where the wallet's secret key is unusable. A
/// well-formed wallet signs anything, and its public key accepts what it
/// signed.
pub fn sign_data(wallet: &Wallet, data: &[u8]) -> (signature: Option<Vec<u8>>)
    ensures
        optional_view(signature) == ecdsa_signature(sha256_digest(data@), wallet.secret_key@),
        wallet.wf() ==> signature is Some && ecdsa_verifies(
            sha256_digest(data@),
            signature->0@,
            wallet.public_key@,
        ),
{
    let digest = sha256(data);
    ecdsa_sign(digest.as_slice(), wallet.secret_key.as_slice())
}

impl Transaction {
    /// What `new_signed` returns, given the signature that the wallet's
    /// secret key yields for the payload.
    pub open spec fn signed_with(
        from_wallet: &Wallet,
        to_address: Seq<char>,
        amount: u64,
    ) -> TransactionView {
        TransactionView {
            from_address: from_wallet.address@,
            to_address,
            amount,
            public_key: Some(from_wallet.public_key@),
            signature: ecdsa_signature(
                sha256_digest(payload(from_wallet.address@, to_address, amount)),
                from_wallet.secret_key@,
            ),
        }
    }

    /// The transfer of `amount` from the wallet's address to `to_address`
    /// that carries the wallet's public key and `signature`; a rejection
    /// where there is no signature, which is the case when the wallet's
    /// secret key could not sign.
    pub fn with_signature(
        from_wallet: &Wallet,
        to_address: String,
        amount: u64,
        signature: Option<Vec<u8>>,
    ) -> (res: Result<Transaction, TransactionError>)
        ensures
            match signature {
                Some(bytes) => res is Ok && res->Ok_0@ == (TransactionView {
                    from_address: from_wallet.address@,
                    to_address: to_address@,
                    amount,
                    public_key: Some(from_wallet.public_key@),
                    signature: Some(bytes@),
                }),
                None => res matches Err(TransactionError::InvalidTx(reason)) && reason@
                    == "Invalid secret key"@,
            },
    {
        match signature {
            Some(bytes) => {
                let public_key = from_wallet.public_key.clone();
                Ok(
                    Transaction {
                        from_address: from_wallet.address.clone(),
                        to_address,
                        amount,
                        public_key: Some(public_key),
                        signature: Some(bytes),
                    },
                )
            },
            None => Err(TransactionError::InvalidTx("Invalid secret key".to_owned())),
        }
    }

    /// A transfer of `amount` from the wallet's address to `to_address`,
    /// signed with the wallet's secret key.
    ///
    /// A zero amount is refused before any key is touched. A wallet whose
    /// secret key cannot sign is refused too. With a well-formed wallet and
    /// an amount above zero the transfer is made, and it is valid.
    pub fn new_signed(from_wallet: &Wallet, to_address: String, amount: u64) -> (res: Result<
        Transaction,
        TransactionError,
    >)
        ensures
            amount == 0 ==> res == Err::<Transaction, TransactionError>(
                TransactionError::InvalidAmount,
            ),
            amount > 0 && Self::signed_with(from_wallet, to_address@, amount).signature is Some
                ==> res is Ok && res->Ok_0@ == Self::signed_with(from_wallet, to_address@, amount),
            amount > 0 && Self::signed_with(from_wallet, to_address@, amount).signature is None
                ==> (res matches Err(TransactionError::InvalidTx(reason)) && reason@
                == "Invalid secret key"@),
            amount > 0 && from_wallet.wf() ==> res is Ok && res->Ok_0@.is_valid(),
    {
        if amount == 0 {
            return Err(TransactionError::InvalidAmount);
        }
        let data = payload_bytes(from_wallet.address.as_str(), to_address.as_str(), amount);
        let signature = sign_data(from_wallet, data.as_slice());
        Transaction::with_signature(from_wallet, to_address, amount, signature)
    }

    /// Whether the transaction carries a public key and a signature that
    /// checks out for its payload under that key.
    pub fn is_valid(&self) -> (valid: bool)
        ensures
            valid == self@.is_valid(),
    {
        match (&self.public_key, &self.signature) {
            (Some(public_key), Some(signature)) => {
                let data = payload_bytes(
                    self.from_address.as_str(),
                    self.to_address.as_str(),
                    self.amount,
                );
                let digest = sha256(data.as_slice());
                ecdsa_verify(digest.as_slice(), signature.as_slice(), public_key.as_slice())
            },
            _ => false,
        }
    }

    /// The content hash of the transaction, by which pools index it. It
    /// identifies the transaction and says nothing about its validity.
    pub fn tx_hash(&self) -> (hash: String)
        ensures
            hash@ == self@.tx_hash(),
            hash@.len() == 64,
    {
        let mut data = payload_bytes(
            self.from_address.as_str(),
            self.to_address.as_str(),
            self.amount,
        );
        push_optional_hex(&mut data, &self.public_key);
        push_optional_hex(&mut data, &self.signature);
        let digest = sha256(data.as_slice());
        hex_encode(digest.as_slice())
    }

    /// Appends the canonical encoding of the transaction to `buf`.
    pub fn encode_into(&self, buf: &mut Vec<u8>)
        ensures
            final(buf)@ == old(buf)@ + self@.encoding(),
    {
        let mut amount: Vec<u8> = Vec::new();
        push_decimal(&mut amount, self.amount);
        push_frame(buf, self.from_address.as_str().as_bytes());
        push_frame(buf, self.to_address.as_str().as_bytes());
        push_frame(buf, amount.as_slice());
        push_optional_frame(buf, &self.public_key);
        push_optional_frame(buf, &self.signature);
    }
}

} // verus!
