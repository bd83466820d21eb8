//! A block: transactions sealed under a hash that also covers the block's
//! place in the chain, and the proof-of-work search that makes the hash
//! start with zeros.

use crate::crypto::{
    hex_encode, hex_text, lemma_hex_text_injective, sha256, sha256_digest, sha256_tells_apart,
};
use crate::encoding::{
    decimal, frame, lemma_decimal_injective, lemma_frame_prefix_unique, lemma_middle_unique,
    lemma_signed_decimal_injective, lemma_utf8_injective, push_bytes, push_decimal, push_frame,
    push_signed_decimal, same_text, signed_decimal,
};
use crate::wallet::transaction::{
    lemma_transaction_encoding_prefix_unique, Transaction, TransactionView,
};
use chrono::Utc;
use vstd::prelude::*;
use vstd::string::*;
use vstd::utf8::*;

verus! {

/// A block of the chain. `hash` is meant to be the hash of the other fields;
/// whether it is, `is_valid` tells.
#[derive(Debug, PartialEq, Eq)]
pub struct Block {
    pub index: u64,
    pub timestamp: i64,
    pub transactions: Vec<Transaction>,
    pub previous_hash: String,
    pub hash: String,
    pub nonce: u64,
}

/// What a block is, as mathematics sees it.
pub struct BlockView {
    pub index: u64,
    pub timestamp: i64,
    pub transactions: Seq<TransactionView>,
    pub previous_hash: Seq<char>,
    pub hash: Seq<char>,
    pub nonce: u64,
}

/// The canonical encoding of a list of transactions: the frame of each
/// transaction's encoding, in list order.
pub open spec fn transactions_encoding(transactions: Seq<TransactionView>) -> Seq<u8>
    decreases transactions.len(),
{
    if transactions.len() == 0 {
        Seq::empty()
    } else {
        frame(transactions.first().encoding()) + transactions_encoding(transactions.drop_first())
    }
}

/// What a block's hash covers: the decimal text of the index and of the
/// timestamp, the encoding of the transactions, the previous hash, and the
/// decimal text of the nonce.
pub open spec fn hash_input(
    index: u64,
    timestamp: i64,
    transactions: Seq<TransactionView>,
    previous_hash: Seq<char>,
    nonce: u64,
) -> Seq<u8> {
    decimal(index as nat) + signed_decimal(timestamp as int) + transactions_encoding(transactions)
        + encode_utf8(previous_hash) + decimal(nonce as nat)
}

/// The hash of a block with the given fields: hex text of the SHA-256 digest
/// of the hash input.
pub open spec fn block_hash(
    index: u64,
    timestamp: i64,
    transactions: Seq<TransactionView>,
    previous_hash: Seq<char>,
    nonce: u64,
) -> Seq<char> {
    hex_text(sha256_digest(hash_input(index, timestamp, transactions, previous_hash, nonce)))
}

/// Whether `text` begins with `count` zero characters.
pub open spec fn has_leading_zeros(text: Seq<char>, count: nat) -> bool {
    &&& count <= text.len()
    &&& forall|i: int| 0 <= i < count ==> text[i] == '0'
}

impl BlockView {
    /// The hash that the block would have with `nonce` in place of its own.
    pub open spec fn hash_at(self, nonce: u64) -> Seq<char> {
        block_hash(self.index, self.timestamp, self.transactions, self.previous_hash, nonce)
    }

    /// The hash computed from the block's fields.
    pub open spec fn computed_hash(self) -> Seq<char> {
        self.hash_at(self.nonce)
    }

    /// Whether the stored hash is the hash of the block's fields.
    pub open spec fn hash_is_consistent(self) -> bool {
        self.hash == self.computed_hash()
    }

    /// A block is valid at a difficulty when its stored hash is the hash of
    /// its fields and begins with that many zeros.
    pub open spec fn is_valid(self, difficulty: u32) -> bool {
        &&& self.hash_is_consistent()
        &&& has_leading_zeros(self.hash, difficulty as nat)
    }

    /// What the block's hash covers.
    pub open spec fn hash_input(self) -> Seq<u8> {
        hash_input(self.index, self.timestamp, self.transactions, self.previous_hash, self.nonce)
    }

    /// Whether `other` differs from this block in exactly one of the fields
    /// that the hash covers: index, timestamp, transactions, previous hash,
    /// nonce.
    pub open spec fn differs_in_one_field(self, other: BlockView) -> bool {
        let index = self.index == other.index;
        let timestamp = self.timestamp == other.timestamp;
        let transactions = self.transactions == other.transactions;
        let previous_hash = self.previous_hash == other.previous_hash;
        let nonce = self.nonce == other.nonce;
        ||| !index && timestamp && transactions && previous_hash && nonce
        ||| index && !timestamp && transactions && previous_hash && nonce
        ||| index && timestamp && !transactions && previous_hash && nonce
        ||| index && timestamp && transactions && !previous_hash && nonce
        ||| index && timestamp && transactions && previous_hash && !nonce
    }

    /// Whether `other` has the same fields apart from nonce and hash.
    pub open spec fn same_content(self, other: BlockView) -> bool {
        &&& self.index == other.index
        &&& self.timestamp == other.timestamp
        &&& self.transactions == other.transactions
        &&& self.previous_hash == other.previous_hash
    }
}

impl View for Block {
    type V = BlockView;

    open spec fn view(&self) -> BlockView {
        BlockView {
            index: self.index,
            timestamp: self.timestamp,
            transactions: self.transactions.deep_view(),
            previous_hash: self.previous_hash@,
            hash: self.hash@,
            nonce: self.nonce,
        }
    }
}

impl DeepView for Block {
    type V = BlockView;

    open spec fn deep_view(&self) -> BlockView {
        self@
    }
}

/// Encoding a list with one more transaction appends that transaction's
/// frame.
pub proof fn lemma_transactions_encoding_push(
    transactions: Seq<TransactionView>,
    last: TransactionView,
)
    ensures
        transactions_encoding(transactions.push(last)) == transactions_encoding(transactions)
            + frame(last.encoding()),
    decreases transactions.len(),
{
    let extended = transactions.push(last);
    if transactions.len() == 0 {
        assert(extended.drop_first() =~= Seq::empty());
        assert(transactions_encoding(extended.drop_first()) =~= Seq::empty());
        assert(transactions_encoding(extended) =~= frame(last.encoding()));
    } else {
        assert(extended.drop_first() =~= transactions.drop_first().push(last));
        lemma_transactions_encoding_push(transactions.drop_first(), last);
        assert(transactions_encoding(extended) =~= transactions_encoding(transactions) + frame(
            last.encoding(),
        ));
    }
}

/// Two lists of transactions with the same encoding are the same list.
pub proof fn lemma_transactions_encoding_injective(
    a: Seq<TransactionView>,
    b: Seq<TransactionView>,
)
    requires
        transactions_encoding(a) == transactions_encoding(b),
    ensures
        a == b,
    decreases a.len(),
{
    if a.len() == 0 && b.len() == 0 {
        assert(a =~= b);
    } else if a.len() == 0 {
        assert(transactions_encoding(b).len() > 0);
    } else if b.len() == 0 {
        assert(transactions_encoding(a).len() > 0);
    } else {
        lemma_frame_prefix_unique(
            a.first().encoding(),
            transactions_encoding(a.drop_first()),
            b.first().encoding(),
            transactions_encoding(b.drop_first()),
        );
        lemma_transaction_encoding_prefix_unique(
            a.first(),
            Seq::empty(),
            b.first(),
            Seq::empty(),
        );
        lemma_transactions_encoding_injective(a.drop_first(), b.drop_first());
        assert(a =~= seq![a.first()] + a.drop_first());
        assert(b =~= seq![b.first()] + b.drop_first());
    }
}

/// Two blocks that differ in exactly one field have different hash inputs.
pub proof fn lemma_one_field_changes_hash_input(a: BlockView, b: BlockView)
    requires
        a.differs_in_one_field(b),
    ensures
        a.hash_input() != b.hash_input(),
{
    let index_a = decimal(a.index as nat);
    let index_b = decimal(b.index as nat);
    let time_a = signed_decimal(a.timestamp as int);
    let time_b = signed_decimal(b.timestamp as int);
    let list_a = transactions_encoding(a.transactions);
    let list_b = transactions_encoding(b.transactions);
    let previous_a = encode_utf8(a.previous_hash);
    let previous_b = encode_utf8(b.previous_hash);
    let nonce_a = decimal(a.nonce as nat);
    let nonce_b = decimal(b.nonce as nat);
    let none = Seq::<u8>::empty();
    if a.hash_input() == b.hash_input() {
        if a.index != b.index {
            let rest = time_a + list_a + previous_a + nonce_a;
            assert(a.hash_input() =~= none + index_a + rest);
            assert(b.hash_input() =~= none + index_b + rest);
            lemma_middle_unique(none, index_a, index_b, rest);
            lemma_decimal_injective(a.index as nat, b.index as nat);
        } else if a.timestamp != b.timestamp {
            let rest = list_a + previous_a + nonce_a;
            assert(a.hash_input() =~= index_a + time_a + rest);
            assert(b.hash_input() =~= index_a + time_b + rest);
            lemma_middle_unique(index_a, time_a, time_b, rest);
            lemma_signed_decimal_injective(a.timestamp as int, b.timestamp as int);
        } else if a.transactions != b.transactions {
            let start = index_a + time_a;
            let rest = previous_a + nonce_a;
            assert(a.hash_input() =~= start + list_a + rest);
            assert(b.hash_input() =~= start + list_b + rest);
            lemma_middle_unique(start, list_a, list_b, rest);
            lemma_transactions_encoding_injective(a.transactions, b.transactions);
        } else if a.previous_hash != b.previous_hash {
            let start = index_a + time_a + list_a;
            assert(a.hash_input() =~= start + previous_a + nonce_a);
            assert(b.hash_input() =~= start + previous_b + nonce_a);
            lemma_middle_unique(start, previous_a, previous_b, nonce_a);
            lemma_utf8_injective(a.previous_hash, b.previous_hash);
        } else {
            let start = index_a + time_a + list_a + previous_a;
            assert(a.hash_input() =~= start + nonce_a + none);
            assert(b.hash_input() =~= start + nonce_b + none);
            lemma_middle_unique(start, nonce_a, nonce_b, none);
            lemma_decimal_injective(a.nonce as nat, b.nonce as nat);
        }
    }
}

/// Tampering shows. Take a block that is valid at some difficulty, change
/// exactly one of its index, timestamp, transactions, previous hash or
/// nonce, and leave the stored hash as it was: the result is not valid at
/// that difficulty, unless SHA-256 gives the two different hash inputs the
/// same digest.
pub proof fn lemma_tampering_is_detected(sealed: BlockView, tampered: BlockView, difficulty: u32)
    requires
        sealed.is_valid(difficulty),
        tampered.hash == sealed.hash,
        sealed.differs_in_one_field(tampered),
        sha256_tells_apart(sealed.hash_input(), tampered.hash_input()),
    ensures
        !tampered.is_valid(difficulty),
{
    lemma_one_field_changes_hash_input(sealed, tampered);
    if tampered.is_valid(difficulty) {
        lemma_hex_text_injective(
            sha256_digest(sealed.hash_input()),
            sha256_digest(tampered.hash_input()),
        );
    }
}

/// A copy of a list of transactions.
pub fn clone_transactions(transactions: &Vec<Transaction>) -> (copy: Vec<Transaction>)
    ensures
        copy.deep_view() == transactions.deep_view(),
{
    let mut copy: Vec<Transaction> = Vec::new();
    let mut i: usize = 0;
    while i < transactions.len()
        invariant
            i <= transactions.len(),
            copy.len() == i,
            forall|k: int| 0 <= k < i ==> copy[k]@ == transactions[k]@,
        decreases transactions.len() - i,
    {
        copy.push(transactions[i].clone());
        i += 1;
    }
    copy
}

impl Clone for Block {
    fn clone(&self) -> (copy: Self)
        ensures
            copy@ == self@,
    {
        Block {
            index: self.index,
            timestamp: self.timestamp,
            transactions: clone_transactions(&self.transactions),
            previous_hash: self.previous_hash.clone(),
            hash: self.hash.clone(),
            nonce: self.nonce,
        }
    }
}

/// Appends the canonical encoding of `transactions` to `buf`.
fn push_transactions(buf: &mut Vec<u8>, transactions: &Vec<Transaction>)
    ensures
        final(buf)@ == old(buf)@ + transactions_encoding(transactions.deep_view()),
{
    let ghost all = transactions.deep_view();
    let mut i: usize = 0;
    while i < transactions.len()
        invariant
            i <= transactions.len(),
            all == transactions.deep_view(),
            buf@ == old(buf)@ + transactions_encoding(all.take(i as int)),
        decreases transactions.len() - i,
    {
        let mut encoded: Vec<u8> = Vec::new();
        transactions[i].encode_into(&mut encoded);
        push_frame(buf, encoded.as_slice());
        proof {
            lemma_transactions_encoding_push(all.take(i as int), all[i as int]);
            assert(all.take(i as int).push(all[i as int]) =~= all.take(i + 1));
        }
        i += 1;
    }
    assert(all.take(i as int) =~= all);
}

/// The hash of a block with the given fields.
pub fn calculate_hash(
    index: u64,
    timestamp: i64,
    transactions: &Vec<Transaction>,
    previous_hash: &str,
    nonce: u64,
) -> (hash: String)
    ensures
        hash@ == block_hash(index, timestamp, transactions.deep_view(), previous_hash@, nonce),
        hash@.len() == 64,
{
    let mut input: Vec<u8> = Vec::new();
    push_decimal(&mut input, index);
    push_signed_decimal(&mut input, timestamp);
    push_transactions(&mut input, transactions);
    push_bytes(&mut input, previous_hash.as_bytes());
    push_decimal(&mut input, nonce);
    assert(input@ =~= hash_input(
        index,
        timestamp,
        transactions.deep_view(),
        previous_hash@,
        nonce,
    ));
    let digest = sha256(input.as_slice());
    hex_encode(digest.as_slice())
}

/// Whether `text` begins with `count` zero characters.
pub fn starts_with_zeros(text: &str, count: u32) -> (res: bool)
    ensures
        res == has_leading_zeros(text@, count as nat),
{
    let wanted: usize = count as usize;
    if text.unicode_len() < wanted {
        return false;
    }
    let mut i: usize = 0;
    while i < wanted
        invariant
            i <= wanted,
            wanted == count,
            wanted <= text@.len(),
            forall|k: int| 0 <= k < i ==> text@[k] == '0',
        decreases wanted - i,
    {
        if text.get_char(i) != '0' {
            return false;
        }
        i += 1;
    }
    true
}

/// Calls `Utc::now` of the `chrono` crate and reads the time as seconds since
/// the Unix epoch. Nothing is promised of the value: it is whatever the
/// system clock says. A clock that is set to a time before the epoch makes
/// `Utc::now` panic.
#[verifier::external_body]
pub(crate) fn current_timestamp() -> (seconds: i64) {
    Utc::now().timestamp()
}

impl Block {
    /// A block with the given fields, created at `timestamp`, with nonce 0
    /// and the hash that belongs to these fields. It is not mined yet.
    pub fn with_timestamp(
        index: u64,
        timestamp: i64,
        transactions: Vec<Transaction>,
        previous_hash: String,
    ) -> (block: Block)
        ensures
            block@ == (BlockView {
                index,
                timestamp,
                transactions: transactions.deep_view(),
                previous_hash: previous_hash@,
                hash: block_hash(index, timestamp, transactions.deep_view(), previous_hash@, 0),
                nonce: 0,
            }),
    {
        let hash = calculate_hash(index, timestamp, &transactions, previous_hash.as_str(), 0);
        Block { index, timestamp, transactions, previous_hash, hash, nonce: 0 }
    }

    /// A block with the given fields, created now. The timestamp is read
    /// from the clock once and kept; apart from it the block is the one that
    /// `with_timestamp` makes.
    pub fn new(index: u64, transactions: Vec<Transaction>, previous_hash: String) -> (block: Block)
        ensures
            block@.index == index,
            block@.transactions == transactions.deep_view(),
            block@.previous_hash == previous_hash@,
            block@.nonce == 0,
            block@.hash_is_consistent(),
    {
        let time_created = current_timestamp();
        Block::with_timestamp(index, time_created, transactions, previous_hash)
    }

    /// Searches for a nonce that makes the hash begin with `difficulty`
    /// zeros, starting at the block's own nonce and counting upwards.
    ///
    /// The search stops at the first such nonce and returns `true`; the
    /// block is then valid at `difficulty`. Where no nonce up to the largest
    /// one will do, it returns `false` and leaves the block at that largest
    /// nonce. Either way the stored hash is the hash of the fields.
    pub fn mine_block(&mut self, difficulty: u32) -> (found: bool)
        ensures
            final(self)@.same_content(old(self)@),
            final(self)@.hash_is_consistent(),
            old(self)@.nonce <= final(self)@.nonce,
            forall|nonce: u64|
                old(self)@.nonce <= nonce < final(self)@.nonce ==> !has_leading_zeros(
                    #[trigger] old(self)@.hash_at(nonce),
                    difficulty as nat,
                ),
            found == final(self)@.is_valid(difficulty),
            !found ==> final(self)@.nonce == u64::MAX,
    {
        loop
            invariant
                self@.same_content(old(self)@),
                old(self)@.nonce <= self@.nonce,
                forall|nonce: u64|
                    old(self)@.nonce <= nonce < self@.nonce ==> !has_leading_zeros(
                        #[trigger] old(self)@.hash_at(nonce),
                        difficulty as nat,
                    ),
            decreases u64::MAX - self.nonce,
        {
            self.hash = calculate_hash(
                self.index,
                self.timestamp,
                &self.transactions,
                self.previous_hash.as_str(),
                self.nonce,
            );
            if starts_with_zeros(self.hash.as_str(), difficulty) {
                return true;
            }
            if self.nonce == u64::MAX {
                return false;
            }
            self.nonce = self.nonce + 1;
        }
    }

    /// Whether the stored hash is `recalculated` and begins with
    /// `difficulty` zeros.
    pub fn hash_agrees_with(&self, recalculated: &str, difficulty: u32) -> (agrees: bool)
        ensures
            agrees == (self@.hash == recalculated@ && has_leading_zeros(
                self@.hash,
                difficulty as nat,
            )),
    {
        same_text(self.hash.as_str(), recalculated) && starts_with_zeros(
            self.hash.as_str(),
            difficulty,
        )
    }

    /// Whether the stored hash is the hash of the block's fields and begins
    /// with `difficulty` zeros. A change to any field that leaves the stored
    /// hash as it was shows here, because the hash is computed afresh.
    pub fn is_valid(&self, difficulty: u32) -> (valid: bool)
        ensures
            valid == self@.is_valid(difficulty),
    {
        let recalculated = calculate_hash(
            self.index,
            self.timestamp,
            &self.transactions,
            self.previous_hash.as_str(),
            self.nonce,
        );
        self.hash_agrees_with(recalculated.as_str(), difficulty)
    }
}

} // verus!
