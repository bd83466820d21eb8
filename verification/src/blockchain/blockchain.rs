//! The chain: blocks linked by their hashes, the pool of transactions that
//! wait to be mined, and the rule by which a longer valid chain takes the
//! place of a shorter one.

use crate::blockchain::block::{
    block_hash, calculate_hash, clone_transactions, current_timestamp, has_leading_zeros, Block,
    BlockView,
};
use crate::blockchain::tx_index::TransactionIndex;
use crate::encoding::same_text;
use crate::wallet::transaction::{Transaction, TransactionView};
use crate::wallet::wallet::Wallet;
use vstd::prelude::*;
use vstd::string::*;

verus! {

/// The difficulty that a new chain mines at.
pub const DEFAULT_DIFFICULTY: u32 = 3;

/// A chain of blocks with its pool of pending transactions. `tx_map` files
/// every transaction that the pool ever took in under its content hash.
#[derive(Debug)]
pub struct Blockchain {
    pub blocks: Vec<Block>,
    pub pending_transactions: Vec<Transaction>,
    pub difficulty: u32,
    pub tx_map: TransactionIndex,
}

/// What a chain is, as mathematics sees it.
pub struct BlockchainView {
    pub blocks: Seq<BlockView>,
    pub pending_transactions: Seq<TransactionView>,
    pub difficulty: u32,
    pub tx_map: Map<Seq<char>, TransactionView>,
}

/// What became of a block that arrived from the network.
#[derive(Debug, Clone, Copy, PartialEq, Eq, Structural)]
pub enum BlockReception {
    /// The block was the next one and is now the last block of the chain.
    Appended,
    /// The block lies further ahead than the next one: this chain is
    /// behind, and the sender's whole chain is needed to catch up.
    Ahead,
    /// The block lay ahead, and the sender's longer valid chain took the
    /// place of this one.
    Replaced,
    /// The block's index is already taken: nothing was done.
    Ignored,
}

/// Every block but the first names the hash of the block before it.
pub open spec fn blocks_are_linked(blocks: Seq<BlockView>) -> bool {
    forall|i: int| 1 <= i < blocks.len() ==> (#[trigger] blocks[i]).previous_hash == blocks[i - 1].hash
}

/// Every block's stored hash is the hash of its fields.
pub open spec fn hashes_are_consistent(blocks: Seq<BlockView>) -> bool {
    forall|i: int| 0 <= i < blocks.len() ==> (#[trigger] blocks[i]).hash_is_consistent()
}

/// A chain is valid when its blocks are linked and their hashes consistent.
/// Proof of work is asked of a block when it is mined, not here.
pub open spec fn chain_is_valid(blocks: Seq<BlockView>) -> bool {
    blocks_are_linked(blocks) && hashes_are_consistent(blocks)
}

/// The first block of a chain created at `timestamp`.
pub open spec fn genesis(timestamp: i64) -> BlockView {
    BlockView {
        index: 0,
        timestamp,
        transactions: Seq::empty(),
        previous_hash: "0"@,
        hash: block_hash(0, timestamp, Seq::empty(), "0"@, 0),
        nonce: 0,
    }
}

impl BlockchainView {
    /// The hash that the next block has to name: the last block's, or "0"
    /// where there is no block.
    pub open spec fn tip_hash(self) -> Seq<char> {
        if self.blocks.len() > 0 {
            self.blocks.last().hash
        } else {
            "0"@
        }
    }

    /// The chain after `tx` was submitted to its pool: a valid transaction
    /// is at the end of the pool and filed under its content hash, an
    /// invalid one leaves no trace.
    pub open spec fn submitted(self, tx: TransactionView) -> BlockchainView {
        if tx.is_valid() {
            BlockchainView {
                pending_transactions: self.pending_transactions.push(tx),
                tx_map: self.tx_map.insert(tx.tx_hash(), tx),
                ..self
            }
        } else {
            self
        }
    }

    /// The chain after a block arrived from the network: the block is
    /// appended if its index is the next one, and dropped otherwise.
    pub open spec fn offered(self, block: BlockView) -> BlockchainView {
        if block.index == self.blocks.len() {
            BlockchainView { blocks: self.blocks.push(block), ..self }
        } else {
            self
        }
    }

    /// The chain after `candidate` was put up against it: the candidate's
    /// blocks take over if the candidate is valid and strictly longer.
    pub open spec fn challenged_by(self, candidate: BlockchainView) -> BlockchainView {
        if chain_is_valid(candidate.blocks) && candidate.blocks.len() > self.blocks.len() {
            BlockchainView { blocks: candidate.blocks, ..self }
        } else {
            self
        }
    }

    /// The block that mining starts from at `timestamp`: the next index, the
    /// whole pool, the tip's hash, nonce 0.
    pub open spec fn candidate(self, timestamp: i64) -> BlockView {
        BlockView {
            index: self.blocks.len() as u64,
            timestamp,
            transactions: self.pending_transactions,
            previous_hash: self.tip_hash(),
            hash: block_hash(
                self.blocks.len() as u64,
                timestamp,
                self.pending_transactions,
                self.tip_hash(),
                0,
            ),
            nonce: 0,
        }
    }

    /// Whether some nonce gives the candidate at `timestamp` a hash with the
    /// chain's number of leading zeros.
    pub open spec fn can_mine(self, timestamp: i64) -> bool {
        exists|nonce: u64|
            has_leading_zeros(
                #[trigger] self.candidate(timestamp).hash_at(nonce),
                self.difficulty as nat,
            )
    }

    /// Whether `block` is what mining the candidate at `timestamp` yields:
    /// the candidate with the least nonce that gives enough leading zeros.
    pub open spec fn is_mined_candidate(self, timestamp: i64, block: BlockView) -> bool {
        &&& block.same_content(self.candidate(timestamp))
        &&& block.is_valid(self.difficulty)
        &&& forall|nonce: u64|
            nonce < block.nonce ==> !has_leading_zeros(
                #[trigger] self.candidate(timestamp).hash_at(nonce),
                self.difficulty as nat,
            )
    }
}

/// A chain that holds only a genesis block is valid.
pub proof fn lemma_genesis_chain_is_valid(timestamp: i64)
    ensures
        chain_is_valid(seq![genesis(timestamp)]),
{
}

/// Mining keeps a valid chain valid: the block that mining yields names the
/// hash of the last block and carries the hash of its own fields.
pub proof fn lemma_mining_keeps_validity(chain: BlockchainView, timestamp: i64, block: BlockView)
    requires
        chain_is_valid(chain.blocks),
        chain.is_mined_candidate(timestamp, block),
    ensures
        chain_is_valid(chain.blocks.push(block)),
{
    let longer = chain.blocks.push(block);
    assert forall|i: int| 1 <= i < longer.len() implies (#[trigger] longer[i]).previous_hash
        == longer[i - 1].hash by {
        if i < chain.blocks.len() {
            assert(longer[i] == chain.blocks[i]);
        }
    }
    assert forall|i: int| 0 <= i < longer.len() implies (#[trigger] longer[i]).hash_is_consistent() by {
        if i < chain.blocks.len() {
            assert(longer[i] == chain.blocks[i]);
        }
    }
}

impl View for Blockchain {
    type V = BlockchainView;

    open spec fn view(&self) -> BlockchainView {
        BlockchainView {
            blocks: self.blocks.deep_view(),
            pending_transactions: self.pending_transactions.deep_view(),
            difficulty: self.difficulty,
            tx_map: self.tx_map@,
        }
    }
}

/// A copy of a list of blocks.
pub fn clone_blocks(blocks: &Vec<Block>) -> (copy: Vec<Block>)
    ensures
        copy.deep_view() == blocks.deep_view(),
{
    let mut copy: Vec<Block> = Vec::new();
    let mut i: usize = 0;
    while i < blocks.len()
        invariant
            i <= blocks.len(),
            copy.len() == i,
            forall|k: int| 0 <= k < i ==> copy[k]@ == blocks[k]@,
        decreases blocks.len() - i,
    {
        copy.push(blocks[i].clone());
        i += 1;
    }
    copy
}

impl Clone for Blockchain {
    fn clone(&self) -> (copy: Self)
        ensures
            copy@ == self@,
    {
        Blockchain {
            blocks: clone_blocks(&self.blocks),
            pending_transactions: clone_transactions(&self.pending_transactions),
            difficulty: self.difficulty,
            tx_map: self.tx_map.clone(),
        }
    }
}

impl Blockchain {
    /// A chain that holds only the genesis block, created at `timestamp`:
    /// index 0, no transactions, previous hash "0", not mined. The pool and
    /// the index are empty.
    pub fn with_genesis_at(timestamp: i64) -> (chain: Blockchain)
        ensures
            chain@ == (BlockchainView {
                blocks: seq![genesis(timestamp)],
                pending_transactions: Seq::empty(),
                difficulty: DEFAULT_DIFFICULTY,
                tx_map: Map::empty(),
            }),
            chain_is_valid(chain@.blocks),
    {
        let transactions: Vec<Transaction> = Vec::new();
        assert(transactions.deep_view() =~= Seq::<TransactionView>::empty());
        let genesis_block = Block::with_timestamp(0, timestamp, transactions, "0".to_owned());
        let mut blocks: Vec<Block> = Vec::new();
        blocks.push(genesis_block);
        let chain = Blockchain {
            blocks,
            pending_transactions: Vec::new(),
            difficulty: DEFAULT_DIFFICULTY,
            tx_map: TransactionIndex::new(),
        };
        proof {
            assert(chain@.blocks =~= seq![genesis(timestamp)]);
            lemma_genesis_chain_is_valid(timestamp);
        }
        chain
    }

    /// A chain that holds only the genesis block, created now. Apart from
    /// the time it is the chain that `with_genesis_at` makes, and it is
    /// valid.
    pub fn new() -> (chain: Blockchain)
        ensures
            exists|timestamp: i64| chain@.blocks == seq![#[trigger] genesis(timestamp)],
            chain@.pending_transactions == Seq::<TransactionView>::empty(),
            chain@.difficulty == DEFAULT_DIFFICULTY,
            chain@.tx_map == Map::<Seq<char>, TransactionView>::empty(),
            chain_is_valid(chain@.blocks),
    {
        let timestamp = current_timestamp();
        Blockchain::with_genesis_at(timestamp)
    }

    /// Takes `tx` into the pool if it is valid, and files it under its
    /// content hash. An invalid transaction is dropped and the chain stays
    /// as it was. A transaction that is submitted twice is in the pool
    /// twice.
    pub fn add_transaction_to_mempool(&mut self, tx: Transaction) -> (accepted: bool)
        ensures
            accepted == tx@.is_valid(),
            final(self)@ == old(self)@.submitted(tx@),
    {
        if tx.is_valid() {
            let txid = tx.tx_hash();
            self.tx_map.insert(txid, tx.clone());
            self.pending_transactions.push(tx);
            assert(self@.pending_transactions =~= old(self)@.pending_transactions.push(tx@));
            true
        } else {
            false
        }
    }

    /// Seals the whole pool into the next block, created at `timestamp`,
    /// mines it at the chain's difficulty and appends it.
    ///
    /// The search for a nonce runs from 0 upwards. Where it finds one the
    /// block is appended, the pool is empty afterwards, and a chain that was
    /// valid stays valid. Where no nonce at all will do, the chain is left
    /// as it was, pool included.
    pub fn add_block_at(&mut self, timestamp: i64) -> (mined: bool)
        ensures
            mined == old(self)@.can_mine(timestamp),
            mined ==> {
                &&& old(self)@.is_mined_candidate(timestamp, final(self)@.blocks.last())
                &&& final(self)@ == (BlockchainView {
                    blocks: old(self)@.blocks.push(final(self)@.blocks.last()),
                    pending_transactions: Seq::empty(),
                    ..old(self)@
                })
            },
            !mined ==> final(self)@ == old(self)@,
            chain_is_valid(old(self)@.blocks) ==> chain_is_valid(final(self)@.blocks),
    {
        let index: u64 = self.blocks.len() as u64;
        let previous_hash = if self.blocks.len() > 0 {
            self.blocks[self.blocks.len() - 1].hash.clone()
        } else {
            "0".to_owned()
        };
        let mut transactions: Vec<Transaction> = Vec::new();
        core::mem::swap(&mut self.pending_transactions, &mut transactions);
        let mut new_block = Block::with_timestamp(index, timestamp, transactions, previous_hash);
        let ghost candidate = old(self)@.candidate(timestamp);
        let found = new_block.mine_block(self.difficulty);
        if found {
            self.blocks.push(new_block);
            proof {
                let mined_block = new_block@;
                assert(self@.blocks =~= old(self)@.blocks.push(mined_block));
                assert(self@.pending_transactions =~= Seq::empty());
                assert(has_leading_zeros(candidate.hash_at(mined_block.nonce), self.difficulty as nat));
                if chain_is_valid(old(self)@.blocks) {
                    lemma_mining_keeps_validity(old(self)@, timestamp, mined_block);
                }
            }
            true
        } else {
            self.pending_transactions = new_block.transactions;
            false
        }
    }

    /// Seals the whole pool into the next block, created now, mines it and
    /// appends it. The time is read from the clock; apart from it this is
    /// `add_block_at`.
    pub fn add_block(&mut self) -> (mined: bool)
        ensures
            exists|timestamp: i64|
                {
                    &&& mined == #[trigger] old(self)@.can_mine(timestamp)
                    &&& mined ==> old(self)@.is_mined_candidate(
                        timestamp,
                        final(self)@.blocks.last(),
                    )
                },
            mined ==> final(self)@ == (BlockchainView {
                blocks: old(self)@.blocks.push(final(self)@.blocks.last()),
                pending_transactions: Seq::empty(),
                ..old(self)@
            }),
            !mined ==> final(self)@ == old(self)@,
            chain_is_valid(old(self)@.blocks) ==> chain_is_valid(final(self)@.blocks),
    {
        let timestamp = current_timestamp();
        self.add_block_at(timestamp)
    }

    /// Whether the chain is valid: every block but the first names the hash
    /// of the block before it, and every block's stored hash is the hash of
    /// its fields.
    pub fn is_valid(&self) -> (valid: bool)
        ensures
            valid == chain_is_valid(self@.blocks),
    {
        let mut i: usize = 0;
        while i < self.blocks.len()
            invariant
                i <= self.blocks.len(),
                forall|k: int|
                    1 <= k < i ==> (#[trigger] self@.blocks[k]).previous_hash == self@.blocks[k
                        - 1].hash,
                forall|k: int| 0 <= k < i ==> (#[trigger] self@.blocks[k]).hash_is_consistent(),
            decreases self.blocks.len() - i,
        {
            let current = &self.blocks[i];
            assert(current@ == self@.blocks[i as int]);
            if i > 0 {
                let previous = &self.blocks[i - 1];
                if !same_text(current.previous_hash.as_str(), previous.hash.as_str()) {
                    return false;
                }
            }
            let recalculated = calculate_hash(
                current.index,
                current.timestamp,
                &current.transactions,
                current.previous_hash.as_str(),
                current.nonce,
            );
            if !same_text(recalculated.as_str(), current.hash.as_str()) {
                return false;
            }
            i += 1;
        }
        true
    }

    /// Takes over the blocks of `new_chain` if that chain is valid and
    /// strictly longer than this one; a chain of the same length never
    /// replaces this one. The pool, the index and the difficulty stay.
    pub fn replace_chain_if_longer(&mut self, new_chain: &Blockchain) -> (replaced: bool)
        ensures
            replaced == (chain_is_valid(new_chain@.blocks) && new_chain@.blocks.len() > old(
                self,
            )@.blocks.len()),
            final(self)@ == old(self)@.challenged_by(new_chain@),
            final(self)@.blocks.len() >= old(self)@.blocks.len(),
            final(self)@.blocks != old(self)@.blocks ==> chain_is_valid(final(self)@.blocks),
    {
        if !new_chain.is_valid() {
            return false;
        }
        if new_chain.blocks.len() > self.blocks.len() {
            self.blocks = clone_blocks(&new_chain.blocks);
            true
        } else {
            false
        }
    }

    /// Makes a transfer signed by `from_wallet` and submits it to the pool.
    /// Tells whether the pool took it: it does not where the transfer could
    /// not be made, or where its signature does not check out under the
    /// wallet's public key.
    pub fn new_signed_tx_and_added_mempool(
        &mut self,
        from_wallet: &Wallet,
        to_address: String,
        amount: u64,
    ) -> (added: bool)
        ensures
            added == (amount > 0 && Transaction::signed_with(
                from_wallet,
                to_address@,
                amount,
            ).is_valid()),
            added ==> final(self)@ == old(self)@.submitted(
                Transaction::signed_with(from_wallet, to_address@, amount),
            ),
            !added ==> final(self)@ == old(self)@,
    {
        match Transaction::new_signed(from_wallet, to_address, amount) {
            Ok(tx_ok) => self.add_transaction_to_mempool(tx_ok),
            Err(_) => false,
        }
    }

    /// Takes in a block that arrived from the network. The block is appended
    /// if its index is the next one; its previous hash is not looked at, so
    /// a block that does not link shows only in `is_valid`. A block further
    /// ahead tells that this chain is behind; any other block is ignored.
    pub fn add_block_from_network(&mut self, block: Block) -> (reception: BlockReception)
        ensures
            reception == if block@.index == old(self)@.blocks.len() {
                BlockReception::Appended
            } else if block@.index > old(self)@.blocks.len() {
                BlockReception::Ahead
            } else {
                BlockReception::Ignored
            },
            final(self)@ == old(self)@.offered(block@),
    {
        let length: u64 = self.blocks.len() as u64;
        if block.index == length {
            self.blocks.push(block);
            assert(self@.blocks =~= old(self)@.blocks.push(block@));
            BlockReception::Appended
        } else if block.index > length {
            BlockReception::Ahead
        } else {
            BlockReception::Ignored
        }
    }

    /// The transaction that the pool took in under the content hash
    /// `tx_hash`, if there is one.
    pub fn find_transaction(&self, tx_hash: &str) -> (found: Option<&Transaction>)
        ensures
            match found {
                Some(transaction) => self@.tx_map.dom().contains(tx_hash@) && transaction@
                    == self@.tx_map[tx_hash@],
                None => !self@.tx_map.dom().contains(tx_hash@),
            },
    {
        self.tx_map.get(tx_hash)
    }
}

} // verus!
