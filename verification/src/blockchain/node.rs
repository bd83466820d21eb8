//! A node: one participant of the network, with its own chain and the
//! identifiers of its peers.

use crate::blockchain::block::{Block, BlockView};
use crate::blockchain::blockchain::{
    chain_is_valid, genesis, Blockchain, BlockchainView, BlockReception, DEFAULT_DIFFICULTY,
};
use crate::blockchain::node_registry::{register_id, unregister_id, NodeRegistry};
use crate::encoding::{decimal_text, push_decimal_text};
use crate::errors::{TransactionError, TransactionErrorView};
use crate::wallet::transaction::{Transaction, TransactionView};
use vstd::prelude::*;
use vstd::string::*;

verus! {

/// The type of a node's identifier.
pub type NodeId = u32;

/// How many random identifiers `new_random_id` tries before it gives up: as
/// many as there are identifiers.
pub const MAX_ID_ATTEMPTS: u64 = 4294967296;

/// A participant of the network.
#[derive(Debug)]
pub struct Node {
    pub node_id: NodeId,
    pub blockchain: Blockchain,
    pub peers: Vec<NodeId>,
}

/// What a node is, as mathematics sees it.
pub struct NodeView {
    pub node_id: NodeId,
    pub blockchain: BlockchainView,
    pub peers: Seq<NodeId>,
}

/// Why a node could not be created.
#[derive(Debug, Clone, Copy, PartialEq, Eq, Structural)]
pub enum NodeError {
    /// The identifier is in use.
    DuplicateId(NodeId),
}

impl NodeError {
    /// The text that `to_string` returns.
    pub open spec fn text(self) -> Seq<char> {
        match self {
            NodeError::DuplicateId(id) => "ID "@ + decimal_text(id as nat) + " is already in use"@,
        }
    }

    /// The error as a line of text for people to read.
    pub fn to_string(&self) -> (text: String)
        ensures
            text@ == self.text(),
    {
        match self {
            NodeError::DuplicateId(id) => {
                let mut text = "ID ".to_owned();
                push_decimal_text(&mut text, *id as u64);
                text.append(" is already in use");
                text
            },
        }
    }
}

impl View for Node {
    type V = NodeView;

    open spec fn view(&self) -> NodeView {
        NodeView { node_id: self.node_id, blockchain: self.blockchain@, peers: self.peers@ }
    }
}

impl DeepView for Node {
    type V = NodeView;

    open spec fn deep_view(&self) -> NodeView {
        self@
    }
}

/// The reason for which a transaction that is not valid is turned away:
/// the public key is missing, or else the signature is missing, or else the
/// signature does not check out.
pub open spec fn signature_fault(tx: TransactionView) -> TransactionErrorView {
    if tx.public_key is None {
        TransactionErrorView::InvalidTx("Missing public key"@)
    } else if tx.signature is None {
        TransactionErrorView::InvalidTx("Missing signature"@)
    } else {
        TransactionErrorView::InvalidSignature("Signature does not match"@)
    }
}

impl NodeView {
    /// A node that was just created under `node_id` at `timestamp`.
    pub open spec fn fresh(node_id: NodeId, timestamp: i64) -> NodeView {
        NodeView {
            node_id,
            blockchain: BlockchainView {
                blocks: seq![genesis(timestamp)],
                pending_transactions: Seq::empty(),
                difficulty: DEFAULT_DIFFICULTY,
                tx_map: Map::empty(),
            },
            peers: Seq::empty(),
        }
    }

    /// The node after `tx` was submitted to its pool.
    pub open spec fn submitted(self, tx: TransactionView) -> NodeView {
        NodeView { blockchain: self.blockchain.submitted(tx), ..self }
    }

    /// The node after it received `block` from a node whose chain is
    /// `sender_chain`. The next block is appended; a block further ahead
    /// makes the node take over the sender's chain if that chain is valid
    /// and strictly longer; any other block changes nothing.
    pub open spec fn received(self, block: BlockView, sender_chain: BlockchainView) -> NodeView {
        if block.index == self.blockchain.blocks.len() {
            NodeView { blockchain: self.blockchain.offered(block), ..self }
        } else if block.index > self.blockchain.blocks.len() {
            NodeView { blockchain: self.blockchain.challenged_by(sender_chain), ..self }
        } else {
            self
        }
    }
}

impl NodeView {
    /// What a node reports of a block that it received from a node whose
    /// chain is `sender_chain`.
    pub open spec fn reception(
        self,
        block: BlockView,
        sender_chain: BlockchainView,
    ) -> BlockReception {
        let length = self.blockchain.blocks.len();
        if block.index == length {
            BlockReception::Appended
        } else if block.index < length {
            BlockReception::Ignored
        } else if chain_is_valid(sender_chain.blocks) && sender_chain.blocks.len() > length {
            BlockReception::Replaced
        } else {
            BlockReception::Ahead
        }
    }
}

/// The nodes after `block` was delivered, in the order of `peers`, to the
/// node at each listed position. A position listed twice gets the block
/// twice.
pub open spec fn delivered(
    nodes: Seq<NodeView>,
    peers: Seq<NodeId>,
    block: BlockView,
    sender_chain: BlockchainView,
) -> Seq<NodeView>
    decreases peers.len(),
{
    if peers.len() == 0 {
        nodes
    } else {
        let at = peers.first() as int;
        delivered(
            nodes.update(at, nodes[at].received(block, sender_chain)),
            peers.drop_first(),
            block,
            sender_chain,
        )
    }
}

/// Whether `peers` lists the position `at`.
pub open spec fn lists(peers: Seq<NodeId>, at: int) -> bool {
    exists|i: int| 0 <= i < peers.len() && #[trigger] peers[i] as int == at
}

/// Where no peer is listed twice, a broadcast reaches each listed node
/// exactly once and leaves the others alone.
pub proof fn lemma_delivered_once(
    nodes: Seq<NodeView>,
    peers: Seq<NodeId>,
    block: BlockView,
    sender_chain: BlockchainView,
)
    requires
        peers.no_duplicates(),
        forall|i: int| 0 <= i < peers.len() ==> (#[trigger] peers[i]) < nodes.len(),
    ensures
        delivered(nodes, peers, block, sender_chain).len() == nodes.len(),
        forall|j: int|
            0 <= j < nodes.len() ==> #[trigger] delivered(nodes, peers, block, sender_chain)[j]
                == if lists(peers, j) {
                nodes[j].received(block, sender_chain)
            } else {
                nodes[j]
            },
    decreases peers.len(),
{
    if peers.len() > 0 {
        let at = peers.first() as int;
        let rest = peers.drop_first();
        let next = nodes.update(at, nodes[at].received(block, sender_chain));
        assert forall|i: int| 0 <= i < rest.len() implies (#[trigger] rest[i]) < next.len() by {
            assert(rest[i] == peers[i + 1]);
        }
        assert(rest.no_duplicates()) by {
            assert forall|i: int, k: int| 0 <= i < rest.len() && 0 <= k < rest.len() && i
                != k implies rest[i] != rest[k] by {
                assert(rest[i] == peers[i + 1] && rest[k] == peers[k + 1]);
            }
        }
        lemma_delivered_once(next, rest, block, sender_chain);
        assert forall|j: int| 0 <= j < nodes.len() implies #[trigger] delivered(
            nodes,
            peers,
            block,
            sender_chain,
        )[j] == if lists(peers, j) {
            nodes[j].received(block, sender_chain)
        } else {
            nodes[j]
        } by {
            if j == at {
                assert(peers[0] as int == j);
                if lists(rest, j) {
                    let i = choose|i: int| 0 <= i < rest.len() && #[trigger] rest[i] as int == j;
                    assert(peers[i + 1] == peers[0]);
                }
            } else {
                if lists(rest, j) {
                    let i = choose|i: int| 0 <= i < rest.len() && #[trigger] rest[i] as int == j;
                    assert(peers[i + 1] as int == j);
                }
                if lists(peers, j) {
                    let i = choose|i: int| 0 <= i < peers.len() && #[trigger] peers[i] as int == j;
                    assert(rest[i - 1] as int == j);
                }
            }
        }
    }
}

/// Calls `rand::random` for a `u32`. Nothing is promised of the value: it
/// is left to chance.
#[verifier::external_body]
pub(crate) fn random_node_id() -> (id: NodeId) {
    rand::random::<u32>()
}

impl Node {
    /// A node under the identifier `node_id`, with a chain that holds only
    /// the genesis block and without peers. Fails, and leaves the registry
    /// as it was, if the identifier is in use.
    pub fn new(registry: &mut NodeRegistry, node_id: NodeId) -> (res: Result<Node, NodeError>)
        ensures
            old(registry)@.contains(node_id) ==> res == Err::<Node, NodeError>(
                NodeError::DuplicateId(node_id),
            ) && final(registry)@ == old(registry)@,
            !old(registry)@.contains(node_id) ==> res is Ok && final(registry)@ == old(
                registry,
            )@.insert(node_id) && exists|timestamp: i64|
                res->Ok_0@ == #[trigger] NodeView::fresh(node_id, timestamp),
    {
        match register_id(registry, node_id) {
            Ok(()) => {
                let blockchain = Blockchain::new();
                let node = Node { node_id, blockchain, peers: Vec::new() };
                proof {
                    let timestamp = choose|timestamp: i64|
                        blockchain@.blocks == seq![#[trigger] genesis(timestamp)];
                    assert(node@ == NodeView::fresh(node_id, timestamp));
                }
                Ok(node)
            },
            Err(_) => Err(NodeError::DuplicateId(node_id)),
        }
    }

    /// A node under a random identifier that is not in use. Candidates are
    /// drawn until one is free; after `MAX_ID_ATTEMPTS` candidates that were
    /// all in use, the last of them is reported.
    ///
    /// Which identifier comes out is left to chance. Whatever it is, it was
    /// free before and is registered afterwards; while the registry is empty
    /// the first candidate is taken.
    pub fn new_random_id(registry: &mut NodeRegistry) -> (res: Result<Node, NodeError>)
        ensures
            match res {
                Ok(node) => {
                    &&& !old(registry)@.contains(node@.node_id)
                    &&& final(registry)@ == old(registry)@.insert(node@.node_id)
                    &&& exists|timestamp: i64|
                        node@ == #[trigger] NodeView::fresh(node@.node_id, timestamp)
                },
                Err(NodeError::DuplicateId(id)) => {
                    &&& old(registry)@.contains(id)
                    &&& final(registry)@ == old(registry)@
                },
            },
            old(registry)@ == Set::<NodeId>::empty() ==> res is Ok,
    {
        let mut attempts: u64 = 1;
        loop
            invariant
                1 <= attempts <= MAX_ID_ATTEMPTS,
                registry@ == old(registry)@,
            decreases MAX_ID_ATTEMPTS - attempts,
        {
            let random_id = random_node_id();
            match Node::new(registry, random_id) {
                Ok(node) => {
                    return Ok(node);
                },
                Err(error) => {
                    if attempts == MAX_ID_ATTEMPTS {
                        return Err(error);
                    }
                    attempts = attempts + 1;
                },
            }
        }
    }

    /// Gives up the node and releases its identifier. A node is released
    /// once: it is gone afterwards.
    pub fn release(self, registry: &mut NodeRegistry)
        ensures
            final(registry)@ == old(registry)@.remove(self@.node_id),
    {
        unregister_id(registry, self.node_id);
    }

    /// A copy of the chain of `from`.
    pub fn request_chain(&self, from: &Node) -> (chain: Blockchain)
        ensures
            chain@ == from@.blockchain,
    {
        from.blockchain.clone()
    }

    /// Checks the authorisation of `tx` and tells why it fails, if it does:
    /// the public key is missing, the signature is missing, or the signature
    /// does not check out.
    pub fn verify_signature(&self, tx: &Transaction) -> (res: Result<(), TransactionError>)
        ensures
            match res {
                Ok(_) => tx@.is_valid(),
                Err(error) => !tx@.is_valid() && error@ == signature_fault(tx@),
            },
    {
        if tx.public_key.is_none() {
            return Err(TransactionError::InvalidTx("Missing public key".to_owned()));
        }
        if tx.signature.is_none() {
            return Err(TransactionError::InvalidTx("Missing signature".to_owned()));
        }
        if tx.is_valid() {
            Ok(())
        } else {
            Err(TransactionError::InvalidSignature("Signature does not match".to_owned()))
        }
    }

    /// Sends a transaction to the node `to`. A valid transaction is recorded
    /// in this node's pool and then in the pool of `to`. Anything else is
    /// reported and touches neither node: an error that came in place of a
    /// transaction is handed back, and a transaction that is not valid is
    /// turned away with the reason.
    pub fn send_transaction(
        &mut self,
        to: &mut Node,
        tx: Result<Transaction, TransactionError>,
    ) -> (res: Result<(), TransactionError>)
        ensures
            match tx {
                Ok(tx_ok) => {
                    &&& (res is Ok) == tx_ok@.is_valid()
                    &&& res matches Err(error) ==> error@ == signature_fault(tx_ok@)
                    &&& final(self)@ == old(self)@.submitted(tx_ok@)
                    &&& final(to)@ == old(to)@.submitted(tx_ok@)
                },
                Err(error) => {
                    &&& res matches Err(same) && same@ == error@
                    &&& final(self)@ == old(self)@
                    &&& final(to)@ == old(to)@
                },
            },
    {
        match tx {
            Ok(tx_ok) => {
                match self.verify_signature(&tx_ok) {
                    Ok(()) => {
                        self.blockchain.add_transaction_to_mempool(tx_ok.clone());
                        to.receive_transaction(tx_ok);
                        Ok(())
                    },
                    Err(error) => Err(error),
                }
            },
            Err(error) => Err(error),
        }
    }

    /// Takes `tx` into this node's pool if it is valid, and tells whether it
    /// did.
    pub fn receive_transaction(&mut self, tx: Transaction) -> (accepted: bool)
        ensures
            accepted == tx@.is_valid(),
            final(self)@ == old(self)@.submitted(tx@),
    {
        self.blockchain.add_transaction_to_mempool(tx)
    }

    /// Delivers `block` to each peer in turn. The peers are found in
    /// `all_nodes` at the position that their identifier names.
    pub fn broadcast_block(&self, block: Block, all_nodes: &mut Vec<Node>)
        requires
            forall|i: int|
                0 <= i < self@.peers.len() ==> (#[trigger] self@.peers[i]) < old(all_nodes).len(),
        ensures
            final(all_nodes).deep_view() == delivered(
                old(all_nodes).deep_view(),
                self@.peers,
                block@,
                self@.blockchain,
            ),
    {
        let mut i: usize = 0;
        assert(self@.peers.skip(0) =~= self@.peers);
        while i < self.peers.len()
            invariant
                i <= self.peers.len(),
                all_nodes.len() == old(all_nodes).len(),
                forall|k: int|
                    0 <= k < self@.peers.len() ==> (#[trigger] self@.peers[k]) < all_nodes.len(),
                delivered(
                    all_nodes.deep_view(),
                    self@.peers.skip(i as int),
                    block@,
                    self@.blockchain,
                ) == delivered(old(all_nodes).deep_view(), self@.peers, block@, self@.blockchain),
            decreases self.peers.len() - i,
        {
            let peer_id: usize = self.peers[i] as usize;
            let ghost before = all_nodes.deep_view();
            assert(self@.peers.skip(i as int).drop_first() =~= self@.peers.skip(i + 1));
            all_nodes[peer_id].receive_block(block.clone(), self);
            assert(all_nodes.deep_view() =~= before.update(
                peer_id as int,
                before[peer_id as int].received(block@, self@.blockchain),
            ));
            i += 1;
        }
    }

    /// Takes in a block from `from_node`. The next block is appended. A
    /// block further ahead shows that this node is behind: it then takes
    /// over the chain of `from_node` if that chain is valid and strictly
    /// longer than its own. A block whose index is already taken is
    /// ignored.
    pub fn receive_block(&mut self, block: Block, from_node: &Node) -> (reception: BlockReception)
        ensures
            final(self)@ == old(self)@.received(block@, from_node@.blockchain),
            reception == old(self)@.reception(block@, from_node@.blockchain),
    {
        let local_len: u64 = self.blockchain.blocks.len() as u64;
        if block.index == local_len {
            self.blockchain.add_block_from_network(block)
        } else if block.index > local_len {
            if self.blockchain.replace_chain_if_longer(&from_node.blockchain) {
                BlockReception::Replaced
            } else {
                BlockReception::Ahead
            }
        } else {
            BlockReception::Ignored
        }
    }

    /// Adds `peer_id` to the peers unless it is one already.
    pub fn add_peer(&mut self, peer_id: NodeId)
        ensures
            final(self)@ == (NodeView {
                peers: if old(self)@.peers.contains(peer_id) {
                    old(self)@.peers
                } else {
                    old(self)@.peers.push(peer_id)
                },
                ..old(self)@
            }),
            final(self)@.peers.contains(peer_id),
            old(self)@.peers.no_duplicates() ==> final(self)@.peers.no_duplicates(),
    {
        let mut i: usize = 0;
        while i < self.peers.len()
            invariant
                i <= self.peers.len(),
                *self == *old(self),
                forall|k: int| 0 <= k < i ==> self@.peers[k] != peer_id,
            decreases self.peers.len() - i,
        {
            if self.peers[i] == peer_id {
                return ;
            }
            i += 1;
        }
        self.peers.push(peer_id);
        assert(self@.peers.last() == peer_id);
    }

    /// Removes `peer_id` from the peers, wherever it stands; the others
    /// keep their order.
    pub fn remove_peer(&mut self, peer_id: NodeId)
        ensures
            final(self)@ == (NodeView {
                peers: old(self)@.peers.filter(|id: NodeId| id != peer_id),
                ..old(self)@
            }),
            !final(self)@.peers.contains(peer_id),
            !old(self)@.peers.contains(peer_id) ==> final(self)@ == old(self)@,
            old(self)@.peers.no_duplicates() ==> final(self)@.peers.no_duplicates(),
    {
        let ghost keep = |id: NodeId| id != peer_id;
        let ghost all = self@.peers;
        let ghost mut origin: Seq<int> = Seq::empty();
        let mut kept: Vec<NodeId> = Vec::new();
        let mut i: usize = 0;
        assert(all.take(0).filter(keep) =~= Seq::empty()) by {
            reveal(Seq::filter);
        }
        while i < self.peers.len()
            invariant
                i <= self.peers.len(),
                *self == *old(self),
                all == self@.peers,
                keep == |id: NodeId| id != peer_id,
                kept@ == all.take(i as int).filter(keep),
                origin.len() == kept.len(),
                forall|k: int|
                    0 <= k < kept.len() ==> 0 <= #[trigger] origin[k] < i && all[origin[k]]
                        == kept[k] && kept[k] != peer_id,
                forall|k: int, l: int| 0 <= k < l < kept.len() ==> origin[k] < origin[l],
                (forall|k: int| 0 <= k < i ==> all[k] != peer_id) ==> kept@ == all.take(i as int),
            decreases self.peers.len() - i,
        {
            let id = self.peers[i];
            proof {
                reveal(Seq::filter);
                assert(all.take(i + 1).drop_last() =~= all.take(i as int));
            }
            if id != peer_id {
                kept.push(id);
                proof {
                    origin = origin.push(i as int);
                }
            }
            i += 1;
        }
        assert(all.take(i as int) =~= all);
        self.peers = kept;
        proof {
            if all.no_duplicates() {
                assert forall|k: int, l: int|
                    0 <= k < kept.len() && 0 <= l < kept.len() && k != l implies kept[k]
                    != kept[l] by {
                    if k < l {
                        assert(origin[k] < origin[l]);
                    } else {
                        assert(origin[l] < origin[k]);
                    }
                }
            }
        }
    }
}

} // verus!
