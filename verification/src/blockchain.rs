//! Blocks, the chain that links them, and the nodes that share it.

pub mod block;
pub mod blockchain;
pub mod node;
pub mod node_registry;
pub mod tx_index;
