//! The limits that bound what a peer may send.

use vstd::prelude::*;

verus! {

/// The protocol-wide limits, fixed once per session and only read by the codec.
#[derive(Clone, Copy, Debug, PartialEq, Eq)]
pub struct SerializationContext {
    /// Most operations in one block.
    pub max_operations_per_block: u32,
    /// Number of threads.
    pub thread_count: u8,
    /// Most peer addresses in one peer list.
    pub max_advertise_length: u32,
    /// Most bytes in one message.
    pub max_message_size: u32,
    /// Most bytes in one block.
    pub max_block_size: u32,
    /// Most blocks in one bootstrap graph.
    pub max_bootstrap_blocks: u32,
    /// Most cliques in one bootstrap graph.
    pub max_bootstrap_cliques: u32,
    /// Most dependencies of a block in one bootstrap graph.
    pub max_bootstrap_deps: u32,
    /// Most children of a block in one bootstrap graph.
    pub max_bootstrap_children: u32,
    /// Most block identifiers in one request for blocks.
    pub max_ask_blocks_per_message: u32,
    /// Most operations, or operation identifiers, in one message.
    pub max_operations_per_message: u32,
    /// Most endorsements in one message.
    pub max_endorsements_per_message: u32,
    /// Most bytes in one bootstrap message.
    pub max_bootstrap_message_size: u32,
    /// Most proof-of-stake entries in one bootstrap message.
    pub max_bootstrap_pos_entries: u32,
    /// Most proof-of-stake cycles in one bootstrap message.
    pub max_bootstrap_pos_cycles: u32,
    /// Number of endorsements per block.
    pub endorsement_count: u32,
}

} // verus!
