//! The two kinds of genes that make up a genome.

use vstd::prelude::*;

verus! {

/// The name of a node, unique over all genomes that share a registry.
pub type Id = usize;

/// The role of a node in the network.
#[derive(Clone, Copy, Debug, PartialEq, Eq, Structural)]
pub enum NodeType {
    Sensor,
    Hidden,
    Output,
}

/// A node of the network.
#[derive(Clone, Copy, Debug, PartialEq, Eq, Structural)]
pub struct NodeGene {
    pub node_type: NodeType,
    pub id: Id,
}

/// A weighted link between two nodes. The weight is in fixed point: a
/// weight of one is written as `WEIGHT_UNIT`.
#[derive(Clone, Copy, Debug, PartialEq, Eq, Structural)]
pub struct ConnectionGene {
    pub from: Id,
    pub to: Id,
    pub weight: i64,
    pub enabled: bool,
    pub innovation_number: usize,
}

} // verus!
