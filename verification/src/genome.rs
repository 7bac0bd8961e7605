//! Genomes: the nodes and connections of a creature's network, and the
//! registry that hands out their names.

pub mod gene;
pub mod mutation;
pub mod recombination;
pub mod speciation;
pub mod topology;

use crate::genome::gene::{ConnectionGene, Id, NodeGene, NodeType};
use crate::random::random_between;
use vstd::prelude::*;

verus! {

/// How many sensors every genome starts with.
pub const AMOUNT_INPUT: usize = 3;

/// How many outputs every genome starts with.
pub const AMOUNT_OUTPUT: usize = 2;

/// The fixed-point representation of the weight one.
pub const WEIGHT_UNIT: i64 = 1_000_000;

/// The source of innovation numbers and node ids. Each number is handed out
/// once; the counters only grow.
pub struct GenomeRegistry {
    innovation_number: usize,
    node_number: Id,
}

impl GenomeRegistry {
    /// The last innovation number that was handed out.
    pub closed spec fn innovation_number(&self) -> usize {
        self.innovation_number
    }

    /// The last node id that was handed out.
    pub closed spec fn node_number(&self) -> Id {
        self.node_number
    }

    /// The innovation number that the registry hands out after `draws` more
    /// have been drawn from it.
    pub open spec fn nth_innovation(&self, draws: nat) -> int {
        self.innovation_number() + 1 + draws
    }

    /// The node id that the registry hands out after `draws` more have been
    /// drawn from it.
    pub open spec fn nth_node_id(&self, draws: nat) -> int {
        self.node_number() + 1 + draws
    }

    /// A registry that has handed out nothing yet. Its counters start behind
    /// the numbers that the founding genome uses.
    pub fn new() -> (registry: Self)
        ensures
            registry.innovation_number() == AMOUNT_INPUT * AMOUNT_OUTPUT,
            registry.node_number() == AMOUNT_INPUT + AMOUNT_OUTPUT,
    {
        GenomeRegistry {
            innovation_number: AMOUNT_INPUT * AMOUNT_OUTPUT,
            node_number: AMOUNT_INPUT + AMOUNT_OUTPUT,
        }
    }

    /// A registry that goes on from the given counters, as an earlier one
    /// left them. No registry starts behind the numbers of the founding
    /// genome: such counters give nothing.
    pub fn resume(innovation_number: usize, node_number: Id) -> (registry: Option<Self>)
        ensures
            registry.is_some() == (innovation_number >= AMOUNT_INPUT * AMOUNT_OUTPUT && node_number
                >= AMOUNT_INPUT + AMOUNT_OUTPUT),
            registry matches Some(registry) ==> registry.innovation_number() == innovation_number
                && registry.node_number() == node_number,
    {
        if innovation_number >= AMOUNT_INPUT * AMOUNT_OUTPUT && node_number >= AMOUNT_INPUT
            + AMOUNT_OUTPUT {
            Some(GenomeRegistry { innovation_number, node_number })
        } else {
            None
        }
    }

    /// The last innovation number that was handed out.
    pub fn last_innovation_number(&self) -> (n: usize)
        ensures
            n == self.innovation_number(),
    {
        self.innovation_number
    }

    /// The last node id that was handed out.
    pub fn last_node_id(&self) -> (n: Id)
        ensures
            n == self.node_number(),
    {
        self.node_number
    }
}

/// Hands out the next innovation number.
pub fn get_innovation_number(registry: &mut GenomeRegistry) -> (n: usize)
    requires
        old(registry).innovation_number() < usize::MAX,
    ensures
        n == old(registry).innovation_number() + 1,
        n == old(registry).nth_innovation(0),
        final(registry).innovation_number() == n,
        final(registry).node_number() == old(registry).node_number(),
{
    registry.innovation_number += 1;
    registry.innovation_number
}

/// Hands out the next node id.
pub fn get_next_node_id(registry: &mut GenomeRegistry) -> (id: Id)
    requires
        old(registry).node_number() < usize::MAX,
    ensures
        id == old(registry).node_number() + 1,
        id == old(registry).nth_node_id(0),
        final(registry).node_number() == id,
        final(registry).innovation_number() == old(registry).innovation_number(),
{
    registry.node_number += 1;
    registry.node_number
}

/// Innovation numbers and node ids are strictly increasing and never used
/// again. Whatever comes between two draws from a registry, the later draw
/// gives the greater number; and a draw moves the registry on by one, so
/// that a run of draws gives as many numbers, all different, in the order
/// in which they were drawn.
pub proof fn lemma_numbers_ascend(
    before: GenomeRegistry,
    after: GenomeRegistry,
    earlier: nat,
    later: nat,
)
    requires
        earlier < later,
        after.innovation_number() == before.nth_innovation(0),
        after.node_number() == before.nth_node_id(0),
    ensures
        before.nth_innovation(earlier) < before.nth_innovation(later),
        before.nth_node_id(earlier) < before.nth_node_id(later),
        after.nth_innovation(earlier) == before.nth_innovation(earlier + 1),
        after.nth_node_id(earlier) == before.nth_node_id(earlier + 1),
        before.innovation_number() < before.nth_innovation(earlier),
        before.node_number() < before.nth_node_id(earlier),
{
}

/// What a registry hands out is new to every genome that it knows: no
/// connection carries the number yet, and no node the id.
pub proof fn lemma_numbers_are_new(genome: GenomeView, registry: GenomeRegistry, draws: nat)
    requires
        genome.known_to(registry),
        registry.nth_innovation(draws) <= usize::MAX,
        registry.nth_node_id(draws) <= usize::MAX,
    ensures
        !genome.has_innovation(registry.nth_innovation(draws) as usize),
        !genome.has_node(registry.nth_node_id(draws) as usize),
{
}

/// What a genome is: its nodes and its connections, in the order in which
/// they were added.
pub struct GenomeView {
    pub nodes: Seq<NodeGene>,
    pub connections: Seq<ConnectionGene>,
}

impl GenomeView {
    /// Whether a node with this id is part of the genome.
    pub open spec fn has_node(self, id: Id) -> bool {
        exists|i: int| 0 <= i < self.nodes.len() && #[trigger] self.nodes[i].id == id
    }

    /// Whether a connection with this innovation number is part of the genome.
    pub open spec fn has_innovation(self, innovation_number: usize) -> bool {
        exists|i: int|
            0 <= i < self.connections.len() && #[trigger] self.connections[i].innovation_number
                == innovation_number
    }

    /// No two nodes share an id.
    pub open spec fn distinct_nodes(self) -> bool {
        forall|i: int, j: int|
            0 <= i < j < self.nodes.len() ==> #[trigger] self.nodes[i].id
                != #[trigger] self.nodes[j].id
    }

    /// Whether both ends of the connection are nodes of this genome.
    pub open spec fn joins_own_nodes(self, connection: ConnectionGene) -> bool {
        self.has_node(connection.from) && self.has_node(connection.to)
    }

    /// Every connection joins two nodes of this genome.
    pub open spec fn connections_closed(self) -> bool {
        forall|i: int|
            0 <= i < self.connections.len() ==> self.joins_own_nodes(#[trigger] self.connections[i])
    }

    /// The connections stand in the order of their innovation numbers, and no
    /// number occurs twice.
    pub open spec fn innovations_ascending(self) -> bool {
        forall|i: int, j: int|
            0 <= i < j < self.connections.len()
                ==> #[trigger] self.connections[i].innovation_number
                < #[trigger] self.connections[j].innovation_number
    }

    /// The consistency that every operator of this module keeps.
    pub open spec fn wf(self) -> bool {
        &&& self.distinct_nodes()
        &&& self.connections_closed()
        &&& self.innovations_ascending()
    }

    /// Whether the registry is ahead of every name in the genome, so that
    /// what it hands out next is new to the genome.
    pub open spec fn known_to(self, registry: GenomeRegistry) -> bool {
        &&& forall|i: int|
            0 <= i < self.nodes.len() ==> #[trigger] self.nodes[i].id <= registry.node_number()
        &&& forall|i: int|
            0 <= i < self.connections.len() ==> #[trigger] self.connections[i].innovation_number
                <= registry.innovation_number()
    }
}

/// The node that stands at place `i` of the founding genome.
pub open spec fn founding_node(i: int) -> NodeGene {
    NodeGene {
        node_type: if i < AMOUNT_INPUT {
            NodeType::Sensor
        } else {
            NodeType::Output
        },
        id: (i + 1) as usize,
    }
}

/// The connection that stands at place `k` of the founding genome: the
/// outputs in turn, and for each of them the sensors in turn.
pub open spec fn founding_connection(k: int, weight: i64) -> ConnectionGene {
    ConnectionGene {
        from: (k % (AMOUNT_INPUT as int) + 1) as usize,
        to: (AMOUNT_INPUT + 1 + k / (AMOUNT_INPUT as int)) as usize,
        weight,
        enabled: true,
        innovation_number: (k + 1) as usize,
    }
}

/// The founding genome with the given weights: every sensor linked to every
/// output.
pub open spec fn fully_linked(weights: Seq<i64>) -> GenomeView {
    GenomeView {
        nodes: Seq::new((AMOUNT_INPUT + AMOUNT_OUTPUT) as nat, |i: int| founding_node(i)),
        connections: Seq::new(
            (AMOUNT_INPUT * AMOUNT_OUTPUT) as nat,
            |k: int| founding_connection(k, weights[k]),
        ),
    }
}

/// The network of a creature.
pub struct Genome {
    node_genome: Vec<NodeGene>,
    connection_genome: Vec<ConnectionGene>,
}

impl View for Genome {
    type V = GenomeView;

    closed spec fn view(&self) -> GenomeView {
        GenomeView { nodes: self.node_genome@, connections: self.connection_genome@ }
    }
}

impl Genome {
    /// The weights of the connections, in their order.
    pub open spec fn weights(&self) -> Seq<i64> {
        Seq::new(self@.connections.len(), |k: int| self@.connections[k].weight)
    }

    /// The nodes, in the order in which they were added.
    pub fn get_nodes(&self) -> (nodes: &Vec<NodeGene>)
        ensures
            nodes@ == self@.nodes,
    {
        &self.node_genome
    }

    /// The connections, in the order in which they were added.
    pub fn get_connections(&self) -> (connections: &Vec<ConnectionGene>)
        ensures
            connections@ == self@.connections,
    {
        &self.connection_genome
    }

    /// Says whether the genome is consistent.
    pub fn is_consistent(&self) -> (consistent: bool)
        ensures
            consistent == self@.wf(),
    {
        let nodes = &self.node_genome;
        let connections = &self.connection_genome;
        for i in 0..nodes.len()
            invariant
                nodes@ == self@.nodes,
                forall|a: int, b: int|
                    0 <= a < b < i ==> #[trigger] nodes@[a].id != #[trigger] nodes@[b].id,
        {
            for j in 0..i
                invariant
                    i < nodes.len(),
                    nodes@ == self@.nodes,
                    forall|a: int| 0 <= a < j ==> #[trigger] nodes@[a].id != nodes@[i as int].id,
            {
                if nodes[j].id == nodes[i].id {
                    return false;
                }
            }
        }
        for i in 0..connections.len()
            invariant
                connections@ == self@.connections,
                forall|k: int| 0 <= k < i ==> self@.joins_own_nodes(#[trigger] connections@[k]),
                forall|a: int, b: int|
                    0 <= a < b < i ==> #[trigger] connections@[a].innovation_number
                        < #[trigger] connections@[b].innovation_number,
        {
            let connection = connections[i];
            if !self.has_node(connection.from) || !self.has_node(connection.to) {
                return false;
            }
            if i > 0 && connections[i - 1].innovation_number >= connection.innovation_number {
                assert(self@.connections[i - 1].innovation_number
                    >= self@.connections[i as int].innovation_number);
                return false;
            }
            assert forall|a: int| 0 <= a < i implies #[trigger] connections@[a].innovation_number
                < connection.innovation_number by {
                if a < i - 1 {
                    assert(connections@[a].innovation_number < connections@[i
                        - 1].innovation_number);
                }
            }
        }
        true
    }

    /// A genome made of the given nodes and connections, if they form a
    /// consistent one.
    pub fn from_parts(nodes: Vec<NodeGene>, connections: Vec<ConnectionGene>) -> (genome: Option<
        Genome,
    >)
        ensures
            genome.is_some() == (GenomeView { nodes: nodes@, connections: connections@ }).wf(),
            genome matches Some(genome) ==> genome@ == (GenomeView {
                nodes: nodes@,
                connections: connections@,
            }),
    {
        let genome = Genome { node_genome: nodes, connection_genome: connections };
        if genome.is_consistent() {
            Some(genome)
        } else {
            None
        }
    }

    /// Says whether a node with this id is part of the genome.
    pub fn has_node(&self, id: Id) -> (found: bool)
        ensures
            found == self@.has_node(id),
    {
        let mut found = false;
        for i in 0..self.node_genome.len()
            invariant
                found == (exists|k: int| 0 <= k < i && #[trigger] self@.nodes[k].id == id),
        {
            if self.node_genome[i].id == id {
                found = true;
            }
        }
        found
    }

    /// A place among the nodes, drawn at random.
    pub fn get_random_node_place(&self) -> (place: usize)
        requires
            self@.nodes.len() > 0,
        ensures
            place < self@.nodes.len(),
    {
        random_between(0, self.node_genome.len())
    }

    /// The id of a node of this genome, drawn at random.
    pub fn get_random_node_id(&self) -> (id: Id)
        requires
            self@.nodes.len() > 0,
        ensures
            self@.has_node(id),
    {
        self.node_genome[self.get_random_node_place()].id
    }

    /// A place among the connections, drawn at random.
    pub fn get_random_connection_place(&self) -> (place: usize)
        requires
            self@.connections.len() > 0,
        ensures
            place < self@.connections.len(),
    {
        random_between(0, self.connection_genome.len())
    }

    /// A weight drawn at random between minus one and one.
    pub fn get_random_weight() -> (weight: i64)
        ensures
            -WEIGHT_UNIT <= weight < WEIGHT_UNIT,
    {
        let draw: usize = random_between(0, 2_000_000);
        draw as i64 - WEIGHT_UNIT
    }

    /// A factor drawn at random between 0.8 and 1.2, in units of `WEIGHT_UNIT`.
    pub fn get_random_weight_multiplier() -> (factor: i64)
        ensures
            800_000 <= factor < 1_200_000,
    {
        let draw: usize = random_between(0, 400_000);
        draw as i64 + 800_000
    }

    /// Appends a node.
    pub fn add_node(&mut self, node_type: NodeType, id: Id)
        ensures
            final(self)@.nodes == old(self)@.nodes.push(NodeGene { node_type, id }),
            final(self)@.connections == old(self)@.connections,
    {
        self.node_genome.push(NodeGene { node_type, id });
    }

    /// Appends an enabled connection under the next innovation number.
    pub fn add_connection(&mut self, from: Id, to: Id, weight: i64, registry: &mut GenomeRegistry)
        requires
            old(registry).innovation_number() < usize::MAX,
        ensures
            final(registry).innovation_number() == old(registry).innovation_number() + 1,
            final(registry).node_number() == old(registry).node_number(),
            final(self)@.nodes == old(self)@.nodes,
            final(self)@.connections == old(self)@.connections.push(
                ConnectionGene {
                    from,
                    to,
                    weight,
                    enabled: true,
                    innovation_number: final(registry).innovation_number(),
                },
            ),
    {
        self.connection_genome.push(
            ConnectionGene {
                from,
                to,
                weight,
                enabled: true,
                innovation_number: get_innovation_number(registry),
            },
        );
    }

    /// The founding genome with the given weights: the sensors, then the
    /// outputs, and a connection from every sensor to every output. The
    /// connections carry the innovation numbers from one upwards, the same in
    /// every founding genome, so that any two of them line up gene by gene.
    pub fn new_fully_linked_with(weights: &Vec<i64>) -> (genome: Self)
        requires
            weights.len() == AMOUNT_INPUT * AMOUNT_OUTPUT,
        ensures
            genome@ == fully_linked(weights@),
            genome@.wf(),
            genome@.feed_forward(),
    {
        proof {
            lemma_fully_linked_wf(weights@);
            lemma_fully_linked_feed_forward(weights@);
        }
        let mut genome = Genome { node_genome: Vec::new(), connection_genome: Vec::new() };
        let mut node_counter: usize = 1;

        for i in 0..AMOUNT_INPUT
            invariant
                node_counter == i + 1,
                genome@.connections.len() == 0,
                genome@.nodes.len() == i,
                forall|n: int| 0 <= n < i ==> genome@.nodes[n] == founding_node(n),
        {
            genome.add_node(NodeType::Sensor, node_counter);
            node_counter += 1;
        }

        let mut con_counter: usize = 1;
        for o in 0..AMOUNT_OUTPUT
            invariant
                weights.len() == AMOUNT_INPUT * AMOUNT_OUTPUT,
                node_counter == AMOUNT_INPUT + o + 1,
                con_counter == o * AMOUNT_INPUT + 1,
                genome@.nodes.len() == AMOUNT_INPUT + o,
                forall|n: int| 0 <= n < AMOUNT_INPUT + o ==> genome@.nodes[n] == founding_node(n),
                genome@.connections.len() == o * AMOUNT_INPUT,
                forall|k: int|
                    0 <= k < o * AMOUNT_INPUT ==> genome@.connections[k] == founding_connection(
                        k,
                        weights@[k],
                    ),
        {
            genome.add_node(NodeType::Output, node_counter);
            node_counter += 1;

            let to = genome.node_genome[genome.node_genome.len() - 1].id;
            for i in 0..AMOUNT_INPUT
                invariant
                    weights.len() == AMOUNT_INPUT * AMOUNT_OUTPUT,
                    o < AMOUNT_OUTPUT,
                    to == AMOUNT_INPUT + o + 1,
                    con_counter == o * AMOUNT_INPUT + i + 1,
                    genome@.nodes.len() == AMOUNT_INPUT + o + 1,
                    forall|n: int|
                        0 <= n < AMOUNT_INPUT + o + 1 ==> genome@.nodes[n] == founding_node(n),
                    genome@.connections.len() == o * AMOUNT_INPUT + i,
                    forall|k: int|
                        0 <= k < o * AMOUNT_INPUT + i ==> genome@.connections[k]
                            == founding_connection(k, weights@[k]),
            {
                let from = genome.node_genome[i].id;
                assert(genome@.nodes[i as int] == founding_node(i as int));

                genome.connection_genome.push(
                    ConnectionGene {
                        from,
                        to,
                        weight: weights[con_counter - 1],
                        enabled: true,
                        innovation_number: con_counter,
                    },
                );
                con_counter += 1;
            }
        }

        assert(genome@.nodes =~= fully_linked(weights@).nodes);
        assert(genome@.connections =~= fully_linked(weights@).connections);
        genome
    }

    /// A founding genome whose weights are drawn at random between minus one
    /// and one.
    pub fn new_fully_linked() -> (genome: Self)
        ensures
            genome@ == fully_linked(genome.weights()),
            genome@.wf(),
            genome@.feed_forward(),
            forall|k: int|
                0 <= k < genome@.connections.len() ==> -WEIGHT_UNIT
                    <= #[trigger] genome@.connections[k].weight < WEIGHT_UNIT,
    {
        let mut weights: Vec<i64> = Vec::new();
        for k in 0..AMOUNT_INPUT * AMOUNT_OUTPUT
            invariant
                weights.len() == k,
                forall|j: int| 0 <= j < k ==> -WEIGHT_UNIT <= #[trigger] weights@[j] < WEIGHT_UNIT,
        {
            weights.push(Self::get_random_weight());
        }
        let genome = Self::new_fully_linked_with(&weights);
        assert(genome.weights() =~= weights@);
        genome
    }
}

/// The founding genome is consistent.
pub proof fn lemma_fully_linked_wf(weights: Seq<i64>)
    ensures
        fully_linked(weights).wf(),
{
    let g = fully_linked(weights);
    assert forall|i: int| 0 <= i < g.connections.len() implies g.joins_own_nodes(
        #[trigger] g.connections[i],
    ) by {
        let from = g.connections[i].from;
        let to = g.connections[i].to;
        assert(g.nodes[from - 1].id == from);
        assert(g.nodes[to - 1].id == to);
    }
}

/// The founding genome has no circles: its connections lead from sensors to
/// outputs, and none leads on from an output.
pub proof fn lemma_fully_linked_feed_forward(weights: Seq<i64>)
    ensures
        fully_linked(weights).feed_forward(),
{
    let g = fully_linked(weights);
    assert forall|from: Id, to: Id| #[trigger] g.has_link(from, to) implies !g.reaches(
        to,
        from,
    ) by {
        let i = choose|i: int|
            0 <= i < g.connections.len() && (#[trigger] g.connections[i]).from == from
                && g.connections[i].to == to;
        if g.reaches(to, from) {
            crate::genome::topology::lemma_path_leaves(g, to, from);
            let j = choose|j: int|
                0 <= j < g.connections.len() && (#[trigger] g.connections[j]).from == to;
            assert(g.connections[j].from <= AMOUNT_INPUT);
        }
    }
}

/// Every registry knows all names of the founding genome, since no registry
/// starts behind them and none goes back.
pub proof fn lemma_fully_linked_known(weights: Seq<i64>, registry: GenomeRegistry)
    requires
        registry.innovation_number() >= AMOUNT_INPUT * AMOUNT_OUTPUT,
        registry.node_number() >= AMOUNT_INPUT + AMOUNT_OUTPUT,
    ensures
        fully_linked(weights).known_to(registry),
{
}

} // verus!
