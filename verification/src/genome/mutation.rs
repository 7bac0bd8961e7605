//! The mutations of a genome: a new node, a new connection, a changed
//! weight.

use crate::genome::gene::{ConnectionGene, Id, NodeGene, NodeType};
use crate::genome::{
    get_next_node_id, Genome, GenomeRegistry, GenomeView, WEIGHT_UNIT,
};
use crate::genome::topology::{
    lemma_link_keeps_feed_forward, lemma_same_links, lemma_split_keeps_feed_forward,
};
use crate::random::random_between;
use vstd::prelude::*;

verus! {

/// What a mutation has done to a genome.
#[derive(Clone, Copy, Debug)]
pub enum Mutation {
    /// The connection at this place was split by a new node.
    AddedNode(usize),
    /// This connection was added.
    AddedConnection(ConnectionGene),
    /// The connection at this place got a new weight.
    ResetWeight(usize),
    /// The weight of the connection at this place was multiplied by a
    /// factor between 0.8 and 1.2.
    PerturbedWeight(usize),
    /// The genome is as it was.
    Nothing,
}

/// Whether `after` is `before` with the connection at `place` split, under
/// the names that the registry has handed out in between.
pub open spec fn node_added(
    before: GenomeView,
    after: GenomeView,
    registry_before: GenomeRegistry,
    registry_after: GenomeRegistry,
    place: usize,
) -> bool {
    &&& place < before.connections.len()
    &&& before.connections[place as int].enabled
    &&& after == before.split(
        place as int,
        registry_after.node_number(),
        (registry_before.innovation_number() + 1) as usize,
    )
    &&& registry_after.node_number() == registry_before.node_number() + 1
    &&& registry_after.innovation_number() == registry_before.innovation_number() + 2
}

/// Whether `after` is `before` with the given connection added, which is
/// admissible, enabled, of a weight between minus one and one, and carries
/// the number that the registry has handed out in between.
pub open spec fn connection_added(
    before: GenomeView,
    after: GenomeView,
    registry_before: GenomeRegistry,
    registry_after: GenomeRegistry,
    connection: ConnectionGene,
) -> bool {
    &&& before.can_link(connection.from, connection.to)
    &&& -WEIGHT_UNIT <= connection.weight < WEIGHT_UNIT
    &&& connection.enabled
    &&& connection.innovation_number == registry_before.innovation_number() + 1
    &&& after == before.with_connection(connection)
    &&& registry_after.innovation_number() == connection.innovation_number
    &&& registry_after.node_number() == registry_before.node_number()
}

/// Whether `after` is `before` with a new weight between minus one and one
/// on the connection at `place`.
pub open spec fn weight_reset(before: GenomeView, after: GenomeView, place: usize) -> bool {
    &&& place < before.connections.len()
    &&& exists|weight: i64|
        -WEIGHT_UNIT <= weight < WEIGHT_UNIT && after == #[trigger] before.with_weight(
            place as int,
            weight,
        )
}

/// Whether `after` is `before` with the weight of the connection at `place`
/// multiplied by a factor between 0.8 and 1.2.
pub open spec fn weight_perturbed(before: GenomeView, after: GenomeView, place: usize) -> bool {
    &&& place < before.connections.len()
    &&& exists|factor: i64|
        800_000 <= factor < 1_200_000 && after == before.with_weight(
            place as int,
            #[trigger] scaled_weight(before.connections[place as int].weight, factor),
        )
}

/// Whether `mutation` tells truly how the genome `after` came from the
/// genome `before`, with the registry going from `registry_before` to
/// `registry_after`.
pub open spec fn mutated(
    before: GenomeView,
    after: GenomeView,
    registry_before: GenomeRegistry,
    registry_after: GenomeRegistry,
    mutation: Mutation,
) -> bool {
    match mutation {
        Mutation::AddedNode(place) => node_added(
            before,
            after,
            registry_before,
            registry_after,
            place,
        ),
        Mutation::AddedConnection(connection) => connection_added(
            before,
            after,
            registry_before,
            registry_after,
            connection,
        ),
        Mutation::ResetWeight(place) => weight_reset(before, after, place) && registry_after
            == registry_before,
        Mutation::PerturbedWeight(place) => weight_perturbed(before, after, place)
            && registry_after == registry_before,
        Mutation::Nothing => after == before && registry_after == registry_before,
    }
}

impl GenomeView {
    /// The genome after the connection at `place` has been split: that
    /// connection is disabled, a hidden node `node_id` is added, and two
    /// connections lead through it. The one into the new node has the weight
    /// one and the number `innovation`, the one out of it has the weight of
    /// the split connection and the next number.
    pub open spec fn split(self, place: int, node_id: Id, innovation: usize) -> GenomeView {
        let old = self.connections[place];
        GenomeView {
            nodes: self.nodes.push(NodeGene { node_type: NodeType::Hidden, id: node_id }),
            connections: self.connections.update(
                place,
                ConnectionGene { enabled: false, ..old },
            ).push(
                ConnectionGene {
                    from: old.from,
                    to: node_id,
                    weight: WEIGHT_UNIT,
                    enabled: true,
                    innovation_number: innovation,
                },
            ).push(
                ConnectionGene {
                    from: node_id,
                    to: old.to,
                    weight: old.weight,
                    enabled: true,
                    innovation_number: (innovation + 1) as usize,
                },
            ),
        }
    }

    /// Whether a node with this id and this role is part of the genome.
    pub open spec fn has_node_of(self, id: Id, node_type: NodeType) -> bool {
        exists|i: int|
            0 <= i < self.nodes.len() && (#[trigger] self.nodes[i]).id == id
                && self.nodes[i].node_type == node_type
    }

    /// Whether a new connection from `from` to `to` is admissible: both are
    /// nodes of the genome, nothing is fed into a sensor or out of an
    /// output, the two are not connected yet, and the connection closes no
    /// circle, which it would if a path led from `to` back to `from`. So no
    /// node is linked to itself, and no two nodes in both directions.
    pub open spec fn can_link(self, from: Id, to: Id) -> bool {
        &&& self.has_node(from)
        &&& self.has_node(to)
        &&& !self.has_node_of(from, NodeType::Output)
        &&& !self.has_node_of(to, NodeType::Sensor)
        &&& !self.has_link(from, to)
        &&& !self.reaches(to, from)
    }

    /// The genome with one more connection.
    pub open spec fn with_connection(self, connection: ConnectionGene) -> GenomeView {
        GenomeView { nodes: self.nodes, connections: self.connections.push(connection) }
    }

    /// The genome with another weight on the connection at `place`.
    pub open spec fn with_weight(self, place: int, weight: i64) -> GenomeView {
        GenomeView {
            nodes: self.nodes,
            connections: self.connections.update(
                place,
                ConnectionGene { weight, ..self.connections[place] },
            ),
        }
    }
}

/// A weight multiplied by a factor, both in fixed point. The product is
/// cut off towards zero and held within the range of a weight.
pub open spec fn scaled_weight(weight: i64, factor: i64) -> i64 {
    let size = if weight >= 0 {
        weight as int
    } else {
        -(weight as int)
    };
    let product = (size * factor) / (WEIGHT_UNIT as int);
    let capped = if product > i64::MAX {
        i64::MAX as int
    } else {
        product
    };
    if weight >= 0 {
        capped as i64
    } else {
        (-capped) as i64
    }
}

/// Computes a weight multiplied by a factor.
pub fn scale_weight(weight: i64, factor: i64) -> (scaled: i64)
    requires
        factor >= 0,
    ensures
        scaled == scaled_weight(weight, factor),
{
    let size: u128 = if weight >= 0 {
        weight as u128
    } else {
        (-(weight as i128)) as u128
    };
    assert(size * (factor as u128) <= 0x8000_0000_0000_0000 * 0x8000_0000_0000_0000)
        by (nonlinear_arith)
        requires
            size <= 0x8000_0000_0000_0000,
            0 <= factor <= 0x8000_0000_0000_0000,
    ;
    let product: u128 = size * (factor as u128) / (WEIGHT_UNIT as u128);
    let capped: u128 = if product > i64::MAX as u128 {
        i64::MAX as u128
    } else {
        product
    };
    if weight >= 0 {
        capped as i64
    } else {
        -(capped as i64)
    }
}

/// The connections of a consistent genome start and end at nodes that the
/// registry has handed out.
pub proof fn lemma_ends_are_known(genome: GenomeView, registry: GenomeRegistry)
    requires
        genome.wf(),
        genome.known_to(registry),
    ensures
        forall|i: int|
            0 <= i < genome.connections.len() ==> (#[trigger] genome.connections[i]).from
                <= registry.node_number() && genome.connections[i].to <= registry.node_number(),
{
    assert forall|i: int| 0 <= i < genome.connections.len() implies (
    #[trigger] genome.connections[i]).from <= registry.node_number() && genome.connections[i].to
        <= registry.node_number() by {
        assert(genome.joins_own_nodes(genome.connections[i]));
        let from = choose|k: int|
            0 <= k < genome.nodes.len() && #[trigger] genome.nodes[k].id
                == genome.connections[i].from;
        let to = choose|k: int|
            0 <= k < genome.nodes.len() && #[trigger] genome.nodes[k].id
                == genome.connections[i].to;
        assert(genome.nodes[from].id <= registry.node_number());
        assert(genome.nodes[to].id <= registry.node_number());
    }
}

/// Another weight on a connection changes no path.
pub proof fn lemma_weight_keeps_links(genome: GenomeView, place: int, weight: i64)
    requires
        0 <= place < genome.connections.len(),
    ensures
        genome.same_links(genome.with_weight(place, weight)),
        genome.feed_forward() == genome.with_weight(place, weight).feed_forward(),
{
    assert(genome.same_links(genome.with_weight(place, weight)));
    lemma_same_links(genome, genome.with_weight(place, weight));
}

/// Another weight on a connection brings no new name into a genome.
pub proof fn lemma_weight_known(
    genome: GenomeView,
    place: int,
    weight: i64,
    registry: GenomeRegistry,
)
    requires
        genome.known_to(registry),
        0 <= place < genome.connections.len(),
    ensures
        genome.with_weight(place, weight).known_to(registry),
{
    let after = genome.with_weight(place, weight);
    assert forall|i: int| 0 <= i < after.connections.len() implies (
    #[trigger] after.connections[i]).innovation_number <= registry.innovation_number() by {
        assert(after.connections[i].innovation_number
            == genome.connections[i].innovation_number);
    }
}

/// Another weight on a connection leaves a consistent genome consistent.
pub proof fn lemma_weight_wf(genome: GenomeView, place: int, weight: i64)
    requires
        genome.wf(),
        0 <= place < genome.connections.len(),
    ensures
        genome.with_weight(place, weight).wf(),
{
    let after = genome.with_weight(place, weight);
    assert forall|i: int| 0 <= i < after.connections.len() implies after.joins_own_nodes(
        #[trigger] after.connections[i],
    ) by {
        assert(genome.joins_own_nodes(genome.connections[i]));
    }
    assert forall|i: int, j: int| 0 <= i < j < after.connections.len() implies (
    #[trigger] after.connections[i]).innovation_number < (
    #[trigger] after.connections[j]).innovation_number by {
        assert(after.connections[i].innovation_number
            == genome.connections[i].innovation_number);
        assert(after.connections[j].innovation_number
            == genome.connections[j].innovation_number);
    }
}

/// Appending a node keeps every node that was there.
pub proof fn lemma_node_stays(genome: GenomeView, node: NodeGene, id: Id)
    requires
        genome.has_node(id),
    ensures
        (GenomeView { nodes: genome.nodes.push(node), connections: genome.connections }).has_node(
            id,
        ),
{
    let i = choose|i: int| 0 <= i < genome.nodes.len() && #[trigger] genome.nodes[i].id == id;
    assert(genome.nodes.push(node)[i].id == id);
}

/// Splitting a connection of a consistent genome, with names that a
/// registry hands out next, gives a consistent genome.
pub proof fn lemma_split_wf(
    genome: GenomeView,
    place: int,
    registry: GenomeRegistry,
    after: GenomeRegistry,
)
    requires
        genome.wf(),
        genome.known_to(registry),
        0 <= place < genome.connections.len(),
        after.node_number() == registry.node_number() + 1,
        after.innovation_number() == registry.innovation_number() + 2,
    ensures
        genome.split(
            place,
            (registry.node_number() + 1) as usize,
            (registry.innovation_number() + 1) as usize,
        ).wf(),
        genome.split(
            place,
            (registry.node_number() + 1) as usize,
            (registry.innovation_number() + 1) as usize,
        ).known_to(after),
{
    let node_id = (registry.node_number() + 1) as usize;
    let innovation = (registry.innovation_number() + 1) as usize;
    let after = genome.split(place, node_id, innovation);
    let count = genome.connections.len() as int;
    let node = NodeGene { node_type: NodeType::Hidden, id: node_id };
    assert(after.nodes[genome.nodes.len() as int].id == node_id);
    assert forall|i: int| 0 <= i < after.connections.len() implies after.joins_own_nodes(
        #[trigger] after.connections[i],
    ) by {
        if i < count {
            lemma_node_stays(genome, node, genome.connections[i].from);
            lemma_node_stays(genome, node, genome.connections[i].to);
        } else {
            lemma_node_stays(genome, node, genome.connections[place].from);
            lemma_node_stays(genome, node, genome.connections[place].to);
        }
    }
    assert forall|i: int, j: int| 0 <= i < j < after.connections.len() implies (
    #[trigger] after.connections[i]).innovation_number < (
    #[trigger] after.connections[j]).innovation_number by {
        if i < count {
            assert(after.connections[i].innovation_number
                == genome.connections[i].innovation_number);
        }
        if j < count {
            assert(after.connections[j].innovation_number
                == genome.connections[j].innovation_number);
        }
    }
}

/// Linking two nodes of a consistent genome, under a number that a registry
/// hands out next, gives a consistent genome.
pub proof fn lemma_link_wf(
    genome: GenomeView,
    connection: ConnectionGene,
    registry: GenomeRegistry,
    after: GenomeRegistry,
)
    requires
        genome.wf(),
        genome.known_to(registry),
        genome.has_node(connection.from),
        genome.has_node(connection.to),
        connection.innovation_number == registry.innovation_number() + 1,
        after.innovation_number() == connection.innovation_number,
        after.node_number() == registry.node_number(),
    ensures
        genome.with_connection(connection).wf(),
        genome.with_connection(connection).known_to(after),
{
    let after = genome.with_connection(connection);
    assert forall|i: int| 0 <= i < after.connections.len() implies after.joins_own_nodes(
        #[trigger] after.connections[i],
    ) by {
        if i < genome.connections.len() {
            assert(genome.joins_own_nodes(genome.connections[i]));
        }
    }
    assert forall|i: int, j: int| 0 <= i < j < after.connections.len() implies (
    #[trigger] after.connections[i]).innovation_number < (
    #[trigger] after.connections[j]).innovation_number by {
        if j < genome.connections.len() {
            assert(after.connections[j] == genome.connections[j]);
        }
    }
}

impl Genome {
    /// Splits the connection at `place`: it is disabled, and a new hidden
    /// node takes its place, with a connection of weight one into it and a
    /// connection with the old weight out of it. The node gets the next node
    /// id and the two connections get the next two innovation numbers.
    pub fn split_connection(&mut self, place: usize, registry: &mut GenomeRegistry)
        requires
            place < old(self)@.connections.len(),
            old(self)@.connections[place as int].enabled,
            old(registry).node_number() < usize::MAX,
            old(registry).innovation_number() + 2 <= usize::MAX,
        ensures
            final(self)@ == old(self)@.split(
                place as int,
                final(registry).node_number(),
                (old(registry).innovation_number() + 1) as usize,
            ),
            final(registry).node_number() == old(registry).node_number() + 1,
            final(registry).innovation_number() == old(registry).innovation_number() + 2,
            old(self)@.wf() && old(self)@.known_to(*old(registry)) ==> final(self)@.wf()
                && final(self)@.known_to(*final(registry)),
            old(self)@.wf() && old(self)@.known_to(*old(registry)) && old(self)@.feed_forward()
                ==> final(self)@.feed_forward(),
    {
        let split = self.connection_genome[place];
        self.connection_genome[place].enabled = false;

        let node_id = get_next_node_id(registry);
        self.add_node(NodeType::Hidden, node_id);
        self.add_connection(split.from, node_id, WEIGHT_UNIT, registry);
        self.add_connection(node_id, split.to, split.weight, registry);

        assert(self@.nodes =~= old(self)@.split(
            place as int,
            node_id,
            (old(registry).innovation_number() + 1) as usize,
        ).nodes);
        assert(self@.connections =~= old(self)@.split(
            place as int,
            node_id,
            (old(registry).innovation_number() + 1) as usize,
        ).connections);
        proof {
            if old(self)@.wf() && old(self)@.known_to(*old(registry)) {
                lemma_split_wf(old(self)@, place as int, *old(registry), *registry);
                if old(self)@.feed_forward() {
                    lemma_ends_are_known(old(self)@, *old(registry));
                    lemma_split_keeps_feed_forward(
                        old(self)@,
                        place as int,
                        node_id,
                        (old(registry).innovation_number() + 1) as usize,
                    );
                }
            }
        }
    }

    /// Tries the mutation that adds a node: draws a connection at random
    /// and splits it if it is enabled. Hands back the place of the
    /// connection that it has split. It hands back nothing, and has changed
    /// nothing, where the genome has no connection or the connection that
    /// was drawn is disabled: so a genome whose connections are all enabled,
    /// and that has one at least, is always split.
    pub fn mutate_add_node(&mut self, registry: &mut GenomeRegistry) -> (place: Option<usize>)
        requires
            old(registry).node_number() < usize::MAX,
            old(registry).innovation_number() + 2 <= usize::MAX,
        ensures
            match place {
                Some(place) => node_added(
                    old(self)@,
                    final(self)@,
                    *old(registry),
                    *final(registry),
                    place,
                ),
                None => {
                    &&& final(self)@ == old(self)@
                    &&& *final(registry) == *old(registry)
                    &&& old(self)@.connections.len() == 0 || exists|drawn: int|
                        0 <= drawn < old(self)@.connections.len() && !(
                        #[trigger] old(self)@.connections[drawn]).enabled
                },
            },
            old(self)@.wf() && old(self)@.known_to(*old(registry)) ==> final(self)@.wf()
                && final(self)@.known_to(*final(registry)),
            old(self)@.wf() && old(self)@.known_to(*old(registry)) && old(self)@.feed_forward()
                ==> final(self)@.feed_forward(),
    {
        if self.connection_genome.len() == 0 {
            return None;
        }
        let place = self.get_random_connection_place();
        if self.connection_genome[place].enabled {
            self.split_connection(place, registry);
            Some(place)
        } else {
            assert(!old(self)@.connections[place as int].enabled);
            None
        }
    }

    /// Says whether a node with this id and this role is part of the genome.
    pub fn has_node_of(&self, id: Id, node_type: NodeType) -> (found: bool)
        ensures
            found == self@.has_node_of(id, node_type),
    {
        let mut found = false;
        for i in 0..self.node_genome.len()
            invariant
                found == (exists|k: int|
                    0 <= k < i && (#[trigger] self@.nodes[k]).id == id && self@.nodes[k].node_type
                        == node_type),
        {
            if self.node_genome[i].id == id && self.node_genome[i].node_type == node_type {
                found = true;
            }
        }
        found
    }

    /// Says whether a new connection from `from` to `to` is admissible.
    pub fn can_link(&self, from: Id, to: Id) -> (admissible: bool)
        ensures
            admissible == self@.can_link(from, to),
    {
        self.has_node(from) && self.has_node(to) && !self.has_node_of(from, NodeType::Output)
            && !self.has_node_of(to, NodeType::Sensor) && !self.has_link(from, to)
            && !self.reaches(to, from)
    }

    /// Links `from` to `to` with an enabled connection of the given weight,
    /// under the next innovation number, if such a connection is
    /// admissible. Says whether it was; if not, nothing has changed.
    pub fn link(&mut self, from: Id, to: Id, weight: i64, registry: &mut GenomeRegistry) -> (linked:
        bool)
        requires
            old(registry).innovation_number() < usize::MAX,
        ensures
            linked == old(self)@.can_link(from, to),
            linked ==> final(self)@ == old(self)@.with_connection(
                ConnectionGene {
                    from,
                    to,
                    weight,
                    enabled: true,
                    innovation_number: final(registry).innovation_number(),
                },
            ) && final(registry).innovation_number() == old(registry).innovation_number() + 1
                && final(registry).node_number() == old(registry).node_number(),
            !linked ==> final(self)@ == old(self)@ && *final(registry) == *old(registry),
            old(self)@.wf() && old(self)@.known_to(*old(registry)) ==> final(self)@.wf()
                && final(self)@.known_to(*final(registry)),
            old(self)@.feed_forward() ==> final(self)@.feed_forward(),
    {
        if self.can_link(from, to) {
            self.add_connection(from, to, weight, registry);
            proof {
                if old(self)@.feed_forward() {
                    lemma_link_keeps_feed_forward(
                        old(self)@,
                        self@.connections[old(self)@.connections.len() as int],
                    );
                }
                if old(self)@.wf() && old(self)@.known_to(*old(registry)) {
                    lemma_link_wf(
                        old(self)@,
                        self@.connections[old(self)@.connections.len() as int],
                        *old(registry),
                        *registry,
                    );
                }
            }
            true
        } else {
            false
        }
    }

    /// Tries the mutation that adds a connection: draws two nodes and a
    /// weight at random and links the nodes if that is admissible. Hands
    /// back the new connection, or nothing if the genome is unchanged.
    pub fn mutate_add_connection(&mut self, registry: &mut GenomeRegistry) -> (added: Option<
        ConnectionGene,
    >)
        requires
            old(registry).innovation_number() < usize::MAX,
        ensures
            match added {
                Some(connection) => connection_added(
                    old(self)@,
                    final(self)@,
                    *old(registry),
                    *final(registry),
                    connection,
                ),
                None => final(self)@ == old(self)@ && *final(registry) == *old(registry),
            },
            old(self)@.wf() && old(self)@.known_to(*old(registry)) ==> final(self)@.wf()
                && final(self)@.known_to(*final(registry)),
            old(self)@.wf() && old(self)@.known_to(*old(registry)) && old(self)@.feed_forward()
                ==> final(self)@.feed_forward(),
    {
        if self.node_genome.len() == 0 {
            return None;
        }
        let from = self.get_random_node_id();
        let to = self.get_random_node_id();
        let weight = Self::get_random_weight();
        if self.link(from, to, weight, registry) {
            Some(self.connection_genome[self.connection_genome.len() - 1])
        } else {
            None
        }
    }

    /// Multiplies the weight of the connection at `place` by `factor`, which
    /// is in fixed point like the weight.
    pub fn perturb_weight(&mut self, place: usize, factor: i64)
        requires
            place < old(self)@.connections.len(),
            factor >= 0,
        ensures
            final(self)@ == old(self)@.with_weight(
                place as int,
                scaled_weight(old(self)@.connections[place as int].weight, factor),
            ),
            old(self)@.wf() ==> final(self)@.wf(),
            old(self)@.feed_forward() ==> final(self)@.feed_forward(),
            forall|registry: GenomeRegistry|
                old(self)@.known_to(registry) ==> final(self)@.known_to(registry),
    {
        let weight = scale_weight(self.connection_genome[place].weight, factor);
        self.reset_weight(place, weight);
    }

    /// Replaces the weight of the connection at `place`.
    pub fn reset_weight(&mut self, place: usize, weight: i64)
        requires
            place < old(self)@.connections.len(),
        ensures
            final(self)@ == old(self)@.with_weight(place as int, weight),
            old(self)@.wf() ==> final(self)@.wf(),
            old(self)@.feed_forward() ==> final(self)@.feed_forward(),
            forall|registry: GenomeRegistry|
                old(self)@.known_to(registry) ==> final(self)@.known_to(registry),
    {
        self.connection_genome[place].weight = weight;
        assert(self@.connections =~= old(self)@.with_weight(place as int, weight).connections);
        proof {
            lemma_weight_keeps_links(old(self)@, place as int, weight);
            if old(self)@.wf() {
                lemma_weight_wf(old(self)@, place as int, weight);
            }
            assert forall|registry: GenomeRegistry| old(self)@.known_to(registry) implies self@.known_to(
                registry,
            ) by {
                lemma_weight_known(old(self)@, place as int, weight, registry);
            }
        }
    }

    /// The mutation that perturbs a weight: draws a connection and a factor
    /// between 0.8 and 1.2 at random and multiplies the weight of the
    /// connection by the factor. Hands back the place of the connection, or
    /// nothing if the genome has no connection.
    pub fn mutate_perturb_weight(&mut self) -> (place: Option<usize>)
        ensures
            match place {
                Some(place) => weight_perturbed(old(self)@, final(self)@, place),
                None => old(self)@.connections.len() == 0 && final(self)@ == old(self)@,
            },
            old(self)@.wf() ==> final(self)@.wf(),
            old(self)@.feed_forward() ==> final(self)@.feed_forward(),
            forall|registry: GenomeRegistry|
                old(self)@.known_to(registry) ==> final(self)@.known_to(registry),
    {
        if self.connection_genome.len() == 0 {
            return None;
        }
        let place = self.get_random_connection_place();
        let factor = Self::get_random_weight_multiplier();
        self.perturb_weight(place, factor);
        Some(place)
    }

    /// The mutation that resets a weight: draws a connection at random and
    /// gives it a new weight, drawn at random between minus one and one.
    /// Hands back the place of the connection, or nothing if the genome has
    /// no connection.
    pub fn mutate_reset_weight(&mut self) -> (place: Option<usize>)
        ensures
            match place {
                Some(place) => weight_reset(old(self)@, final(self)@, place),
                None => old(self)@.connections.len() == 0 && final(self)@ == old(self)@,
            },
            old(self)@.wf() ==> final(self)@.wf(),
            old(self)@.feed_forward() ==> final(self)@.feed_forward(),
            forall|registry: GenomeRegistry|
                old(self)@.known_to(registry) ==> final(self)@.known_to(registry),
    {
        if self.connection_genome.len() == 0 {
            return None;
        }
        let place = self.get_random_connection_place();
        let weight = Self::get_random_weight();
        self.reset_weight(place, weight);
        Some(place)
    }

    /// Mutates the genome once. Of twenty mutations, one tries to add a
    /// node, one tries to add a connection, one resets a weight, and the
    /// others perturb a weight. A consistent genome stays consistent, and a
    /// registry that knew it knows it still.
    pub fn mutate(&mut self, registry: &mut GenomeRegistry) -> (mutation: Mutation)
        requires
            old(registry).node_number() < usize::MAX,
            old(registry).innovation_number() + 2 <= usize::MAX,
        ensures
            mutated(old(self)@, final(self)@, *old(registry), *final(registry), mutation),
            old(self)@.wf() && old(self)@.known_to(*old(registry)) ==> final(self)@.wf()
                && final(self)@.known_to(*final(registry)),
            old(self)@.wf() && old(self)@.known_to(*old(registry)) && old(self)@.feed_forward()
                ==> final(self)@.feed_forward(),
    {
        let draw = random_between(0, 20);
        if draw == 0 {
            match self.mutate_add_node(registry) {
                Some(place) => Mutation::AddedNode(place),
                None => Mutation::Nothing,
            }
        } else if draw == 1 {
            match self.mutate_add_connection(registry) {
                Some(connection) => Mutation::AddedConnection(connection),
                None => Mutation::Nothing,
            }
        } else if draw == 2 {
            match self.mutate_reset_weight() {
                Some(place) => Mutation::ResetWeight(place),
                None => Mutation::Nothing,
            }
        } else {
            match self.mutate_perturb_weight() {
                Some(place) => Mutation::PerturbedWeight(place),
                None => Mutation::Nothing,
            }
        }
    }
}

} // verus!
