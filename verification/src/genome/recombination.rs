//! Crossover: a child genome from two parents, gene by gene.

use crate::genome::gene::ConnectionGene;
use crate::genome::{fully_linked, lemma_fully_linked_wf, Genome, GenomeRegistry, GenomeView};
use crate::random::random_between;
use vstd::prelude::*;

verus! {

/// The two decisions that are taken for a gene that both parents carry.
#[derive(Clone, Copy, Debug)]
pub struct Inheritance {
    /// The weight comes from the secondary parent, not from the primary.
    pub from_secondary: bool,
    /// The gene is disabled in the child if it is disabled in a parent.
    pub disable: bool,
}

/// The connection with the given innovation number, if there is one; the
/// last one, should there be several.
pub open spec fn lookup(connections: Seq<ConnectionGene>, innovation_number: usize) -> Option<
    ConnectionGene,
>
    decreases connections.len(),
{
    if connections.len() == 0 {
        None
    } else if connections.last().innovation_number == innovation_number {
        Some(connections.last())
    } else {
        lookup(connections.drop_last(), innovation_number)
    }
}

/// The gene that a child gets where the primary parent carries `own` and
/// the secondary parent carries `other` under the same innovation number, or
/// nothing. A gene of the primary parent alone is handed down as it is. Of
/// a gene of both, the child has the ends from the primary parent and the
/// weight from the parent that the first decision names; it is enabled if
/// it is enabled in both parents, and else disabled if the second decision
/// says so.
pub open spec fn inherit(own: ConnectionGene, other: Option<ConnectionGene>, roll: Inheritance)
    -> ConnectionGene {
    match other {
        None => own,
        Some(other) => ConnectionGene {
            from: own.from,
            to: own.to,
            weight: if roll.from_secondary {
                other.weight
            } else {
                own.weight
            },
            enabled: (own.enabled && other.enabled) || !roll.disable,
            innovation_number: own.innovation_number,
        },
    }
}

/// The child of two genomes: the nodes of the primary parent, and for each
/// of its connections, in their order, the gene that is inherited with the
/// decisions at the same place of `rolls`. Genes of the secondary parent
/// alone are not handed down.
pub open spec fn crossover(primary: GenomeView, secondary: GenomeView, rolls: Seq<Inheritance>)
    -> GenomeView {
    GenomeView {
        nodes: primary.nodes,
        connections: Seq::new(
            primary.connections.len(),
            |i: int|
                inherit(
                    primary.connections[i],
                    lookup(secondary.connections, primary.connections[i].innovation_number),
                    rolls[i],
                ),
        ),
    }
}

/// What `lookup` finds is a connection of the genome with the number asked
/// for, and it finds one whenever there is one.
pub proof fn lemma_lookup(connections: Seq<ConnectionGene>, innovation_number: usize)
    ensures
        match lookup(connections, innovation_number) {
            Some(found) => found.innovation_number == innovation_number && connections.contains(
                found,
            ),
            None => forall|i: int|
                0 <= i < connections.len() ==> (#[trigger] connections[i]).innovation_number
                    != innovation_number,
        },
    decreases connections.len(),
{
    if connections.len() > 0 {
        if connections.last().innovation_number == innovation_number {
            assert(connections[connections.len() - 1] == connections.last());
        } else {
            lemma_lookup(connections.drop_last(), innovation_number);
            match lookup(connections, innovation_number) {
                Some(found) => {
                    let i = choose|i: int|
                        0 <= i < connections.drop_last().len() && connections.drop_last()[i]
                            == found;
                    assert(connections[i] == found);
                },
                None => {
                    assert forall|i: int| 0 <= i < connections.len() implies (
                    #[trigger] connections[i]).innovation_number != innovation_number by {
                        if i < connections.len() - 1 {
                            assert(connections.drop_last()[i] == connections[i]);
                        }
                    }
                },
            }
        }
    }
}

/// Crossover is structure-preserving: the child of a consistent primary
/// parent is consistent, whatever the other parent and the decisions are.
/// No connection of the child names a node that the child lacks.
pub proof fn lemma_crossover_wf(primary: GenomeView, secondary: GenomeView, rolls: Seq<Inheritance>)
    requires
        primary.wf(),
    ensures
        crossover(primary, secondary, rolls).wf(),
{
    let child = crossover(primary, secondary, rolls);
    assert forall|i: int| 0 <= i < child.connections.len() implies child.joins_own_nodes(
        #[trigger] child.connections[i],
    ) by {
        assert(primary.joins_own_nodes(primary.connections[i]));
    }
    assert forall|i: int, j: int| 0 <= i < j < child.connections.len() implies (
    #[trigger] child.connections[i]).innovation_number < (
    #[trigger] child.connections[j]).innovation_number by {
        assert(child.connections[i].innovation_number
            == primary.connections[i].innovation_number);
        assert(child.connections[j].innovation_number
            == primary.connections[j].innovation_number);
    }
}

/// The child has the connections of its primary parent, from node to node,
/// and so the same paths: a parent without circles has a child without.
pub proof fn lemma_crossover_keeps_links(
    primary: GenomeView,
    secondary: GenomeView,
    rolls: Seq<Inheritance>,
)
    ensures
        primary.same_links(crossover(primary, secondary, rolls)),
        primary.feed_forward() == crossover(primary, secondary, rolls).feed_forward(),
{
    let child = crossover(primary, secondary, rolls);
    assert(primary.same_links(child));
    crate::genome::topology::lemma_same_links(primary, child);
}

/// A registry that knows the primary parent knows the child: crossover
/// brings no new name into the world.
pub proof fn lemma_crossover_known(
    primary: GenomeView,
    secondary: GenomeView,
    rolls: Seq<Inheritance>,
    registry: GenomeRegistry,
)
    requires
        primary.known_to(registry),
    ensures
        crossover(primary, secondary, rolls).known_to(registry),
{
    let child = crossover(primary, secondary, rolls);
    assert forall|i: int| 0 <= i < child.connections.len() implies (
    #[trigger] child.connections[i]).innovation_number <= registry.innovation_number() by {
        assert(child.connections[i].innovation_number
            == primary.connections[i].innovation_number);
    }
}

/// The child of two founding genomes is a founding genome: every gene finds
/// its match, so the child has the full structure, each weight is that of
/// one of the parents, and all its connections join nodes of its own.
pub proof fn lemma_crossover_of_founders(
    first: Seq<i64>,
    second: Seq<i64>,
    rolls: Seq<Inheritance>,
)
    ensures
        crossover(fully_linked(first), fully_linked(second), rolls).wf(),
        crossover(fully_linked(first), fully_linked(second), rolls) == fully_linked(
            Seq::new(
                fully_linked(first).connections.len(),
                |k: int|
                    if rolls[k].from_secondary {
                        second[k]
                    } else {
                        first[k]
                    },
            ),
        ),
{
    let primary = fully_linked(first);
    let secondary = fully_linked(second);
    let child = crossover(primary, secondary, rolls);
    let weights = Seq::new(
        primary.connections.len(),
        |k: int|
            if rolls[k].from_secondary {
                second[k]
            } else {
                first[k]
            },
    );
    lemma_fully_linked_wf(first);
    lemma_crossover_wf(primary, secondary, rolls);
    assert forall|k: int| 0 <= k < child.connections.len() implies #[trigger] child.connections[k]
        == fully_linked(weights).connections[k] by {
        let innovation = primary.connections[k].innovation_number;
        lemma_lookup(secondary.connections, innovation);
        assert(secondary.connections[k].innovation_number == innovation);
        let found = lookup(secondary.connections, innovation).unwrap();
        let j = choose|j: int|
            0 <= j < secondary.connections.len() && secondary.connections[j] == found;
        assert(j == k);
    }
    assert(child.connections =~= fully_linked(weights).connections);
}

impl Genome {
    /// Finds the connection with the given innovation number.
    pub fn find_connection(&self, innovation_number: usize) -> (found: Option<ConnectionGene>)
        ensures
            found == lookup(self@.connections, innovation_number),
    {
        let mut found: Option<ConnectionGene> = None;
        for i in 0..self.connection_genome.len()
            invariant
                found == lookup(self@.connections.subrange(0, i as int), innovation_number),
        {
            assert(self@.connections.subrange(0, i + 1).drop_last()
                =~= self@.connections.subrange(0, i as int));
            if self.connection_genome[i].innovation_number == innovation_number {
                found = Some(self.connection_genome[i]);
            }
        }
        assert(self@.connections.subrange(0, self@.connections.len() as int)
            =~= self@.connections);
        found
    }

    /// The child of this genome, as the primary parent, and `other`, with
    /// the decisions in `rolls` taken gene by gene. The same parents and
    /// the same decisions always give the same child.
    pub fn crossover_with(&self, other: &Genome, rolls: &Vec<Inheritance>) -> (child: Genome)
        requires
            rolls.len() == self@.connections.len(),
        ensures
            child@ == crossover(self@, other@, rolls@),
            self@.wf() ==> child@.wf(),
            self@.feed_forward() ==> child@.feed_forward(),
    {
        proof {
            if self@.wf() {
                lemma_crossover_wf(self@, other@, rolls@);
            }
            lemma_crossover_keeps_links(self@, other@, rolls@);
        }
        let mut child = Genome { node_genome: Vec::new(), connection_genome: Vec::new() };
        for i in 0..self.node_genome.len()
            invariant
                child@.nodes == self@.nodes.subrange(0, i as int),
                child@.connections.len() == 0,
        {
            child.node_genome.push(self.node_genome[i]);
        }
        for i in 0..self.connection_genome.len()
            invariant
                rolls.len() == self@.connections.len(),
                child@.nodes == self@.nodes,
                child@.connections.len() == i,
                forall|k: int|
                    0 <= k < i ==> #[trigger] child@.connections[k] == inherit(
                        self@.connections[k],
                        lookup(other@.connections, self@.connections[k].innovation_number),
                        rolls@[k],
                    ),
        {
            let own = self.connection_genome[i];
            let gene = match other.find_connection(own.innovation_number) {
                None => own,
                Some(theirs) => ConnectionGene {
                    from: own.from,
                    to: own.to,
                    weight: if rolls[i].from_secondary {
                        theirs.weight
                    } else {
                        own.weight
                    },
                    enabled: (own.enabled && theirs.enabled) || !rolls[i].disable,
                    innovation_number: own.innovation_number,
                },
            };
            child.connection_genome.push(gene);
        }
        assert(child@.connections =~= crossover(self@, other@, rolls@).connections);
        child
    }

    /// The child of this genome, as the primary parent, and `other`. For a
    /// gene of both parents a coin decides whose weight the child gets, and
    /// a gene that is disabled in a parent is disabled in the child in three
    /// cases of four.
    pub fn crossover(&self, other: &Genome) -> (child: Genome)
        ensures
            exists|rolls: Seq<Inheritance>|
                rolls.len() == self@.connections.len() && child@ == #[trigger] crossover(
                    self@,
                    other@,
                    rolls,
                ),
            self@.wf() ==> child@.wf(),
            self@.feed_forward() ==> child@.feed_forward(),
    {
        let mut rolls: Vec<Inheritance> = Vec::new();
        for i in 0..self.connection_genome.len()
            invariant
                rolls.len() == i,
        {
            let from_secondary = random_between(0, 2) == 1;
            let disable = random_between(0, 4) != 0;
            rolls.push(Inheritance { from_secondary, disable });
        }
        let child = self.crossover_with(other, &rolls);
        proof {
            if self@.wf() {
                lemma_crossover_wf(self@, other@, rolls@);
            }
        }
        child
    }
}

} // verus!
