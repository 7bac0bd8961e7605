//! Paths through a genome: which node a signal can reach from which.

use crate::genome::gene::{ConnectionGene, Id};
use crate::genome::{Genome, GenomeView};
use vstd::prelude::*;

verus! {

impl GenomeView {
    /// Whether a connection leads from `from` to `to`, enabled or not.
    pub open spec fn has_link(self, from: Id, to: Id) -> bool {
        exists|i: int|
            0 <= i < self.connections.len() && (#[trigger] self.connections[i]).from == from
                && self.connections[i].to == to
    }

    /// Whether the nodes form a path: from each of them a connection leads
    /// to the next.
    pub open spec fn is_path(self, path: Seq<Id>) -> bool {
        &&& path.len() > 0
        &&& forall|i: int|
            0 <= i < path.len() - 1 ==> self.has_link(#[trigger] path[i], path[i + 1])
    }

    /// Whether a path leads from `from` to `to`. Every node reaches itself.
    pub open spec fn reaches(self, from: Id, to: Id) -> bool {
        exists|path: Seq<Id>| #[trigger] self.is_path(path) && path[0] == from && path.last() == to
    }

    /// Whether the connections close no circle: no connection leads to a
    /// node from which a path leads back to where the connection starts.
    pub open spec fn feed_forward(self) -> bool {
        forall|from: Id, to: Id| #[trigger] self.has_link(from, to) ==> !self.reaches(to, from)
    }

    /// Whether two genomes have the same connections, whatever their
    /// weights, numbers and switches are.
    pub open spec fn same_links(self, other: GenomeView) -> bool {
        &&& self.connections.len() == other.connections.len()
        &&& forall|i: int|
            0 <= i < self.connections.len() ==> (#[trigger] self.connections[i]).from
                == other.connections[i].from && self.connections[i].to == other.connections[i].to
    }
}

/// Every node reaches itself.
pub proof fn lemma_reaches_itself(genome: GenomeView, node: Id)
    ensures
        genome.reaches(node, node),
{
    let path = seq![node];
    assert(genome.is_path(path) && path[0] == node && path.last() == node);
}

/// What reaches the start of a connection reaches its end.
pub proof fn lemma_reaches_along(genome: GenomeView, start: Id, from: Id, to: Id)
    requires
        genome.reaches(start, from),
        genome.has_link(from, to),
    ensures
        genome.reaches(start, to),
{
    let place = choose|i: int|
        0 <= i < genome.connections.len() && (#[trigger] genome.connections[i]).from == from
            && genome.connections[i].to == to;
    lemma_continue(genome, start, place);
}

/// What reaches the start of a path reaches every node on it.
pub proof fn lemma_reaches_along_path(genome: GenomeView, start: Id, path: Seq<Id>, k: int)
    requires
        genome.is_path(path),
        genome.reaches(start, path[0]),
        0 <= k < path.len(),
    ensures
        genome.reaches(start, path[k]),
    decreases k,
{
    if k > 0 {
        lemma_reaches_along_path(genome, start, path, k - 1);
        assert(genome.has_link(path[k - 1], path[k - 1 + 1]));
        lemma_reaches_along(genome, start, path[k - 1], path[k]);
    }
}

/// Paths can be joined: what reaches a node reaches what that node reaches.
pub proof fn lemma_reaches_transitive(genome: GenomeView, first: Id, second: Id, third: Id)
    requires
        genome.reaches(first, second),
        genome.reaches(second, third),
    ensures
        genome.reaches(first, third),
{
    let path = choose|path: Seq<Id>|
        #[trigger] genome.is_path(path) && path[0] == second && path.last() == third;
    lemma_reaches_along_path(genome, first, path, path.len() - 1);
}

/// Genomes with the same connections have the same paths.
pub proof fn lemma_same_links(one: GenomeView, other: GenomeView)
    requires
        one.same_links(other),
    ensures
        forall|from: Id, to: Id| one.has_link(from, to) == other.has_link(from, to),
        forall|path: Seq<Id>| one.is_path(path) == other.is_path(path),
        forall|from: Id, to: Id| one.reaches(from, to) == other.reaches(from, to),
        one.feed_forward() == other.feed_forward(),
{
    assert forall|from: Id, to: Id| one.has_link(from, to) == other.has_link(from, to) by {
        if one.has_link(from, to) {
            let i = choose|i: int|
                0 <= i < one.connections.len() && (#[trigger] one.connections[i]).from == from
                    && one.connections[i].to == to;
            assert(other.connections[i].from == from);
        }
        if other.has_link(from, to) {
            let i = choose|i: int|
                0 <= i < other.connections.len() && (#[trigger] other.connections[i]).from == from
                    && other.connections[i].to == to;
            assert(one.connections[i].from == from);
        }
    }
    assert forall|path: Seq<Id>| one.is_path(path) == other.is_path(path) by {
        if one.is_path(path) {
            assert forall|i: int| 0 <= i < path.len() - 1 implies other.has_link(
                #[trigger] path[i],
                path[i + 1],
            ) by {
                assert(one.has_link(path[i], path[i + 1]));
            }
        }
        if other.is_path(path) {
            assert forall|i: int| 0 <= i < path.len() - 1 implies one.has_link(
                #[trigger] path[i],
                path[i + 1],
            ) by {
                assert(other.has_link(path[i], path[i + 1]));
            }
        }
    }
    assert forall|from: Id, to: Id| one.reaches(from, to) == other.reaches(from, to) by {
        if one.reaches(from, to) {
            let path = choose|path: Seq<Id>|
                #[trigger] one.is_path(path) && path[0] == from && path.last() == to;
            assert(other.is_path(path));
        }
        if other.reaches(from, to) {
            let path = choose|path: Seq<Id>|
                #[trigger] other.is_path(path) && path[0] == from && path.last() == to;
            assert(one.is_path(path));
        }
    }
}

/// The connections of a genome with one more connection are those that it
/// had and the new one.
pub proof fn lemma_links_with(genome: GenomeView, connection: ConnectionGene, from: Id, to: Id)
    ensures
        genome.with_connection(connection).has_link(from, to) <==> genome.has_link(from, to) || (
        from == connection.from && to == connection.to),
{
    let more = genome.with_connection(connection);
    if more.has_link(from, to) {
        let i = choose|i: int|
            0 <= i < more.connections.len() && (#[trigger] more.connections[i]).from == from
                && more.connections[i].to == to;
        if i < genome.connections.len() {
            assert(genome.connections[i].from == from);
        }
    }
    if genome.has_link(from, to) {
        let i = choose|i: int|
            0 <= i < genome.connections.len() && (#[trigger] genome.connections[i]).from == from
                && genome.connections[i].to == to;
        assert(more.connections[i].from == from);
    }
    if from == connection.from && to == connection.to {
        assert(more.connections[genome.connections.len() as int].from == from);
    }
}

/// A path through a genome with one more connection either is a path of the
/// genome as it was, or takes a detour over the new connection: then the
/// old genome led to the start of the new connection, and from its end on.
pub proof fn lemma_detour(genome: GenomeView, connection: ConnectionGene, path: Seq<Id>, k: int)
    requires
        genome.with_connection(connection).is_path(path),
        0 <= k < path.len(),
    ensures
        genome.reaches(path[0], path[k]) || (genome.reaches(path[0], connection.from)
            && genome.reaches(connection.to, path[k])),
    decreases k,
{
    if k == 0 {
        lemma_reaches_itself(genome, path[0]);
    } else {
        lemma_detour(genome, connection, path, k - 1);
        assert(genome.with_connection(connection).has_link(path[k - 1], path[k - 1 + 1]));
        lemma_links_with(genome, connection, path[k - 1], path[k]);
        if genome.has_link(path[k - 1], path[k]) {
            if genome.reaches(path[0], path[k - 1]) {
                lemma_reaches_along(genome, path[0], path[k - 1], path[k]);
            } else {
                lemma_reaches_along(genome, connection.to, path[k - 1], path[k]);
            }
        } else {
            lemma_reaches_itself(genome, connection.to);
            if !genome.reaches(path[0], path[k - 1]) {
                assert(genome.reaches(path[0], connection.from));
            }
        }
    }
}

/// A new connection closes no circle if no path leads from its end back to
/// its start: a genome without circles stays without.
pub proof fn lemma_link_keeps_feed_forward(genome: GenomeView, connection: ConnectionGene)
    requires
        genome.feed_forward(),
        !genome.reaches(connection.to, connection.from),
    ensures
        genome.with_connection(connection).feed_forward(),
{
    let more = genome.with_connection(connection);
    assert forall|from: Id, to: Id| #[trigger] more.has_link(from, to) implies !more.reaches(
        to,
        from,
    ) by {
        if more.reaches(to, from) {
            let path = choose|path: Seq<Id>|
                #[trigger] more.is_path(path) && path[0] == to && path.last() == from;
            lemma_detour(genome, connection, path, path.len() - 1);
            lemma_links_with(genome, connection, from, to);
            if genome.has_link(from, to) {
                if !genome.reaches(to, from) {
                    // The path takes the new connection: from the end of
                    // that, the old genome leads on to `from`, over to `to`,
                    // and back to the start of the new connection.
                    lemma_reaches_along(genome, connection.to, from, to);
                    lemma_reaches_transitive(genome, connection.to, to, connection.from);
                }
            }
        }
    }
}

/// A path that leads on from a node leaves it by a connection.
pub proof fn lemma_path_leaves(genome: GenomeView, from: Id, to: Id)
    requires
        genome.reaches(from, to),
        from != to,
    ensures
        exists|i: int|
            0 <= i < genome.connections.len() && (#[trigger] genome.connections[i]).from == from,
        exists|i: int|
            0 <= i < genome.connections.len() && (#[trigger] genome.connections[i]).to == to,
{
    let path = choose|path: Seq<Id>|
        #[trigger] genome.is_path(path) && path[0] == from && path.last() == to;
    assert(genome.has_link(path[0], path[0int + 1]));
    let last = path.len() - 2;
    assert(genome.has_link(path[last], path[last + 1]));
}

/// Whether `node` is the start or the end of a connection that has fired.
pub open spec fn marked(
    connections: Seq<ConnectionGene>,
    fired: Seq<bool>,
    start: Id,
    node: Id,
) -> bool {
    node == start || exists|j: int|
        0 <= j < connections.len() && fired[j] && (#[trigger] connections[j]).to == node
}

/// How many connections have not fired.
pub open spec fn unfired(fired: Seq<bool>) -> nat
    decreases fired.len(),
{
    if fired.len() == 0 {
        0
    } else {
        unfired(fired.drop_last()) + if fired.last() {
            0nat
        } else {
            1nat
        }
    }
}

/// A connection that fires leaves one less that has not.
proof fn lemma_fire(fired: Seq<bool>, i: int)
    requires
        0 <= i < fired.len(),
        !fired[i],
    ensures
        unfired(fired.update(i, true)) + 1 == unfired(fired),
    decreases fired.len(),
{
    let after = fired.update(i, true);
    if i == fired.len() - 1 {
        assert(after.drop_last() =~= fired.drop_last());
    } else {
        assert(after.drop_last() =~= fired.drop_last().update(i, true));
        lemma_fire(fired.drop_last(), i);
    }
}

/// A path that is continued along a connection is a path.
proof fn lemma_continue(genome: GenomeView, start: Id, place: int)
    requires
        0 <= place < genome.connections.len(),
        genome.reaches(start, genome.connections[place].from),
    ensures
        genome.reaches(start, genome.connections[place].to),
{
    let path = choose|path: Seq<Id>|
        #[trigger] genome.is_path(path) && path[0] == start && path.last()
            == genome.connections[place].from;
    let longer = path.push(genome.connections[place].to);
    assert forall|i: int| 0 <= i < longer.len() - 1 implies genome.has_link(
        #[trigger] longer[i],
        longer[i + 1],
    ) by {
        if i < path.len() - 1 {
            assert(genome.has_link(path[i], path[i + 1]));
        } else {
            assert(genome.connections[place].from == longer[i]);
        }
    }
    assert(genome.is_path(longer) && longer[0] == start && longer.last()
        == genome.connections[place].to);
}

/// Every marked node is reached from the start, if every connection that
/// has fired starts at a node that is reached.
proof fn lemma_marked_is_reached(genome: GenomeView, fired: Seq<bool>, start: Id, node: Id)
    requires
        forall|j: int|
            0 <= j < genome.connections.len() && fired[j] ==> genome.reaches(
                start,
                (#[trigger] genome.connections[j]).from,
            ),
        marked(genome.connections, fired, start, node),
    ensures
        genome.reaches(start, node),
{
    if node == start {
        let path = seq![start];
        assert(genome.is_path(path) && path[0] == start && path.last() == node);
    } else {
        let j = choose|j: int|
            0 <= j < genome.connections.len() && fired[j] && (#[trigger] genome.connections[j]).to
                == node;
        lemma_continue(genome, start, j);
    }
}

/// Where every connection out of a marked node has fired, every node on a
/// path from the start is marked.
proof fn lemma_path_is_marked(
    genome: GenomeView,
    fired: Seq<bool>,
    start: Id,
    path: Seq<Id>,
    k: int,
)
    requires
        forall|i: int|
            0 <= i < genome.connections.len() && marked(
                genome.connections,
                fired,
                start,
                (#[trigger] genome.connections[i]).from,
            ) ==> fired[i],
        genome.is_path(path),
        path[0] == start,
        0 <= k < path.len(),
    ensures
        marked(genome.connections, fired, start, path[k]),
    decreases k,
{
    if k > 0 {
        lemma_path_is_marked(genome, fired, start, path, k - 1);
        assert(genome.has_link(path[k - 1], path[k - 1 + 1]));
        let i = choose|i: int|
            0 <= i < genome.connections.len() && (#[trigger] genome.connections[i]).from == path[k
                - 1] && genome.connections[i].to == path[k];
        assert(fired[i]);
    }
}

/// Splitting a connection by a node that is new to the genome closes no
/// circle: a genome without circles stays without.
pub proof fn lemma_split_keeps_feed_forward(
    genome: GenomeView,
    place: int,
    node_id: Id,
    innovation: usize,
)
    requires
        genome.feed_forward(),
        0 <= place < genome.connections.len(),
        forall|i: int|
            0 <= i < genome.connections.len() ==> (#[trigger] genome.connections[i]).from
                != node_id && genome.connections[i].to != node_id,
    ensures
        genome.split(place, node_id, innovation).feed_forward(),
{
    let split = genome.connections[place];
    let after = genome.split(place, node_id, innovation);
    let into = after.connections[genome.connections.len() as int];
    let out_of = after.connections[genome.connections.len() as int + 1];
    let switched = GenomeView {
        nodes: after.nodes,
        connections: genome.connections.update(place, ConnectionGene { enabled: false, ..split }),
    };
    assert(genome.same_links(switched));
    lemma_same_links(genome, switched);
    assert(switched.has_link(split.from, split.to)) by {
        assert(switched.connections[place].from == split.from);
    }

    // No path leads from the new node anywhere.
    if switched.reaches(node_id, split.from) {
        lemma_path_leaves(switched, node_id, split.from);
        let i = choose|i: int|
            0 <= i < switched.connections.len() && (#[trigger] switched.connections[i]).from
                == node_id;
        assert(genome.connections[i].from == node_id);
    }
    lemma_link_keeps_feed_forward(switched, into);

    // And the only path to the new node is the connection into it.
    let halfway = switched.with_connection(into);
    if halfway.reaches(split.to, node_id) {
        let path = choose|path: Seq<Id>|
            #[trigger] halfway.is_path(path) && path[0] == split.to && path.last() == node_id;
        lemma_detour(switched, into, path, path.len() - 1);
        if switched.reaches(split.to, node_id) {
            lemma_path_leaves(switched, split.to, node_id);
            let i = choose|i: int|
                0 <= i < switched.connections.len() && (#[trigger] switched.connections[i]).to
                    == node_id;
            assert(genome.connections[i].to == node_id);
        }
    }
    lemma_link_keeps_feed_forward(halfway, out_of);
    assert(halfway.with_connection(out_of).connections =~= after.connections);
    assert(halfway.with_connection(out_of) == after);
}

impl Genome {
    /// Says whether a connection leads from `from` to `to`.
    pub fn has_link(&self, from: Id, to: Id) -> (found: bool)
        ensures
            found == self@.has_link(from, to),
    {
        let mut found = false;
        for i in 0..self.connection_genome.len()
            invariant
                found == (exists|k: int|
                    0 <= k < i && (#[trigger] self@.connections[k]).from == from
                        && self@.connections[k].to == to),
        {
            if self.connection_genome[i].from == from && self.connection_genome[i].to == to {
                found = true;
                assert(self@.connections[i as int].from == from);
            }
        }
        found
    }

    /// Says whether `node` is the start or the end of a connection that has
    /// fired.
    fn is_marked(&self, fired: &Vec<bool>, start: Id, node: Id) -> (found: bool)
        requires
            fired.len() == self@.connections.len(),
        ensures
            found == marked(self@.connections, fired@, start, node),
    {
        if node == start {
            return true;
        }
        let mut found = false;
        for j in 0..self.connection_genome.len()
            invariant
                fired.len() == self@.connections.len(),
                found == (exists|k: int|
                    0 <= k < j && fired@[k] && (#[trigger] self@.connections[k]).to == node),
        {
            if fired[j] && self.connection_genome[j].to == node {
                found = true;
            }
        }
        found
    }

    /// Says whether a path leads from `from` to `to`. The connections fire
    /// in rounds, each one as soon as its start is reached, until a round
    /// passes in which none fires.
    pub fn reaches(&self, from: Id, to: Id) -> (found: bool)
        ensures
            found == self@.reaches(from, to),
    {
        let count = self.connection_genome.len();
        let mut fired: Vec<bool> = Vec::with_capacity(count);
        for i in 0..count
            invariant
                fired.len() == i,
                forall|j: int| 0 <= j < i ==> !fired@[j],
        {
            fired.push(false);
        }

        let mut changed = true;
        while changed
            invariant
                count == self@.connections.len(),
                fired.len() == count,
                forall|j: int|
                    0 <= j < count && fired@[j] ==> self@.reaches(
                        from,
                        (#[trigger] self@.connections[j]).from,
                    ),
                !changed ==> forall|i: int|
                    0 <= i < count && marked(
                        self@.connections,
                        fired@,
                        from,
                        (#[trigger] self@.connections[i]).from,
                    ) ==> fired@[i],
            decreases
                    unfired(fired@) + if changed {
                        1nat
                    } else {
                        0nat
                    },
        {
            let ghost at_start = fired@;
            changed = false;
            for i in 0..count
                invariant
                    count == self@.connections.len(),
                    fired.len() == count,
                    forall|j: int|
                        0 <= j < count && fired@[j] ==> self@.reaches(
                            from,
                            (#[trigger] self@.connections[j]).from,
                        ),
                    changed ==> unfired(fired@) < unfired(at_start),
                    !changed ==> fired@ == at_start,
                    !changed ==> forall|k: int|
                        0 <= k < i && marked(
                            self@.connections,
                            fired@,
                            from,
                            (#[trigger] self@.connections[k]).from,
                        ) ==> fired@[k],
            {
                if !fired[i] && self.is_marked(&fired, from, self.connection_genome[i].from) {
                    proof {
                        lemma_marked_is_reached(
                            self@,
                            fired@,
                            from,
                            self@.connections[i as int].from,
                        );
                        lemma_fire(fired@, i as int);
                    }
                    fired[i] = true;
                    changed = true;
                }
            }
        }

        let found = self.is_marked(&fired, from, to);
        proof {
            if found {
                lemma_marked_is_reached(self@, fired@, from, to);
            }
            if self@.reaches(from, to) {
                let path = choose|path: Seq<Id>|
                    #[trigger] self@.is_path(path) && path[0] == from && path.last() == to;
                lemma_path_is_marked(self@, fired@, from, path, path.len() - 1);
            }
        }
        found
    }

    /// Says whether the connections close no circle.
    pub fn is_feed_forward(&self) -> (free: bool)
        ensures
            free == self@.feed_forward(),
    {
        for i in 0..self.connection_genome.len()
            invariant
                forall|k: int|
                    0 <= k < i ==> !self@.reaches(
                        (#[trigger] self@.connections[k]).to,
                        self@.connections[k].from,
                    ),
        {
            let connection = self.connection_genome[i];
            if self.reaches(connection.to, connection.from) {
                assert(self@.has_link(connection.from, connection.to)) by {
                    assert(self@.connections[i as int].from == connection.from);
                }
                return false;
            }
        }
        assert forall|from: Id, to: Id| #[trigger] self@.has_link(from, to) implies !self@.reaches(
            to,
            from,
        ) by {
            let k = choose|k: int|
                0 <= k < self@.connections.len() && (#[trigger] self@.connections[k]).from == from
                    && self@.connections[k].to == to;
            assert(!self@.reaches(self@.connections[k].to, self@.connections[k].from));
        }
        true
    }
}

} // verus!
