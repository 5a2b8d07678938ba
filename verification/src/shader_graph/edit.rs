//! Building and editing graphs: the default graph, node lookup, connecting
//! and removing, and the size limit on stored documents.
use vstd::prelude::*;
use vstd::string::*;
use crate::scalar::Scalar;
use super::pins::{NodeKind, TextureSlot};
use super::graph::{Node, ShaderGraph, Socket, Wire};
use super::error::GraphError;
use super::validate::{
    node_index, graph_verdict, verdict, lemma_node_index, find_node, node_fault, first_node_fault, wire_fault,
    first_wire_fault, master_count, graph_edges, acyclic, wire_ok, lemma_valid_graph_shape,
};
use super::graph::{inputs_ok, position_ok};
use super::topo::has_ranking;

verus! {

/// The wires that do not feed input `to`, in order.
pub open spec fn wires_not_into(wires: Seq<Wire>, to: Socket) -> Seq<Wire>
    decreases wires.len(),
{
    if wires.len() == 0 {
        wires
    } else {
        let rest = wires_not_into(wires.drop_last(), to);
        if wires.last().to != to { rest.push(wires.last()) } else { rest }
    }
}

/// The wires after connecting `wire`: it replaces any wire into the same input.
pub open spec fn rewired(wires: Seq<Wire>, wire: Wire) -> Seq<Wire> {
    wires_not_into(wires, wire.to).push(wire)
}

/// The nodes other than those with `id`, in order.
pub open spec fn nodes_without(nodes: Seq<Node>, id: u32) -> Seq<Node>
    decreases nodes.len(),
{
    if nodes.len() == 0 {
        nodes
    } else {
        let rest = nodes_without(nodes.drop_last(), id);
        if nodes.last().id != id { rest.push(nodes.last()) } else { rest }
    }
}

/// The wires that touch no node with `id`, in order.
pub open spec fn wires_without(wires: Seq<Wire>, id: u32) -> Seq<Wire>
    decreases wires.len(),
{
    if wires.len() == 0 {
        wires
    } else {
        let rest = wires_without(wires.drop_last(), id);
        let w = wires.last();
        if w.from.node != id && w.to.node != id { rest.push(w) } else { rest }
    }
}

proof fn lemma_wires_not_into(wires: Seq<Wire>, to: Socket)
    ensures
        forall|i: int| 0 <= i < wires_not_into(wires, to).len() ==> (#[trigger] wires_not_into(wires, to)[i]).to != to,
    decreases wires.len(),
{
    if wires.len() > 0 {
        let rest = wires_not_into(wires.drop_last(), to);
        lemma_wires_not_into(wires.drop_last(), to);
        let r = wires_not_into(wires, to);
        assert forall|i: int| 0 <= i < r.len() implies (#[trigger] r[i]).to != to by {
            if i < rest.len() {
                assert(r[i] == rest[i]);
            }
        }
    }
}

/// After a connection the new wire is the only one into its input.
pub proof fn lemma_rewired_feeds_once(wires: Seq<Wire>, wire: Wire)
    ensures
        rewired(wires, wire).contains(wire),
        forall|i: int| 0 <= i < rewired(wires, wire).len() && (#[trigger] rewired(wires, wire)[i]).to == wire.to
            ==> rewired(wires, wire)[i] == wire,
{
    lemma_wires_not_into(wires, wire.to);
    let r = rewired(wires, wire);
    assert(r[r.len() - 1] == wire);
}

proof fn lemma_nodes_without(nodes: Seq<Node>, id: u32)
    ensures
        forall|i: int| 0 <= i < nodes_without(nodes, id).len() ==> (#[trigger] nodes_without(nodes, id)[i]).id != id,
    decreases nodes.len(),
{
    if nodes.len() > 0 {
        lemma_nodes_without(nodes.drop_last(), id);
    }
}

proof fn lemma_wires_without(wires: Seq<Wire>, id: u32)
    ensures
        forall|i: int| 0 <= i < wires_without(wires, id).len() ==> (#[trigger] wires_without(wires, id)[i]).from.node != id
            && wires_without(wires, id)[i].to.node != id,
    decreases wires.len(),
{
    if wires.len() > 0 {
        let rest = wires_without(wires.drop_last(), id);
        lemma_wires_without(wires.drop_last(), id);
        let r = wires_without(wires, id);
        assert forall|i: int| 0 <= i < r.len() implies (#[trigger] r[i]).from.node != id && r[i].to.node != id by {
            if i < rest.len() {
                assert(r[i] == rest[i]);
            }
        }
    }
}

/// Connecting `wire` keeps every wire that feeds another input socket (a
/// different node or a different port), in its old order, drops exactly the
/// wires into the same socket, and adds `wire` last.
pub proof fn lemma_rewired_replaces_only_same_socket(wires: Seq<Wire>, wire: Wire)
    ensures
        rewired(wires, wire) == wires.filter(|x: Wire| x.to != wire.to).push(wire),
{
    lemma_wires_not_into_filter(wires, wire.to);
}

proof fn lemma_wires_not_into_filter(wires: Seq<Wire>, to: Socket)
    ensures
        wires_not_into(wires, to) == wires.filter(|x: Wire| x.to != to),
    decreases wires.len(),
{
    reveal(Seq::filter);
    if wires.len() > 0 {
        lemma_wires_not_into_filter(wires.drop_last(), to);
    }
}

/// Removing `id` keeps exactly the nodes with other IDs, in their order.
pub proof fn lemma_nodes_without_keeps_others(nodes: Seq<Node>, id: u32)
    ensures
        nodes_without(nodes, id) == nodes.filter(|n: Node| n.id != id),
    decreases nodes.len(),
{
    reveal(Seq::filter);
    if nodes.len() > 0 {
        lemma_nodes_without_keeps_others(nodes.drop_last(), id);
    }
}

/// Removing `id` keeps exactly the wires that touch neither end at `id`, in
/// their order.
pub proof fn lemma_wires_without_keeps_others(wires: Seq<Wire>, id: u32)
    ensures
        wires_without(wires, id) == wires.filter(|w: Wire| w.from.node != id && w.to.node != id),
    decreases wires.len(),
{
    reveal(Seq::filter);
    if wires.len() > 0 {
        lemma_wires_without_keeps_others(wires.drop_last(), id);
    }
}

/// The nodes left after removing `id` are nodes of the graph; every node
/// without that ID stays; distinct IDs stay distinct.
proof fn lemma_nodes_without_shape(nodes: Seq<Node>, id: u32)
    ensures
        nodes_without(nodes, id).len() <= nodes.len(),
        forall|i: int| #![trigger nodes_without(nodes, id)[i]] 0 <= i < nodes_without(nodes, id).len()
            ==> exists|k: int| 0 <= k < nodes.len() && #[trigger] nodes[k] == nodes_without(nodes, id)[i],
        forall|k: int| #![trigger nodes[k]] 0 <= k < nodes.len() && nodes[k].id != id
            ==> exists|i: int| 0 <= i < nodes_without(nodes, id).len() && #[trigger] nodes_without(nodes, id)[i] == nodes[k],
        (forall|a: int, b: int| 0 <= a < b < nodes.len() ==> (#[trigger] nodes[a]).id != (#[trigger] nodes[b]).id)
            ==> forall|a: int, b: int| 0 <= a < b < nodes_without(nodes, id).len()
                ==> (#[trigger] nodes_without(nodes, id)[a]).id != (#[trigger] nodes_without(nodes, id)[b]).id,
    decreases nodes.len(),
{
    if nodes.len() > 0 {
        let p = nodes.drop_last();
        let rest = nodes_without(p, id);
        let x = nodes.last();
        let r = nodes_without(nodes, id);
        lemma_nodes_without_shape(p, id);
        assert forall|i: int| #![trigger r[i]] 0 <= i < r.len() implies exists|k: int| 0 <= k < nodes.len() && #[trigger] nodes[k] == r[i] by {
            if i < rest.len() {
                assert(r[i] == rest[i]);
                let k = choose|k: int| 0 <= k < p.len() && #[trigger] p[k] == rest[i];
                assert(nodes[k] == p[k]);
            } else {
                assert(nodes[nodes.len() - 1] == r[i]);
            }
        }
        assert forall|k: int| #![trigger nodes[k]] 0 <= k < nodes.len() && nodes[k].id != id implies
            exists|i: int| 0 <= i < r.len() && #[trigger] r[i] == nodes[k] by {
            if k < nodes.len() - 1 {
                assert(p[k] == nodes[k]);
                let i = choose|i: int| 0 <= i < rest.len() && #[trigger] rest[i] == p[k];
                assert(r[i] == rest[i]);
            } else {
                assert(r[rest.len() as int] == x);
            }
        }
        if forall|a: int, b: int| 0 <= a < b < nodes.len() ==> (#[trigger] nodes[a]).id != (#[trigger] nodes[b]).id {
            assert forall|a: int, b: int| 0 <= a < b < p.len() implies (#[trigger] p[a]).id != (#[trigger] p[b]).id by {
                assert(p[a] == nodes[a] && p[b] == nodes[b]);
            }
            assert forall|a: int, b: int| 0 <= a < b < r.len() implies (#[trigger] r[a]).id != (#[trigger] r[b]).id by {
                assert(r[a] == rest[a]);
                if b < rest.len() {
                    assert(r[b] == rest[b]);
                } else {
                    let k = choose|k: int| 0 <= k < p.len() && #[trigger] p[k] == rest[a];
                    assert(nodes[k] == p[k]);
                    assert(r[b] == nodes[nodes.len() - 1]);
                }
            }
        }
    }
}

proof fn lemma_master_count_same(a: Seq<Node>, b: Seq<Node>, k: int)
    requires
        0 <= k <= a.len(),
        k <= b.len(),
        forall|i: int| 0 <= i < k ==> a[i] == b[i],
    ensures
        master_count(a, k) == master_count(b, k),
    decreases k,
{
    if k > 0 {
        lemma_master_count_same(a, b, k - 1);
    }
}

/// Removing nodes that are not Master nodes keeps the number of Master nodes.
proof fn lemma_nodes_without_masters(nodes: Seq<Node>, id: u32)
    requires
        forall|i: int| 0 <= i < nodes.len() && (#[trigger] nodes[i]).id == id ==> nodes[i].kind != NodeKind::Master,
    ensures
        master_count(nodes_without(nodes, id), nodes_without(nodes, id).len() as int) == master_count(nodes, nodes.len() as int),
    decreases nodes.len(),
{
    if nodes.len() > 0 {
        let p = nodes.drop_last();
        let rest = nodes_without(p, id);
        let r = nodes_without(nodes, id);
        assert forall|i: int| 0 <= i < p.len() && (#[trigger] p[i]).id == id implies p[i].kind != NodeKind::Master by {
            assert(p[i] == nodes[i]);
        }
        lemma_nodes_without_masters(p, id);
        lemma_master_count_same(nodes, p, p.len() as int);
        assert(nodes[nodes.len() - 1] == nodes.last());
        if nodes.last().id != id {
            lemma_master_count_same(r, rest, rest.len() as int);
        }
    }
}

/// The wires left after removing `id` are wires of the graph, and inputs fed
/// once stay fed once.
proof fn lemma_wires_without_shape(wires: Seq<Wire>, id: u32)
    ensures
        wires_without(wires, id).len() <= wires.len(),
        forall|i: int| #![trigger wires_without(wires, id)[i]] 0 <= i < wires_without(wires, id).len()
            ==> exists|k: int| 0 <= k < wires.len() && #[trigger] wires[k] == wires_without(wires, id)[i],
        (forall|a: int, b: int| 0 <= a < b < wires.len() ==> (#[trigger] wires[a]).to != (#[trigger] wires[b]).to)
            ==> forall|a: int, b: int| 0 <= a < b < wires_without(wires, id).len()
                ==> (#[trigger] wires_without(wires, id)[a]).to != (#[trigger] wires_without(wires, id)[b]).to,
    decreases wires.len(),
{
    if wires.len() > 0 {
        let p = wires.drop_last();
        let rest = wires_without(p, id);
        let r = wires_without(wires, id);
        lemma_wires_without_shape(p, id);
        assert forall|i: int| #![trigger r[i]] 0 <= i < r.len() implies exists|k: int| 0 <= k < wires.len() && #[trigger] wires[k] == r[i] by {
            if i < rest.len() {
                assert(r[i] == rest[i]);
                let k = choose|k: int| 0 <= k < p.len() && #[trigger] p[k] == rest[i];
                assert(wires[k] == p[k]);
            } else {
                assert(wires[wires.len() - 1] == r[i]);
            }
        }
        if forall|a: int, b: int| 0 <= a < b < wires.len() ==> (#[trigger] wires[a]).to != (#[trigger] wires[b]).to {
            assert forall|a: int, b: int| 0 <= a < b < p.len() implies (#[trigger] p[a]).to != (#[trigger] p[b]).to by {
                assert(p[a] == wires[a] && p[b] == wires[b]);
            }
            assert forall|a: int, b: int| 0 <= a < b < r.len() implies (#[trigger] r[a]).to != (#[trigger] r[b]).to by {
                assert(r[a] == rest[a]);
                if b < rest.len() {
                    assert(r[b] == rest[b]);
                } else {
                    let k = choose|k: int| 0 <= k < p.len() && #[trigger] p[k] == rest[a];
                    assert(wires[k] == p[k]);
                    assert(r[b] == wires[wires.len() - 1]);
                }
            }
        }
    }
}

proof fn lemma_no_node_fault(nodes: Seq<Node>, k: int)
    requires
        k <= nodes.len(),
        forall|i: int| 0 <= i < k ==> #[trigger] node_fault(nodes, i) is None,
    ensures
        first_node_fault(nodes, k) is None,
    decreases k,
{
    if k > 0 {
        lemma_no_node_fault(nodes, k - 1);
    }
}

proof fn lemma_no_wire_fault(nodes: Seq<Node>, wires: Seq<Wire>, k: int)
    requires
        k <= wires.len(),
        forall|i: int| 0 <= i < k ==> #[trigger] wire_fault(nodes, wires, i) is None,
    ensures
        first_wire_fault(nodes, wires, k) is None,
    decreases k,
{
    if k > 0 {
        lemma_no_wire_fault(nodes, wires, k - 1);
    }
}

/// A node of another ID that the graph has is found after the removal, and
/// it is the same node.
proof fn lemma_index_kept(nodes: Seq<Node>, id: u32, x: u32)
    requires
        forall|a: int, b: int| 0 <= a < b < nodes.len() ==> (#[trigger] nodes[a]).id != (#[trigger] nodes[b]).id,
        x != id,
        node_index(nodes, x) >= 0,
    ensures
        0 <= node_index(nodes_without(nodes, id), x) < nodes_without(nodes, id).len(),
        nodes_without(nodes, id)[node_index(nodes_without(nodes, id), x)] == nodes[node_index(nodes, x)],
{
    let r = nodes_without(nodes, id);
    let ni = node_index(nodes, x);
    lemma_node_index(nodes, x);
    lemma_nodes_without_shape(nodes, id);
    let i = choose|i: int| 0 <= i < r.len() && #[trigger] r[i] == nodes[ni];
    lemma_node_index(r, x);
    assert(r[i].id == x);
    let ri = node_index(r, x);
    let k = choose|k: int| 0 <= k < nodes.len() && #[trigger] nodes[k] == r[ri];
    if k < ni {
        assert(nodes[k].id != nodes[ni].id);
    } else if k > ni {
        assert(nodes[ni].id != nodes[k].id);
    }
}

proof fn lemma_removed_nodes_clean(nodes: Seq<Node>, id: u32)
    requires
        forall|a: int, b: int| 0 <= a < b < nodes.len() ==> (#[trigger] nodes[a]).id != (#[trigger] nodes[b]).id,
        forall|i: int| 0 <= i < nodes.len() ==> position_ok(#[trigger] nodes[i]) && inputs_ok(nodes[i]),
    ensures
        first_node_fault(nodes_without(nodes, id), nodes_without(nodes, id).len() as int) is None,
{
    let r = nodes_without(nodes, id);
    lemma_nodes_without_shape(nodes, id);
    assert forall|i: int| 0 <= i < r.len() implies #[trigger] node_fault(r, i) is None by {
        let k = choose|k: int| 0 <= k < nodes.len() && #[trigger] nodes[k] == r[i];
        assert(position_ok(nodes[k]) && inputs_ok(nodes[k]));
        assert(!exists|j: int| 0 <= j < i && (#[trigger] r[j]).id == r[i].id);
    }
    lemma_no_node_fault(r, r.len() as int);
}

proof fn lemma_removed_wires_clean(nodes: Seq<Node>, wires: Seq<Wire>, id: u32)
    requires
        forall|a: int, b: int| 0 <= a < b < nodes.len() ==> (#[trigger] nodes[a]).id != (#[trigger] nodes[b]).id,
        forall|k: int| 0 <= k < wires.len() ==> wire_ok(nodes, #[trigger] wires[k]),
        forall|a: int, b: int| 0 <= a < b < wires.len() ==> (#[trigger] wires[a]).to != (#[trigger] wires[b]).to,
    ensures
        first_wire_fault(nodes_without(nodes, id), wires_without(wires, id), wires_without(wires, id).len() as int) is None,
{
    let r = nodes_without(nodes, id);
    let rw = wires_without(wires, id);
    lemma_wires_without_shape(wires, id);
    lemma_wires_without(wires, id);
    assert forall|k: int| 0 <= k < rw.len() implies #[trigger] wire_fault(r, rw, k) is None by {
        let m = choose|m: int| 0 <= m < wires.len() && #[trigger] wires[m] == rw[k];
        let w = rw[k];
        assert(wire_ok(nodes, wires[m]));
        lemma_index_kept(nodes, id, w.from.node);
        lemma_index_kept(nodes, id, w.to.node);
        assert(!exists|j: int| 0 <= j < k && (#[trigger] rw[j]).to == w.to);
    }
    lemma_no_wire_fault(r, rw, rw.len() as int);
}

#[verifier::rlimit(40)]
proof fn lemma_removed_acyclic(nodes: Seq<Node>, wires: Seq<Wire>, id: u32)
    requires
        forall|a: int, b: int| 0 <= a < b < nodes.len() ==> (#[trigger] nodes[a]).id != (#[trigger] nodes[b]).id,
        forall|k: int| 0 <= k < wires.len() ==> wire_ok(nodes, #[trigger] wires[k]),
        acyclic(nodes, wires),
        nodes.len() <= 128,
    ensures
        acyclic(nodes_without(nodes, id), wires_without(wires, id)),
{
    let r = nodes_without(nodes, id);
    let rw = wires_without(wires, id);
    lemma_nodes_without_shape(nodes, id);
    lemma_wires_without_shape(wires, id);
    lemma_wires_without(wires, id);
    let edges = graph_edges(nodes, wires);
    let rank = choose|rank: Seq<nat>| #![trigger rank.len()]
        rank.len() == nodes.len() && forall|k: int|
            0 <= k < edges.len() ==> rank[(#[trigger] edges[k]).0 as int] < rank[edges[k].1 as int];
    let rank2 = Seq::new(r.len(), |i: int| rank[node_index(nodes, r[i].id)]);
    let edges2 = graph_edges(r, rw);
    assert forall|k: int| 0 <= k < edges2.len() implies rank2[(#[trigger] edges2[k]).0 as int] < rank2[edges2[k].1 as int] by {
        let m = choose|m: int| 0 <= m < wires.len() && #[trigger] wires[m] == rw[k];
        let w = rw[k];
        assert(wire_ok(nodes, wires[m]));
        lemma_index_kept(nodes, id, w.from.node);
        lemma_index_kept(nodes, id, w.to.node);
        lemma_node_index(nodes, w.from.node);
        lemma_node_index(nodes, w.to.node);
        assert(edges[m].0 as int == node_index(nodes, w.from.node));
        assert(edges[m].1 as int == node_index(nodes, w.to.node));
        assert(edges2[k].0 as int == node_index(r, w.from.node));
        assert(edges2[k].1 as int == node_index(r, w.to.node));
    }
    assert(rank2.len() == r.len());
}

/// Deleting a node that is not the Master, together with every wire that
/// touches it, keeps a valid graph valid.
pub proof fn lemma_remove_node_keeps_valid(g: ShaderGraph, id: u32)
    requires
        graph_verdict(g) is Ok,
        forall|i: int| 0 <= i < g.nodes@.len() && (#[trigger] g.nodes@[i]).id == id ==> g.nodes@[i].kind != NodeKind::Master,
    ensures
        verdict(g.version, g.name@, nodes_without(g.nodes@, id), wires_without(g.wires@, id)) is Ok,
{
    let ns = g.nodes@;
    let ws = g.wires@;
    lemma_valid_graph_shape(g);
    lemma_nodes_without_shape(ns, id);
    lemma_wires_without_shape(ws, id);
    lemma_nodes_without_masters(ns, id);
    lemma_removed_nodes_clean(ns, id);
    lemma_removed_wires_clean(ns, ws, id);
    lemma_removed_acyclic(ns, ws, id);
}

/// The position (300, 40) of the default graph's Master node.
fn master_home() -> (r: [Scalar; 2])
    ensures
        r[0].bits == 0x4396_0000 && r[0].text@ == "300"@,
        r[1].bits == 0x4220_0000 && r[1].text@ == "40"@,
{
    [Scalar::new(0x4396_0000, String::from_str("300")), Scalar::new(0x4220_0000, String::from_str("40"))]
}

impl ShaderGraph {
    /// Documents larger than 1 MiB are refused before parsing.
    pub fn check_json_size(json: &str) -> (r: Result<(), GraphError>)
        ensures
            r is Err <==> json.len() > 1024 * 1024,
            r is Err ==> r == Err::<(), GraphError>(GraphError::SourceTooLarge),
    {
        if json.len() > 1024 * 1024 {
            Err(GraphError::SourceTooLarge)
        } else {
            Ok(())
        }
    }

    /// The first node with `id`.
    pub fn node(&self, id: u32) -> (r: Result<&Node, GraphError>)
        ensures
            match r {
                Ok(n) => 0 <= node_index(self.nodes@, id) && *n == self.nodes@[node_index(self.nodes@, id)],
                Err(e) => e == GraphError::MissingNode && node_index(self.nodes@, id) == -1,
            },
    {
        proof {
            lemma_node_index(self.nodes@, id);
        }
        match find_node(&self.nodes, id) {
            Some(i) => Ok(&self.nodes[i]),
            None => Err(GraphError::MissingNode),
        }
    }

    /// Connects `wire`, replacing the wire that fed its input, when the
    /// result is a valid graph; otherwise the graph is left as it was.
    pub fn connect(&mut self, wire: Wire) -> (r: Result<(), GraphError>)
        ensures
            r == verdict(old(self).version, old(self).name@, old(self).nodes@, rewired(old(self).wires@, wire)),
            final(self).version == old(self).version,
            final(self).name == old(self).name,
            final(self).nodes == old(self).nodes,
            r is Ok ==> final(self).wires@ == rewired(old(self).wires@, wire),
            r is Ok ==> final(self).wires@ == old(self).wires@.filter(|x: Wire| x.to != wire.to).push(wire),
            r is Err ==> final(self).wires == old(self).wires,
            r is Ok ==> final(self).wires@.contains(wire) && forall|i: int| 0 <= i < final(self).wires@.len()
                && (#[trigger] final(self).wires@[i]).to == wire.to ==> final(self).wires@[i] == wire,
    {
        let ghost before = self.wires@;
        let mut next: Vec<Wire> = Vec::new();
        let mut i: usize = 0;
        while i < self.wires.len()
            invariant
                i <= self.wires@.len(),
                self.wires@ == before,
                next@ == wires_not_into(before.take(i as int), wire.to),
            decreases self.wires@.len() - i,
        {
            let w = self.wires[i];
            assert(before.take(i + 1).drop_last() =~= before.take(i as int));
            if w.to != wire.to {
                next.push(w);
            }
            i = i + 1;
        }
        assert(before.take(before.len() as int) =~= before);
        next.push(wire);
        std::mem::swap(&mut self.wires, &mut next);
        proof {
            lemma_rewired_feeds_once(before, wire);
            lemma_rewired_replaces_only_same_socket(before, wire);
        }
        match self.validate() {
            Ok(()) => Ok(()),
            Err(e) => {
                std::mem::swap(&mut self.wires, &mut next);
                Err(e)
            },
        }
    }

    /// Removes every node with `id` and every wire that touches one.
    pub fn remove_node(&mut self, id: u32)
        ensures
            final(self).version == old(self).version,
            final(self).name == old(self).name,
            final(self).nodes@ == nodes_without(old(self).nodes@, id),
            final(self).wires@ == wires_without(old(self).wires@, id),
            final(self).nodes@ == old(self).nodes@.filter(|n: Node| n.id != id),
            final(self).wires@ == old(self).wires@.filter(|w: Wire| w.from.node != id && w.to.node != id),
            forall|i: int| 0 <= i < final(self).nodes@.len() ==> (#[trigger] final(self).nodes@[i]).id != id,
            forall|i: int| 0 <= i < final(self).wires@.len() ==> (#[trigger] final(self).wires@[i]).from.node != id
                && final(self).wires@[i].to.node != id,
    {
        let ghost nodes0 = self.nodes@;
        assert(self.nodes@.skip(0) =~= nodes0.skip(0));
        let mut i: usize = 0;
        let ghost mut j: int = 0;
        while i < self.nodes.len()
            invariant
                0 <= j <= nodes0.len(),
                i <= self.nodes@.len(),
                self.nodes@.take(i as int) == nodes_without(nodes0.take(j), id),
                self.nodes@.len() - i == nodes0.len() - j,
                self.version == old(self).version,
                self.name == old(self).name,
                self.wires == old(self).wires,
                self.nodes@.skip(i as int) == nodes0.skip(j),
            decreases self.nodes@.len() - i,
        {
            assert(nodes0.take(j + 1).drop_last() =~= nodes0.take(j));
            assert(nodes0[j] == self.nodes@[i as int]) by {
                assert(self.nodes@.skip(i as int)[0] == nodes0.skip(j)[0]);
            }
            if self.nodes[i].id == id {
                let ghost prev = self.nodes@;
                self.nodes.remove(i);
                assert(self.nodes@.take(i as int) =~= prev.take(i as int));
                assert(self.nodes@.skip(i as int) =~= nodes0.skip(j + 1)) by {
                    assert(prev.skip(i as int) == nodes0.skip(j));
                    assert forall|x: int| 0 <= x < self.nodes@.skip(i as int).len() implies
                        #[trigger] self.nodes@.skip(i as int)[x] == nodes0.skip(j + 1)[x] by {
                        assert(prev.skip(i as int)[x + 1] == nodes0.skip(j)[x + 1]);
                    }
                }
            } else {
                assert(self.nodes@.take(i + 1) =~= self.nodes@.take(i as int).push(self.nodes@[i as int]));
                assert(self.nodes@.skip(i + 1) =~= nodes0.skip(j + 1)) by {
                    assert forall|x: int| 0 <= x < self.nodes@.skip(i + 1).len() implies
                        #[trigger] self.nodes@.skip(i + 1)[x] == nodes0.skip(j + 1)[x] by {
                        assert(self.nodes@.skip(i as int)[x + 1] == nodes0.skip(j)[x + 1]);
                    }
                }
                i = i + 1;
            }
            proof {
                j = j + 1;
            }
        }
        assert(nodes0.take(j) =~= nodes0) by {
            assert(self.nodes@.skip(i as int).len() == 0);
        }
        assert(self.nodes@.take(i as int) =~= self.nodes@);
        let ghost wires0 = self.wires@;
        assert(self.wires@.skip(0) =~= wires0.skip(0));
        let mut i: usize = 0;
        let ghost mut j: int = 0;
        while i < self.wires.len()
            invariant
                0 <= j <= wires0.len(),
                i <= self.wires@.len(),
                self.wires@.take(i as int) == wires_without(wires0.take(j), id),
                self.wires@.len() - i == wires0.len() - j,
                self.version == old(self).version,
                self.name == old(self).name,
                self.nodes@ == nodes_without(nodes0, id),
                self.wires@.skip(i as int) == wires0.skip(j),
            decreases self.wires@.len() - i,
        {
            assert(wires0.take(j + 1).drop_last() =~= wires0.take(j));
            assert(wires0[j] == self.wires@[i as int]) by {
                assert(self.wires@.skip(i as int)[0] == wires0.skip(j)[0]);
            }
            let w = self.wires[i];
            if w.from.node == id || w.to.node == id {
                let ghost prev = self.wires@;
                self.wires.remove(i);
                assert(self.wires@.take(i as int) =~= prev.take(i as int));
                assert(self.wires@.skip(i as int) =~= wires0.skip(j + 1)) by {
                    assert(prev.skip(i as int) == wires0.skip(j));
                    assert forall|x: int| 0 <= x < self.wires@.skip(i as int).len() implies
                        #[trigger] self.wires@.skip(i as int)[x] == wires0.skip(j + 1)[x] by {
                        assert(prev.skip(i as int)[x + 1] == wires0.skip(j)[x + 1]);
                    }
                }
            } else {
                assert(self.wires@.take(i + 1) =~= self.wires@.take(i as int).push(self.wires@[i as int]));
                assert(self.wires@.skip(i + 1) =~= wires0.skip(j + 1)) by {
                    assert forall|x: int| 0 <= x < self.wires@.skip(i + 1).len() implies
                        #[trigger] self.wires@.skip(i + 1)[x] == wires0.skip(j + 1)[x] by {
                        assert(self.wires@.skip(i as int)[x + 1] == wires0.skip(j)[x + 1]);
                    }
                }
                i = i + 1;
            }
            proof {
                j = j + 1;
            }
        }
        assert(wires0.take(j) =~= wires0) by {
            assert(self.wires@.skip(i as int).len() == 0);
        }
        assert(self.wires@.take(i as int) =~= self.wires@);
        proof {
            lemma_nodes_without(nodes0, id);
            lemma_wires_without(wires0, id);
            lemma_nodes_without_keeps_others(nodes0, id);
            lemma_wires_without_keeps_others(wires0, id);
        }
    }
}

impl Default for ShaderGraph {
    /// A new graph: version 1, named "New Shader", holding only its Master
    /// node (ID 1, at 300, 40) and no wires. It passes validation.
    fn default() -> (r: Self)
        ensures
            r.version == 1,
            r.name@ == "New Shader"@,
            r.nodes@.len() == 1,
            r.nodes@[0].id == 1,
            r.nodes@[0].kind == NodeKind::Master,
            r.nodes@[0].slot == TextureSlot::BaseColor,
            r.nodes@[0].position[0].bits == 0x4396_0000 && r.nodes@[0].position[0].text@ == "300"@,
            r.nodes@[0].position[1].bits == 0x4220_0000 && r.nodes@[0].position[1].text@ == "40"@,
            forall|i: int| 0 <= i < r.nodes@[0].inputs@.len() ==> super::graph::is_default_input(NodeKind::Master, i, #[trigger] r.nodes@[0].inputs@[i]),
            r.wires@.len() == 0,
            graph_verdict(r) == Ok::<(), GraphError>(()),
    {
        let name = "New Shader";
        proof {
            reveal_strlit("New Shader");
            vstd::string::is_ascii_spec_bytes(name);
            assert(crate::text::is_white_space(name@[0]) == false);
        }
        let master = Node::new(1, NodeKind::Master, master_home());
        let mut nodes: Vec<Node> = Vec::new();
        nodes.push(master);
        let r = ShaderGraph { version: 1, name: String::from_str(name), nodes, wires: Vec::new() };
        proof {
            let ns = r.nodes@;
            assert(super::validate::first_node_fault(ns, 1) is None) by {
                assert(super::validate::first_node_fault(ns, 0) is None);
            }
            assert(super::validate::master_count(ns, 1) == 1) by {
                assert(super::validate::master_count(ns, 0) == 0);
            }
            let rank = Seq::new(1, |i: int| 0nat);
            assert(rank.len() == 1);
            assert(has_ranking(1, super::validate::graph_edges(ns, r.wires@)));
        }
        r
    }
}

} // verus!
