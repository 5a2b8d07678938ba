//! The rules every stored, saved or connected shader graph obeys.
use vstd::prelude::*;
use vstd::string::*;
use crate::text::{is_blank, str_is_blank};
use super::pins::{NodeKind, input_pins, output_pins};
use super::graph::{Node, ShaderGraph, Wire, inputs_ok, position_ok, value_kind, value_valid};
use super::error::GraphError;
use super::topo::{Edges, has_ranking, walk, lemma_walk_visits_all_iff_ranked};

verus! {

/// Index of the first node with `id` at or after `i`, or -1.
pub open spec fn index_from(nodes: Seq<Node>, id: u32, i: int) -> int
    decreases nodes.len() - i,
{
    if i < 0 || i >= nodes.len() {
        -1
    } else if nodes[i].id == id {
        i
    } else {
        index_from(nodes, id, i + 1)
    }
}

/// Index of the first node with `id`, or -1 when there is none.
pub open spec fn node_index(nodes: Seq<Node>, id: u32) -> int {
    index_from(nodes, id, 0)
}

/// What is wrong with node `i` alone or with an earlier one, if anything:
/// a repeated ID, a position out of range, or inputs unlike its pins.
pub open spec fn node_fault(nodes: Seq<Node>, i: int) -> Option<GraphError> {
    if exists|j: int| 0 <= j < i && (#[trigger] nodes[j]).id == nodes[i].id {
        Some(GraphError::DuplicateNodeId)
    } else if !position_ok(nodes[i]) {
        Some(GraphError::InvalidPosition)
    } else if !inputs_ok(nodes[i]) {
        Some(GraphError::InvalidInputs(nodes[i].id))
    } else {
        None
    }
}

/// The first fault among the first `k` nodes.
pub open spec fn first_node_fault(nodes: Seq<Node>, k: int) -> Option<GraphError>
    decreases k,
{
    if k <= 0 {
        None
    } else {
        match first_node_fault(nodes, k - 1) {
            Some(e) => Some(e),
            None => node_fault(nodes, k - 1),
        }
    }
}

/// Master nodes among the first `k`.
pub open spec fn master_count(nodes: Seq<Node>, k: int) -> nat
    decreases k,
{
    if k <= 0 {
        0
    } else {
        master_count(nodes, k - 1) + if nodes[k - 1].kind == NodeKind::Master { 1nat } else { 0nat }
    }
}

/// What is wrong with wire `k`, if anything: an endpoint that names no node
/// or no pin, pins of different types, or an input that an earlier wire feeds.
pub open spec fn wire_fault(nodes: Seq<Node>, wires: Seq<Wire>, k: int) -> Option<GraphError> {
    let w = wires[k];
    let fi = node_index(nodes, w.from.node);
    let ti = node_index(nodes, w.to.node);
    if fi < 0 {
        Some(GraphError::MissingNode)
    } else if w.from.port >= output_pins(nodes[fi].kind).len() {
        Some(GraphError::InvalidOutputPin)
    } else if ti < 0 {
        Some(GraphError::MissingNode)
    } else if w.to.port >= input_pins(nodes[ti].kind).len() {
        Some(GraphError::InvalidInputPin)
    } else if output_pins(nodes[fi].kind)[w.from.port as int].1 != input_pins(nodes[ti].kind)[w.to.port as int].1 {
        Some(GraphError::PinTypeMismatch)
    } else if exists|j: int| 0 <= j < k && (#[trigger] wires[j]).to == w.to {
        Some(GraphError::InputAlreadyConnected)
    } else {
        None
    }
}

/// The first fault among the first `k` wires.
pub open spec fn first_wire_fault(nodes: Seq<Node>, wires: Seq<Wire>, k: int) -> Option<GraphError>
    decreases k,
{
    if k <= 0 {
        None
    } else {
        match first_wire_fault(nodes, wires, k - 1) {
            Some(e) => Some(e),
            None => wire_fault(nodes, wires, k - 1),
        }
    }
}

/// The wires as edges between node indices.
pub open spec fn graph_edges(nodes: Seq<Node>, wires: Seq<Wire>) -> Edges {
    wires.map_values(|w: Wire| (node_index(nodes, w.from.node) as usize, node_index(nodes, w.to.node) as usize))
}

pub open spec fn node_ids(nodes: Seq<Node>) -> Seq<u32> {
    nodes.map_values(|n: Node| n.id)
}

/// Some ranking of the nodes climbs along every wire: the graph has no cycle.
pub open spec fn acyclic(nodes: Seq<Node>, wires: Seq<Wire>) -> bool {
    has_ranking(nodes.len(), graph_edges(nodes, wires))
}

/// The name has a non-blank character and at most 128 UTF-8 bytes (its
/// byte length as `str::len` reports it).
pub open spec fn name_ok(name: Seq<char>) -> bool {
    !is_blank(name) && (vstd::utf8::encode_utf8(name).len() as usize) <= 128
}

/// The verdict on a graph: the first rule it breaks, in the order the rules
/// are checked, or `Ok` when it keeps them all.
pub open spec fn graph_verdict(g: ShaderGraph) -> Result<(), GraphError> {
    verdict(g.version, g.name@, g.nodes@, g.wires@)
}

/// The verdict on a graph given by its parts.
pub open spec fn verdict(version: u32, name: Seq<char>, nodes: Seq<Node>, wires: Seq<Wire>) -> Result<(), GraphError> {
    if version != 1 {
        Err(GraphError::UnsupportedVersion)
    } else if !name_ok(name) {
        Err(GraphError::InvalidName)
    } else if nodes.len() > 128 || wires.len() > 512 {
        Err(GraphError::TooLarge)
    } else if first_node_fault(nodes, nodes.len() as int) is Some {
        Err(first_node_fault(nodes, nodes.len() as int)->0)
    } else if master_count(nodes, nodes.len() as int) != 1 {
        Err(GraphError::MasterCount)
    } else if first_wire_fault(nodes, wires, wires.len() as int) is Some {
        Err(first_wire_fault(nodes, wires, wires.len() as int)->0)
    } else if !acyclic(nodes, wires) {
        Err(GraphError::Cycle)
    } else {
        Ok(())
    }
}

/// Index of the first node with `id`.
pub fn find_node(nodes: &Vec<Node>, id: u32) -> (r: Option<usize>)
    ensures
        match r {
            Some(i) => i as int == node_index(nodes@, id),
            None => node_index(nodes@, id) == -1,
        },
{
    let mut i: usize = 0;
    while i < nodes.len()
        invariant
            i <= nodes@.len(),
            index_from(nodes@, id, i as int) == node_index(nodes@, id),
        decreases nodes@.len() - i,
    {
        if nodes[i].id == id {
            return Some(i);
        }
        i = i + 1;
    }
    None
}

proof fn lemma_index_from(nodes: Seq<Node>, id: u32, i: int)
    requires
        0 <= i,
    ensures
        -1 <= index_from(nodes, id, i) < nodes.len(),
        index_from(nodes, id, i) >= 0 ==> nodes[index_from(nodes, id, i)].id == id && index_from(nodes, id, i) >= i,
        index_from(nodes, id, i) >= 0 ==> forall|j: int| i <= j < index_from(nodes, id, i) ==> nodes[j].id != id,
        index_from(nodes, id, i) == -1 ==> forall|j: int| i <= j < nodes.len() ==> nodes[j].id != id,
    decreases nodes.len() - i,
{
    if i < nodes.len() && nodes[i].id != id {
        lemma_index_from(nodes, id, i + 1);
    }
}

/// `node_index` finds the first node with the ID, and a node exactly when one has it.
pub proof fn lemma_node_index(nodes: Seq<Node>, id: u32)
    ensures
        -1 <= node_index(nodes, id) < nodes.len(),
        node_index(nodes, id) >= 0 ==> nodes[node_index(nodes, id)].id == id,
        node_index(nodes, id) >= 0 ==> forall|j: int| 0 <= j < node_index(nodes, id) ==> nodes[j].id != id,
        node_index(nodes, id) == -1 <==> forall|j: int| 0 <= j < nodes.len() ==> nodes[j].id != id,
{
    lemma_index_from(nodes, id, 0);
}

fn inputs_match(node: &Node) -> (r: bool)
    ensures
        r == inputs_ok(*node),
{
    let pins = node.kind.inputs();
    if node.inputs.len() != pins.len() {
        return false;
    }
    let mut i: usize = 0;
    while i < pins.len()
        invariant
            i <= pins@.len(),
            node.inputs@.len() == pins@.len(),
            super::pins::pin_table_view(pins@) == input_pins(node.kind),
            forall|j: int| 0 <= j < i ==> value_kind(#[trigger] node.inputs@[j]) == input_pins(node.kind)[j].1
                && value_valid(node.inputs@[j]),
        decreases pins@.len() - i,
    {
        assert(super::pins::pin_table_view(pins@)[i as int] == input_pins(node.kind)[i as int]);
        if node.inputs[i].kind() != pins[i].1 || !node.inputs[i].valid() {
            return false;
        }
        i = i + 1;
    }
    true
}

impl ShaderGraph {
    #[verifier::loop_isolation(false)]
    pub fn validate(&self) -> (r: Result<(), GraphError>)
        ensures
            r == graph_verdict(*self),
    {
        if self.version != 1 {
            return Err(GraphError::UnsupportedVersion);
        }
        if str_is_blank(self.name.as_str()) || self.name.as_str().len() > 128 {
            return Err(GraphError::InvalidName);
        }
        if self.nodes.len() > 128 || self.wires.len() > 512 {
            return Err(GraphError::TooLarge);
        }
        let ghost nodes = self.nodes@;
        let n = self.nodes.len();
        let mut masters: usize = 0;
        let mut keys: Vec<u32> = Vec::new();
        let mut i: usize = 0;
        while i < n
            invariant
                n == nodes.len(),
                nodes == self.nodes@,
                n <= 128,
                i <= n,
                first_node_fault(nodes, i as int) is None,
                masters == master_count(nodes, i as int),
                masters <= i,
                keys@ == node_ids(nodes).take(i as int),
            decreases n - i,
        {
            let node = &self.nodes[i];
            let mut j: usize = 0;
            while j < i
                invariant
                    j <= i,
                    i < n,
                    n == nodes.len(),
                    nodes == self.nodes@,
                    node == nodes[i as int],
                    forall|x: int| 0 <= x < j ==> (#[trigger] nodes[x]).id != nodes[i as int].id,
                decreases i - j,
            {
                if self.nodes[j].id == node.id {
                    assert(nodes[j as int].id == nodes[i as int].id);
                    assert(node_fault(nodes, i as int) == Some(GraphError::DuplicateNodeId));
                    assert(first_node_fault(nodes, (i + 1) as int) == Some(GraphError::DuplicateNodeId));
                    proof {
                        lemma_fault_persists(nodes, (i + 1) as int, n as int);
                    }
                    return Err(GraphError::DuplicateNodeId);
                }
                j = j + 1;
            }
            if !(node.position[0].is_within_million() && node.position[1].is_within_million()) {
                assert(first_node_fault(nodes, (i + 1) as int) == Some(GraphError::InvalidPosition));
                proof {
                    lemma_fault_persists(nodes, (i + 1) as int, n as int);
                }
                return Err(GraphError::InvalidPosition);
            }
            if !inputs_match(node) {
                assert(first_node_fault(nodes, (i + 1) as int) == Some(GraphError::InvalidInputs(node.id)));
                proof {
                    lemma_fault_persists(nodes, (i + 1) as int, n as int);
                }
                return Err(GraphError::InvalidInputs(node.id));
            }
            if node.kind == NodeKind::Master {
                masters = masters + 1;
            }
            keys.push(node.id);
            i = i + 1;
            assert(keys@ =~= node_ids(nodes).take(i as int));
        }
        if masters != 1 {
            return Err(GraphError::MasterCount);
        }
        let ghost wires = self.wires@;
        let m = self.wires.len();
        let mut edges: Vec<(usize, usize)> = Vec::new();
        let mut k: usize = 0;
        while k < m
            invariant
                n == nodes.len(),
                nodes == self.nodes@,
                m == wires.len(),
                wires == self.wires@,
                k <= m,
                first_wire_fault(nodes, wires, k as int) is None,
                edges@ == graph_edges(nodes, wires).take(k as int),
                forall|x: int| 0 <= x < k ==> (#[trigger] edges@[x]).0 < n && edges@[x].1 < n,
            decreases m - k,
        {
            let w = self.wires[k];
            proof {
                lemma_node_index(nodes, w.from.node);
                lemma_node_index(nodes, w.to.node);
            }
            let fi = match find_node(&self.nodes, w.from.node) {
                Some(fi) => fi,
                None => {
                    assert(first_wire_fault(nodes, wires, (k + 1) as int) == Some(GraphError::MissingNode));
                    proof { lemma_wire_fault_persists(nodes, wires, (k + 1) as int, m as int); }
                    return Err(GraphError::MissingNode);
                },
            };
            let outs = self.nodes[fi].kind.outputs();
            assert(super::pins::pin_table_view(outs@) == output_pins(nodes[fi as int].kind));
            if w.from.port >= outs.len() {
                assert(first_wire_fault(nodes, wires, (k + 1) as int) == Some(GraphError::InvalidOutputPin));
                proof { lemma_wire_fault_persists(nodes, wires, (k + 1) as int, m as int); }
                return Err(GraphError::InvalidOutputPin);
            }
            let ti = match find_node(&self.nodes, w.to.node) {
                Some(ti) => ti,
                None => {
                    assert(first_wire_fault(nodes, wires, (k + 1) as int) == Some(GraphError::MissingNode));
                    proof { lemma_wire_fault_persists(nodes, wires, (k + 1) as int, m as int); }
                    return Err(GraphError::MissingNode);
                },
            };
            let ins = self.nodes[ti].kind.inputs();
            assert(super::pins::pin_table_view(ins@) == input_pins(nodes[ti as int].kind));
            if w.to.port >= ins.len() {
                assert(first_wire_fault(nodes, wires, (k + 1) as int) == Some(GraphError::InvalidInputPin));
                proof { lemma_wire_fault_persists(nodes, wires, (k + 1) as int, m as int); }
                return Err(GraphError::InvalidInputPin);
            }
            assert(super::pins::pin_table_view(outs@)[w.from.port as int] == output_pins(nodes[fi as int].kind)[w.from.port as int]);
            assert(super::pins::pin_table_view(ins@)[w.to.port as int] == input_pins(nodes[ti as int].kind)[w.to.port as int]);
            if outs[w.from.port].1 != ins[w.to.port].1 {
                assert(first_wire_fault(nodes, wires, (k + 1) as int) == Some(GraphError::PinTypeMismatch));
                proof { lemma_wire_fault_persists(nodes, wires, (k + 1) as int, m as int); }
                return Err(GraphError::PinTypeMismatch);
            }
            let mut j: usize = 0;
            while j < k
                invariant
                    j <= k,
                    k < m,
                    m == wires.len(),
                    wires == self.wires@,
                    w == wires[k as int],
                    forall|x: int| 0 <= x < j ==> (#[trigger] wires[x]).to != w.to,
                decreases k - j,
            {
                if self.wires[j].to == w.to {
                    assert(wires[j as int].to == wires[k as int].to);
                    assert(wire_fault(nodes, wires, k as int) == Some(GraphError::InputAlreadyConnected));
                    assert(first_wire_fault(nodes, wires, (k + 1) as int) == Some(GraphError::InputAlreadyConnected));
                    proof { lemma_wire_fault_persists(nodes, wires, (k + 1) as int, m as int); }
                    return Err(GraphError::InputAlreadyConnected);
                }
                j = j + 1;
            }
            assert(wire_fault(nodes, wires, k as int) is None);
            edges.push((fi, ti));
            k = k + 1;
            assert(edges@ =~= graph_edges(nodes, wires).take(k as int));
        }
        assert(keys@ =~= node_ids(nodes));
        assert(edges@ =~= graph_edges(nodes, wires));
        let order = walk(&keys, &edges);
        proof {
            lemma_walk_visits_all_iff_ranked(keys@, edges@);
        }
        if order.len() != n {
            return Err(GraphError::Cycle);
        }
        Ok(())
    }
}

proof fn lemma_fault_persists(nodes: Seq<Node>, k: int, k2: int)
    requires
        k <= k2,
        first_node_fault(nodes, k) is Some,
    ensures
        first_node_fault(nodes, k2) == first_node_fault(nodes, k),
    decreases k2 - k,
{
    if k < k2 {
        lemma_fault_persists(nodes, k, k2 - 1);
    }
}

proof fn lemma_wire_fault_persists(nodes: Seq<Node>, wires: Seq<Wire>, k: int, k2: int)
    requires
        k <= k2,
        first_wire_fault(nodes, wires, k) is Some,
    ensures
        first_wire_fault(nodes, wires, k2) == first_wire_fault(nodes, wires, k),
    decreases k2 - k,
{
    if k < k2 {
        lemma_wire_fault_persists(nodes, wires, k, k2 - 1);
    }
}

proof fn lemma_master_count_one(nodes: Seq<Node>, k: int)
    requires
        0 <= k <= nodes.len(),
    ensures
        master_count(nodes, k) == 1 ==> exists|i: int| 0 <= i < k && (#[trigger] nodes[i]).kind == NodeKind::Master
            && forall|j: int| 0 <= j < k && j != i ==> (#[trigger] nodes[j]).kind != NodeKind::Master,
        master_count(nodes, k) == 0 ==> forall|j: int| 0 <= j < k ==> (#[trigger] nodes[j]).kind != NodeKind::Master,
    decreases k,
{
    if k > 0 {
        lemma_master_count_one(nodes, k - 1);
        if master_count(nodes, k) == 1 && nodes[k - 1].kind == NodeKind::Master {
            assert(master_count(nodes, k - 1) == 0);
        }
    }
}

proof fn lemma_nodes_clean(nodes: Seq<Node>, k: int)
    requires
        first_node_fault(nodes, k) is None,
    ensures
        forall|i: int| 0 <= i < k ==> #[trigger] node_fault(nodes, i) is None,
    decreases k,
{
    if k > 0 {
        lemma_nodes_clean(nodes, k - 1);
    }
}

proof fn lemma_wires_clean(nodes: Seq<Node>, wires: Seq<Wire>, k: int)
    requires
        first_wire_fault(nodes, wires, k) is None,
    ensures
        forall|i: int| 0 <= i < k ==> #[trigger] wire_fault(nodes, wires, i) is None,
    decreases k,
{
    if k > 0 {
        lemma_wires_clean(nodes, wires, k - 1);
    }
}

proof fn lemma_valid_nodes(nodes: Seq<Node>)
    requires
        first_node_fault(nodes, nodes.len() as int) is None,
    ensures
        forall|i: int, j: int| 0 <= i < j < nodes.len() ==> (#[trigger] nodes[i]).id != (#[trigger] nodes[j]).id,
        forall|i: int| 0 <= i < nodes.len() ==> position_ok(#[trigger] nodes[i]) && inputs_ok(nodes[i]),
{
    lemma_nodes_clean(nodes, nodes.len() as int);
    assert forall|i: int, j: int| 0 <= i < j < nodes.len() implies (#[trigger] nodes[i]).id != (#[trigger] nodes[j]).id by {
        assert(node_fault(nodes, j) is None);
    }
    assert forall|i: int| 0 <= i < nodes.len() implies position_ok(#[trigger] nodes[i]) && inputs_ok(nodes[i]) by {
        assert(node_fault(nodes, i) is None);
    }
}

proof fn lemma_valid_wires(nodes: Seq<Node>, wires: Seq<Wire>)
    requires
        first_wire_fault(nodes, wires, wires.len() as int) is None,
    ensures
        forall|j: int, k: int| 0 <= j < k < wires.len() ==> (#[trigger] wires[j]).to != (#[trigger] wires[k]).to,
        forall|k: int| 0 <= k < wires.len() ==> wire_ok(nodes, #[trigger] wires[k]),
{
    lemma_wires_clean(nodes, wires, wires.len() as int);
    assert forall|j: int, k: int| 0 <= j < k < wires.len() implies (#[trigger] wires[j]).to != (#[trigger] wires[k]).to by {
        assert(wire_fault(nodes, wires, k) is None);
    }
    assert forall|k: int| 0 <= k < wires.len() implies wire_ok(nodes, #[trigger] wires[k]) by {
        assert(wire_fault(nodes, wires, k) is None);
    }
}

/// Both ends of the wire name existing pins, and the pins have the same type.
pub open spec fn wire_ok(nodes: Seq<Node>, w: Wire) -> bool {
    let fi = node_index(nodes, w.from.node);
    let ti = node_index(nodes, w.to.node);
    &&& 0 <= fi && 0 <= ti
    &&& (w.from.port as int) < output_pins(nodes[fi].kind).len()
    &&& (w.to.port as int) < input_pins(nodes[ti].kind).len()
    &&& output_pins(nodes[fi].kind)[w.from.port as int].1 == input_pins(nodes[ti].kind)[w.to.port as int].1
}

/// A graph that passes validation has version 1, a name, at most 128 nodes
/// and 512 wires, distinct node IDs, exactly one Master node, nodes whose
/// positions and inputs are in order, wires between existing pins of the
/// same type with at most one wire into each input, and no cycle.
pub proof fn lemma_valid_graph_shape(g: ShaderGraph)
    requires
        graph_verdict(g) is Ok,
    ensures
        g.version == 1,
        name_ok(g.name@),
        g.nodes@.len() <= 128 && g.wires@.len() <= 512,
        forall|i: int, j: int| 0 <= i < j < g.nodes@.len() ==> (#[trigger] g.nodes@[i]).id != (#[trigger] g.nodes@[j]).id,
        exists|i: int| 0 <= i < g.nodes@.len() && (#[trigger] g.nodes@[i]).kind == NodeKind::Master
            && forall|j: int| 0 <= j < g.nodes@.len() && j != i ==> (#[trigger] g.nodes@[j]).kind != NodeKind::Master,
        forall|i: int| 0 <= i < g.nodes@.len() ==> position_ok(#[trigger] g.nodes@[i]) && inputs_ok(g.nodes@[i]),
        forall|k: int| 0 <= k < g.wires@.len() ==> wire_ok(g.nodes@, #[trigger] g.wires@[k]),
        forall|j: int, k: int| 0 <= j < k < g.wires@.len() ==> (#[trigger] g.wires@[j]).to != (#[trigger] g.wires@[k]).to,
        acyclic(g.nodes@, g.wires@),
{
    lemma_valid_nodes(g.nodes@);
    lemma_valid_wires(g.nodes@, g.wires@);
    lemma_master_count_one(g.nodes@, g.nodes@.len() as int);
}

proof fn lemma_nodes_fault_free(nodes: Seq<Node>, k: int)
    requires
        k <= nodes.len(),
        forall|i: int| 0 <= i < k ==> #[trigger] node_fault(nodes, i) is None,
    ensures
        first_node_fault(nodes, k) is None,
    decreases k,
{
    if k > 0 {
        lemma_nodes_fault_free(nodes, k - 1);
    }
}

proof fn lemma_wires_fault_free(nodes: Seq<Node>, wires: Seq<Wire>, k: int)
    requires
        k <= wires.len(),
        forall|i: int| 0 <= i < k ==> #[trigger] wire_fault(nodes, wires, i) is None,
    ensures
        first_wire_fault(nodes, wires, k) is None,
    decreases k,
{
    if k > 0 {
        lemma_wires_fault_free(nodes, wires, k - 1);
    }
}

proof fn lemma_one_master_counted(nodes: Seq<Node>, m: int, k: int)
    requires
        0 <= m < nodes.len(),
        0 <= k <= nodes.len(),
        nodes[m].kind == NodeKind::Master,
        forall|j: int| 0 <= j < nodes.len() && j != m ==> (#[trigger] nodes[j]).kind != NodeKind::Master,
    ensures
        master_count(nodes, k) == if m < k { 1nat } else { 0nat },
    decreases k,
{
    if k > 0 {
        lemma_one_master_counted(nodes, m, k - 1);
    }
}

/// A graph that keeps every rule passes validation: version 1, a name, at
/// most 128 nodes and 512 wires, distinct node IDs, exactly one Master node,
/// positions and inputs in order, wires between existing pins of the same
/// type, at most one wire into each input, and no cycle. With
/// `lemma_valid_graph_shape` this says validation accepts exactly these graphs.
pub proof fn lemma_rules_kept_graph_valid(g: ShaderGraph, m: int)
    requires
        g.version == 1,
        name_ok(g.name@),
        g.nodes@.len() <= 128 && g.wires@.len() <= 512,
        forall|i: int, j: int| 0 <= i < j < g.nodes@.len() ==> (#[trigger] g.nodes@[i]).id != (#[trigger] g.nodes@[j]).id,
        0 <= m < g.nodes@.len(),
        g.nodes@[m].kind == NodeKind::Master,
        forall|j: int| 0 <= j < g.nodes@.len() && j != m ==> (#[trigger] g.nodes@[j]).kind != NodeKind::Master,
        forall|i: int| 0 <= i < g.nodes@.len() ==> position_ok(#[trigger] g.nodes@[i]) && inputs_ok(g.nodes@[i]),
        forall|k: int| 0 <= k < g.wires@.len() ==> wire_ok(g.nodes@, #[trigger] g.wires@[k]),
        forall|j: int, k: int| 0 <= j < k < g.wires@.len() ==> (#[trigger] g.wires@[j]).to != (#[trigger] g.wires@[k]).to,
        acyclic(g.nodes@, g.wires@),
    ensures
        graph_verdict(g) is Ok,
{
    let nodes = g.nodes@;
    let wires = g.wires@;
    assert forall|i: int| 0 <= i < nodes.len() implies #[trigger] node_fault(nodes, i) is None by {
        assert(!exists|j: int| 0 <= j < i && (#[trigger] nodes[j]).id == nodes[i].id);
    }
    lemma_nodes_fault_free(nodes, nodes.len() as int);
    lemma_one_master_counted(nodes, m, nodes.len() as int);
    assert forall|k: int| 0 <= k < wires.len() implies #[trigger] wire_fault(nodes, wires, k) is None by {
        assert(wire_ok(nodes, wires[k]));
        assert(!exists|j: int| 0 <= j < k && (#[trigger] wires[j]).to == wires[k].to);
    }
    lemma_wires_fault_free(nodes, wires, wires.len() as int);
}

} // verus!
