//! WGSL generation: every node becomes `let v{id} = ...;` in evaluation
//! order, and each connected Master input overrides one field of the
//! default surface.
use vstd::prelude::*;
use vstd::string::*;
use crate::text::{decimal, push_decimal};
use crate::scalar::{wgsl_float_text, is_decimal_text, constant_ok, lemma_wgsl_float_text};
use super::pins::{NodeKind, TextureSlot, input_pins, output_pins, slot_bindings};
use super::graph::{Node, ShaderGraph, Socket, Value, Wire, inputs_ok, value_scalars, value_valid};
use super::error::GraphError;
use super::validate::{
    graph_verdict, node_index, node_ids, graph_edges, first_node_fault, first_wire_fault, node_fault,
    wire_fault, master_count, lemma_node_index, find_node,
};
use super::topo::{walk, walk_order, edges_in_range, lemma_walk_visits_all_iff_ranked};

verus! {

/// The WGSL expression for output `port` of the node bound to `let v{id}`:
/// a texture's Color is `.rgb` and Alpha `.a`; Split picks `.x`, `.y`, `.z`.
pub open spec fn output_expr_text(kind: NodeKind, id: u32, port: int) -> Seq<char> {
    let base = "v"@ + decimal(id as nat);
    match kind {
        NodeKind::TextureSample => base + if port == 0 { ".rgb"@ } else { ".a"@ },
        NodeKind::Split => base + if port == 0 { ".x"@ } else if port == 1 { ".y"@ } else { ".z"@ },
        _ => base,
    }
}

/// The WGSL literal for a constant input.
pub open spec fn constant_text(v: Value) -> Seq<char> {
    match v {
        Value::Float(n) => wgsl_float_text(n.text@),
        Value::Vector(a) => "vec3<f32>("@ + wgsl_float_text(a[0].text@) + ", "@ + wgsl_float_text(a[1].text@) + ", "@
            + wgsl_float_text(a[2].text@) + ")"@,
    }
}

/// The source of the last among the first `k` wires that feeds `to`.
pub open spec fn source_of(wires: Seq<Wire>, to: Socket, k: int) -> Option<Socket>
    decreases k,
{
    if k <= 0 {
        None
    } else if wires[k - 1].to == to {
        Some(wires[k - 1].from)
    } else {
        source_of(wires, to, k - 1)
    }
}

/// Input `port` of `node` as a WGSL expression: the feeding output, or the constant.
pub open spec fn input_expr(nodes: Seq<Node>, wires: Seq<Wire>, node: Node, port: int) -> Seq<char> {
    match source_of(wires, Socket { node: node.id, port: port as usize }, wires.len() as int) {
        Some(src) => output_expr_text(nodes[node_index(nodes, src.node)].kind, src.node, src.port as int),
        None => constant_text(node.inputs@[port]),
    }
}

pub open spec fn input_exprs(nodes: Seq<Node>, wires: Seq<Wire>, node: Node) -> Seq<Seq<char>> {
    Seq::new(input_pins(node.kind).len(), |p: int| input_expr(nodes, wires, node, p))
}

/// Operand `i` of a statement: the inputs, padded with "0" up to three when
/// there are one to three of them.
pub open spec fn operand(inputs: Seq<Seq<char>>, i: int) -> Seq<char> {
    if 1 <= inputs.len() <= 3 {
        if i < inputs.len() { inputs[i] } else { "0"@ }
    } else {
        ""@
    }
}

/// The WGSL expression a node of `kind` computes from operands `a`, `b`, `c`.
pub open spec fn node_expr(kind: NodeKind, slot: TextureSlot, a: Seq<char>, b: Seq<char>, c: Seq<char>) -> Seq<char> {
    match kind {
        NodeKind::Time => "time"@,
        NodeKind::UV => "vec3<f32>(uv, 0.0)"@,
        NodeKind::WorldNormal => "world_normal"@,
        NodeKind::WorldPosition => "world"@,
        NodeKind::ViewDirection => "view"@,
        NodeKind::TextureSample => "textureSample("@ + slot_bindings(slot).0 + ", "@ + slot_bindings(slot).1 + ", uv)"@,
        NodeKind::Add => "("@ + a + " + "@ + b + ")"@,
        NodeKind::Subtract => "("@ + a + " - "@ + b + ")"@,
        NodeKind::Multiply => "("@ + a + " * "@ + b + ")"@,
        NodeKind::Divide => "("@ + a + " / max(abs("@ + b + "), 0.0001) * sign("@ + b + "))"@,
        NodeKind::Power => "pow(max("@ + a + ", 0.0), "@ + b + ")"@,
        NodeKind::Sine => "sin("@ + a + ")"@,
        NodeKind::Clamp => "clamp("@ + a + ", "@ + b + ", "@ + c + ")"@,
        NodeKind::Lerp => "mix("@ + a + ", "@ + b + ", "@ + c + ")"@,
        NodeKind::OneMinus => "(1.0 - "@ + a + ")"@,
        NodeKind::AddVector => "("@ + a + " + "@ + b + ")"@,
        NodeKind::MultiplyVectors => "("@ + a + " * "@ + b + ")"@,
        NodeKind::ScaleVector => "("@ + a + " * "@ + b + ")"@,
        NodeKind::LerpVector => "mix("@ + a + ", "@ + b + ", "@ + c + ")"@,
        NodeKind::Dot => "dot("@ + a + ", "@ + b + ")"@,
        NodeKind::Normalize => "normalize("@ + a + ")"@,
        NodeKind::Append => "vec3<f32>("@ + a + ", "@ + b + ", "@ + c + ")"@,
        NodeKind::Split | NodeKind::Float | NodeKind::Color | NodeKind::Vector => a,
        NodeKind::Master => ""@,
    }
}

/// `    let v{id} = {expr};`
pub open spec fn statement_text(kind: NodeKind, id: u32, slot: TextureSlot, inputs: Seq<Seq<char>>) -> Seq<char> {
    "    let v"@ + decimal(id as nat) + " = "@ + node_expr(kind, slot, operand(inputs, 0), operand(inputs, 1), operand(inputs, 2)) + ";"@
}

/// Master channel `port`: the `SurfaceParams` field it writes and, where the
/// renderer needs one, the clamp range: Metallic 0..1, Roughness 0.045..1,
/// Alpha 0..1; Base Color, Emissive and Normal stay raw.
pub open spec fn master_field(port: int) -> (Seq<char>, Option<(Seq<char>, Seq<char>)>) {
    if port == 0 {
        ("base"@, None)
    } else if port == 1 {
        ("metallic"@, Some(("0.0"@, "1.0"@)))
    } else if port == 2 {
        ("roughness"@, Some(("0.045"@, "1.0"@)))
    } else if port == 3 {
        ("emissive"@, None)
    } else if port == 4 {
        ("alpha"@, Some(("0.0"@, "1.0"@)))
    } else {
        ("normal"@, None)
    }
}

/// `    params.{field} = {value};` or `    params.{field} = clamp({value}, {lo}, {hi});`
pub open spec fn assignment_text(port: int, value: Seq<char>) -> Seq<char> {
    let field = master_field(port).0;
    let rhs = match master_field(port).1 {
        Some(range) => "clamp("@ + value + ", "@ + range.0 + ", "@ + range.1 + ")"@,
        None => value,
    };
    "    params."@ + field + " = "@ + rhs + ";\n"@
}

/// Some wire feeds input socket `s`.
pub open spec fn is_connected(wires: Seq<Wire>, s: Socket) -> bool {
    exists|k: int| 0 <= k < wires.len() && (#[trigger] wires[k]).to == s
}

/// The assignments for the first `k` Master channels: one per connected channel.
pub open spec fn master_assignments(nodes: Seq<Node>, wires: Seq<Wire>, master: Node, k: int) -> Seq<char>
    decreases k,
{
    if k <= 0 {
        Seq::empty()
    } else {
        master_assignments(nodes, wires, master, k - 1) + if is_connected(wires, Socket { node: master.id, port: (k - 1) as usize }) {
            assignment_text(k - 1, input_expr(nodes, wires, master, k - 1))
        } else {
            Seq::empty()
        }
    }
}

/// Index of the first Master node at or after `i`, or -1.
pub open spec fn master_from(nodes: Seq<Node>, i: int) -> int
    decreases nodes.len() - i,
{
    if i < 0 || i >= nodes.len() {
        -1
    } else if nodes[i].kind == NodeKind::Master {
        i
    } else {
        master_from(nodes, i + 1)
    }
}

/// The statements of the nodes in `order`, Master excluded, one per line.
pub open spec fn statements(nodes: Seq<Node>, wires: Seq<Wire>, order: Seq<usize>) -> Seq<char>
    decreases order.len(),
{
    if order.len() == 0 {
        Seq::empty()
    } else {
        let node = nodes[order.last() as int];
        statements(nodes, wires, order.drop_last()) + if node.kind != NodeKind::Master {
            statement_text(node.kind, node.id, node.slot, input_exprs(nodes, wires, node)) + "\n"@
        } else {
            Seq::empty()
        }
    }
}

pub open spec fn surface_header() -> Seq<char> {
    "fn graph_material_surface(uv: vec2<f32>, normal_uv: vec2<f32>, mr_uv: vec2<f32>, ao_uv: vec2<f32>, emissive_uv: vec2<f32>, world_normal: vec3<f32>, tangent: vec4<f32>, world: vec3<f32>, view: vec3<f32>, front: bool, time: f32) -> SurfaceParams {\n    var params = default_material_surface(uv, normal_uv, mr_uv, ao_uv, emissive_uv, world_normal, tangent, world, view, front, time);\n"@
}

/// The evaluation order of a graph's nodes: Kahn's walk over its wires.
pub open spec fn evaluation_order(nodes: Seq<Node>, wires: Seq<Wire>) -> Seq<usize> {
    walk_order(node_ids(nodes), graph_edges(nodes, wires))
}

/// The whole `graph_material_surface` function of a valid graph.
pub open spec fn surface_code(g: ShaderGraph) -> Seq<char> {
    let nodes = g.nodes@;
    let wires = g.wires@;
    surface_header() + statements(nodes, wires, evaluation_order(nodes, wires))
        + master_assignments(nodes, wires, nodes[master_from(nodes, 0)], 6) + "    return params;\n}\n"@
}

proof fn lemma_no_node_fault(nodes: Seq<Node>, k: int)
    requires
        first_node_fault(nodes, k) is None,
    ensures
        forall|i: int| 0 <= i < k ==> #[trigger] node_fault(nodes, i) is None,
    decreases k,
{
    if k > 0 {
        lemma_no_node_fault(nodes, k - 1);
    }
}

proof fn lemma_no_wire_fault(nodes: Seq<Node>, wires: Seq<Wire>, k: int)
    requires
        first_wire_fault(nodes, wires, k) is None,
    ensures
        forall|i: int| 0 <= i < k ==> #[trigger] wire_fault(nodes, wires, i) is None,
    decreases k,
{
    if k > 0 {
        lemma_no_wire_fault(nodes, wires, k - 1);
    }
}

proof fn lemma_master_from(nodes: Seq<Node>, i: int)
    requires
        0 <= i,
    ensures
        -1 <= master_from(nodes, i) < nodes.len(),
        master_from(nodes, i) >= 0 ==> nodes[master_from(nodes, i)].kind == NodeKind::Master && master_from(nodes, i) >= i,
        master_from(nodes, i) == -1 ==> forall|j: int| i <= j < nodes.len() ==> nodes[j].kind != NodeKind::Master,
    decreases nodes.len() - i,
{
    if i < nodes.len() && nodes[i].kind != NodeKind::Master {
        lemma_master_from(nodes, i + 1);
    }
}

proof fn lemma_master_count_zero(nodes: Seq<Node>, k: int)
    requires
        0 <= k <= nodes.len(),
        forall|j: int| 0 <= j < k ==> nodes[j].kind != NodeKind::Master,
    ensures
        master_count(nodes, k) == 0,
    decreases k,
{
    if k > 0 {
        lemma_master_count_zero(nodes, k - 1);
    }
}

proof fn lemma_source_of(wires: Seq<Wire>, to: Socket, k: int)
    requires
        k <= wires.len(),
    ensures
        source_of(wires, to, k) matches Some(src) ==> exists|j: int| 0 <= j < k && (#[trigger] wires[j]).to == to && wires[j].from == src,
    decreases k,
{
    if k > 0 {
        lemma_source_of(wires, to, k - 1);
    }
}

/// What a valid graph guarantees to the code generator.
pub open spec fn codegen_ready(nodes: Seq<Node>, wires: Seq<Wire>) -> bool {
    &&& nodes.len() <= 128
    &&& wires.len() <= 512
    &&& forall|i: int| 0 <= i < nodes.len() ==> inputs_ok(#[trigger] nodes[i])
    &&& forall|k: int| 0 <= k < wires.len() ==> {
        let w = #[trigger] wires[k];
        let fi = node_index(nodes, w.from.node);
        let ti = node_index(nodes, w.to.node);
        &&& 0 <= fi < nodes.len()
        &&& 0 <= ti < nodes.len()
        &&& nodes[fi].id == w.from.node
        &&& (w.from.port as int) < output_pins(nodes[fi].kind).len()
        &&& (w.to.port as int) < input_pins(nodes[ti].kind).len()
    }
    &&& 0 <= master_from(nodes, 0) < nodes.len()
    &&& nodes[master_from(nodes, 0)].kind == NodeKind::Master
    &&& evaluation_order(nodes, wires).len() == nodes.len()
    &&& evaluation_order(nodes, wires).no_duplicates()
    &&& forall|i: int| 0 <= i < evaluation_order(nodes, wires).len() ==> #[trigger] evaluation_order(nodes, wires)[i] < nodes.len()
}

/// A valid graph has its inputs in order, wires that name real pins, a
/// Master node, and an evaluation order that visits every node once.
pub proof fn lemma_valid_graph_ready(g: ShaderGraph)
    requires
        graph_verdict(g) is Ok,
    ensures
        codegen_ready(g.nodes@, g.wires@),
{
    let nodes = g.nodes@;
    let wires = g.wires@;
    lemma_no_node_fault(nodes, nodes.len() as int);
    lemma_no_wire_fault(nodes, wires, wires.len() as int);
    assert forall|i: int| 0 <= i < nodes.len() implies inputs_ok(#[trigger] nodes[i]) by {
        assert(node_fault(nodes, i) is None);
    }
    assert forall|k: int| 0 <= k < wires.len() implies {
        let w = #[trigger] wires[k];
        let fi = node_index(nodes, w.from.node);
        let ti = node_index(nodes, w.to.node);
        &&& 0 <= fi < nodes.len()
        &&& 0 <= ti < nodes.len()
        &&& nodes[fi].id == w.from.node
        &&& (w.from.port as int) < output_pins(nodes[fi].kind).len()
        &&& (w.to.port as int) < input_pins(nodes[ti].kind).len()
    } by {
        assert(wire_fault(nodes, wires, k) is None);
        lemma_node_index(nodes, wires[k].from.node);
        lemma_node_index(nodes, wires[k].to.node);
    }
    lemma_master_from(nodes, 0);
    if master_from(nodes, 0) == -1 {
        lemma_master_count_zero(nodes, nodes.len() as int);
    }
    let edges = graph_edges(nodes, wires);
    assert(edges_in_range(nodes.len(), edges)) by {
        assert forall|k: int| 0 <= k < edges.len() implies (#[trigger] edges[k]).0 < nodes.len() && edges[k].1 < nodes.len() by {
            assert(wire_fault(nodes, wires, k) is None);
            lemma_node_index(nodes, wires[k].from.node);
            lemma_node_index(nodes, wires[k].to.node);
        }
    }
    lemma_walk_visits_all_iff_ranked(node_ids(nodes), edges);
}

impl NodeKind {
    /// WGSL expression for each output port of a node whose value was bound to `let v{id}`.
    /// Textures sample into `v{id}` (Color = rgb, Alpha = a); Split picks components.
    pub fn output_expr(self, id: u32, port: usize) -> (r: String)
        requires
            self == NodeKind::TextureSample ==> port < 2,
            self == NodeKind::Split ==> port < 3,
        ensures
            r@ == output_expr_text(self, id, port as int),
    {
        let mut r = String::from_str("v");
        push_decimal(&mut r, id as u64);
        match self {
            NodeKind::TextureSample => r.append(if port == 0 { ".rgb" } else { ".a" }),
            NodeKind::Split => r.append(if port == 0 { ".x" } else if port == 1 { ".y" } else { ".z" }),
            _ => {},
        }
        r
    }
}

/// The WGSL literal for a constant input.
pub fn constant_expr(v: &Value) -> (r: String)
    ensures
        r@ == constant_text(*v),
{
    match v {
        Value::Float(n) => n.wgsl(),
        Value::Vector(a) => {
            let x = a[0].wgsl();
            let y = a[1].wgsl();
            let z = a[2].wgsl();
            let mut r = String::from_str("vec3<f32>(");
            r.append(x.as_str());
            r.append(", ");
            r.append(y.as_str());
            r.append(", ");
            r.append(z.as_str());
            r.append(")");
            r
        },
    }
}

fn source_of_exec(wires: &Vec<Wire>, to: Socket) -> (r: Option<Socket>)
    ensures
        r == source_of(wires@, to, wires@.len() as int),
{
    let mut k: usize = wires.len();
    while k > 0
        invariant
            k <= wires@.len(),
            source_of(wires@, to, wires@.len() as int) == source_of(wires@, to, k as int),
        decreases k,
    {
        if wires[k - 1].to == to {
            return Some(wires[k - 1].from);
        }
        k = k - 1;
    }
    None
}

fn connected_exec(wires: &Vec<Wire>, s: Socket) -> (r: bool)
    ensures
        r == is_connected(wires@, s),
{
    let mut k: usize = 0;
    while k < wires.len()
        invariant
            k <= wires@.len(),
            forall|j: int| 0 <= j < k ==> (#[trigger] wires@[j]).to != s,
        decreases wires@.len() - k,
    {
        if wires[k].to == s {
            return true;
        }
        k = k + 1;
    }
    false
}

impl ShaderGraph {
    /// Input `port` of node `idx` as a WGSL expression.
    fn input_expression(&self, idx: usize, port: usize) -> (r: String)
        requires
            codegen_ready(self.nodes@, self.wires@),
            idx < self.nodes@.len(),
            port < input_pins(self.nodes@[idx as int].kind).len(),
        ensures
            r@ == input_expr(self.nodes@, self.wires@, self.nodes@[idx as int], port as int),
    {
        let node = &self.nodes[idx];
        let to = Socket { node: node.id, port };
        proof {
            lemma_source_of(self.wires@, to, self.wires@.len() as int);
        }
        match source_of_exec(&self.wires, to) {
            Some(src) => {
                proof {
                    let j = choose|j: int| 0 <= j < self.wires@.len() && (#[trigger] self.wires@[j]).to == to && self.wires@[j].from == src;
                    assert(self.wires@[j].from == src);
                    lemma_node_index(self.nodes@, src.node);
                }
                let si = match find_node(&self.nodes, src.node) {
                    Some(si) => si,
                    None => { proof { assert(false); } 0 },
                };
                let kind = self.nodes[si].kind;
                proof {
                    assert(super::pins::output_pins(NodeKind::TextureSample).len() == 2);
                    assert(super::pins::output_pins(NodeKind::Split).len() == 3);
                }
                kind.output_expr(src.node, src.port)
            },
            None => {
                assert(inputs_ok(self.nodes@[idx as int]));
                constant_expr(&node.inputs[port])
            },
        }
    }

    /// Topologically ordered evaluation plan: (node index, per-input resolved expressions).
    fn plan(&self) -> (r: Vec<(usize, Vec<String>)>)
        requires
            codegen_ready(self.nodes@, self.wires@),
        ensures
            r@.len() == evaluation_order(self.nodes@, self.wires@).len(),
            forall|i: int| 0 <= i < r@.len() ==> {
                let idx = evaluation_order(self.nodes@, self.wires@)[i];
                let node = self.nodes@[idx as int];
                &&& (#[trigger] r@[i]).0 == idx
                &&& r@[i].1@.len() == input_pins(node.kind).len()
                &&& forall|p: int| 0 <= p < r@[i].1@.len() ==> (#[trigger] r@[i].1@[p])@ == input_expr(self.nodes@, self.wires@, node, p)
            },
    {
        let n = self.nodes.len();
        let mut keys: Vec<u32> = Vec::new();
        let mut i: usize = 0;
        while i < n
            invariant
                n == self.nodes@.len(),
                i <= n,
                keys@ == node_ids(self.nodes@).take(i as int),
            decreases n - i,
        {
            keys.push(self.nodes[i].id);
            i = i + 1;
            assert(keys@ =~= node_ids(self.nodes@).take(i as int));
        }
        assert(keys@ =~= node_ids(self.nodes@));
        let ghost nodes = self.nodes@;
        let ghost wires = self.wires@;
        let mut edges: Vec<(usize, usize)> = Vec::new();
        let mut k: usize = 0;
        while k < self.wires.len()
            invariant
                nodes == self.nodes@,
                wires == self.wires@,
                codegen_ready(nodes, wires),
                k <= wires.len(),
                edges@ == graph_edges(nodes, wires).take(k as int),
            decreases wires.len() - k,
        {
            let w = self.wires[k];
            assert(wires[k as int] == w);
            proof {
                lemma_node_index(nodes, w.from.node);
                lemma_node_index(nodes, w.to.node);
            }
            let fi = match find_node(&self.nodes, w.from.node) {
                Some(x) => x,
                None => { proof { assert(false); } 0 },
            };
            let ti = match find_node(&self.nodes, w.to.node) {
                Some(x) => x,
                None => { proof { assert(false); } 0 },
            };
            edges.push((fi, ti));
            k = k + 1;
            assert(edges@ =~= graph_edges(nodes, wires).take(k as int));
        }
        assert(edges@ =~= graph_edges(nodes, wires));
        proof {
            assert(edges_in_range(n as nat, edges@)) by {
                assert forall|k: int| 0 <= k < edges@.len() implies (#[trigger] edges@[k]).0 < n && edges@[k].1 < n by {
                    assert(edges@[k] == graph_edges(nodes, wires)[k]);
                }
            }
        }
        let order = walk(&keys, &edges);
        let mut r: Vec<(usize, Vec<String>)> = Vec::new();
        let mut i: usize = 0;
        while i < order.len()
            invariant
                nodes == self.nodes@,
                wires == self.wires@,
                codegen_ready(nodes, wires),
                order@ == evaluation_order(nodes, wires),
                i <= order@.len(),
                r@.len() == i,
                forall|x: int| 0 <= x < i ==> {
                    let idx = evaluation_order(nodes, wires)[x];
                    let node = nodes[idx as int];
                    &&& (#[trigger] r@[x]).0 == idx
                    &&& r@[x].1@.len() == input_pins(node.kind).len()
                    &&& forall|p: int| 0 <= p < r@[x].1@.len() ==> (#[trigger] r@[x].1@[p])@ == input_expr(nodes, wires, node, p)
                },
            decreases order@.len() - i,
        {
            let idx = order[i];
            assert(idx < nodes.len());
            let pins = self.nodes[idx].kind.inputs();
            assert(super::pins::pin_table_view(pins@) == input_pins(nodes[idx as int].kind));
            let mut exprs: Vec<String> = Vec::new();
            let mut p: usize = 0;
            while p < pins.len()
                invariant
                    nodes == self.nodes@,
                    wires == self.wires@,
                    codegen_ready(nodes, wires),
                    idx < nodes.len(),
                    pins@.len() == input_pins(nodes[idx as int].kind).len(),
                    p <= pins@.len(),
                    exprs@.len() == p,
                    forall|q: int| 0 <= q < p ==> (#[trigger] exprs@[q])@ == input_expr(nodes, wires, nodes[idx as int], q),
                decreases pins@.len() - p,
            {
                let e = self.input_expression(idx, p);
                exprs.push(e);
                p = p + 1;
            }
            r.push((idx, exprs));
            i = i + 1;
        }
        r
    }
}

fn wrap(pre: &str, a: &str, post: &str) -> (r: String)
    ensures
        r@ == pre@ + a@ + post@,
{
    let mut r = String::from_str(pre);
    r.append(a);
    r.append(post);
    r
}

fn wrap2(pre: &str, a: &str, mid: &str, b: &str, post: &str) -> (r: String)
    ensures
        r@ == pre@ + a@ + mid@ + b@ + post@,
{
    let mut r = String::from_str(pre);
    r.append(a);
    r.append(mid);
    r.append(b);
    r.append(post);
    r
}

fn wrap3(pre: &str, a: &str, m1: &str, b: &str, m2: &str, c: &str, post: &str) -> (r: String)
    ensures
        r@ == pre@ + a@ + m1@ + b@ + m2@ + c@ + post@,
{
    let mut r = String::from_str(pre);
    r.append(a);
    r.append(m1);
    r.append(b);
    r.append(m2);
    r.append(c);
    r.append(post);
    r
}

pub open spec fn views(v: Seq<String>) -> Seq<Seq<char>> {
    v.map_values(|s: String| s@)
}

impl ShaderGraph {
    /// Statement for one node in topological order; inputs are already WGSL expressions.
    fn statement(kind: NodeKind, id: u32, slot: TextureSlot, inputs: &Vec<String>) -> (r: String)
        requires
            kind != NodeKind::Master,
        ensures
            r@ == statement_text(kind, id, slot, views(inputs@)),
    {
        let n = inputs.len();
        let ghost ins = views(inputs@);
        let fits = 1 <= n && n <= 3;
        let a: &str = if fits { inputs[0].as_str() } else { "" };
        let b: &str = if fits { if n > 1 { inputs[1].as_str() } else { "0" } } else { "" };
        let c: &str = if fits { if n > 2 { inputs[2].as_str() } else { "0" } } else { "" };
        assert(a@ == operand(ins, 0));
        assert(b@ == operand(ins, 1));
        assert(c@ == operand(ins, 2));
        let expr = match kind {
            NodeKind::Time => String::from_str("time"),
            NodeKind::UV => String::from_str("vec3<f32>(uv, 0.0)"),
            NodeKind::WorldNormal => String::from_str("world_normal"),
            NodeKind::WorldPosition => String::from_str("world"),
            NodeKind::ViewDirection => String::from_str("view"),
            NodeKind::TextureSample => {
                let (texture, sampler) = slot.bindings();
                wrap2("textureSample(", texture, ", ", sampler, ", uv)")
            },
            NodeKind::Add => wrap2("(", a, " + ", b, ")"),
            NodeKind::Subtract => wrap2("(", a, " - ", b, ")"),
            NodeKind::Multiply => wrap2("(", a, " * ", b, ")"),
            NodeKind::Divide => wrap3("(", a, " / max(abs(", b, "), 0.0001) * sign(", b, "))"),
            NodeKind::Power => wrap2("pow(max(", a, ", 0.0), ", b, ")"),
            NodeKind::Sine => wrap("sin(", a, ")"),
            NodeKind::Clamp => wrap3("clamp(", a, ", ", b, ", ", c, ")"),
            NodeKind::Lerp => wrap3("mix(", a, ", ", b, ", ", c, ")"),
            NodeKind::OneMinus => wrap("(1.0 - ", a, ")"),
            NodeKind::AddVector => wrap2("(", a, " + ", b, ")"),
            NodeKind::MultiplyVectors => wrap2("(", a, " * ", b, ")"),
            NodeKind::ScaleVector => wrap2("(", a, " * ", b, ")"),
            NodeKind::LerpVector => wrap3("mix(", a, ", ", b, ", ", c, ")"),
            NodeKind::Dot => wrap2("dot(", a, ", ", b, ")"),
            NodeKind::Normalize => wrap("normalize(", a, ")"),
            NodeKind::Append => wrap3("vec3<f32>(", a, ", ", b, ", ", c, ")"),
            NodeKind::Split | NodeKind::Float | NodeKind::Color | NodeKind::Vector => String::from_str(a),
            NodeKind::Master => String::new(),
        };
        let mut r = String::from_str("    let v");
        push_decimal(&mut r, id as u64);
        r.append(" = ");
        r.append(expr.as_str());
        r.append(";");
        r
    }

    /// WGSL body of `graph_material_surface`, overriding only connected Master inputs.
    /// The host provides `default_material_surface` with the same signature and the
    /// `SurfaceParams` struct, `time`, and the material map bindings.
    pub fn surface_function(&self) -> (r: Result<String, GraphError>)
        ensures
            match r {
                Ok(code) => graph_verdict(*self) is Ok && code@ == surface_code(*self),
                Err(e) => graph_verdict(*self) == Err::<(), GraphError>(e),
            },
    {
        match self.validate() {
            Ok(()) => {},
            Err(e) => return Err(e),
        }
        proof {
            lemma_valid_graph_ready(*self);
        }
        let ghost nodes = self.nodes@;
        let ghost wires = self.wires@;
        let ghost order = evaluation_order(nodes, wires);
        let plan = self.plan();
        let mut code = String::from_str("fn graph_material_surface(uv: vec2<f32>, normal_uv: vec2<f32>, mr_uv: vec2<f32>, ao_uv: vec2<f32>, emissive_uv: vec2<f32>, world_normal: vec3<f32>, tangent: vec4<f32>, world: vec3<f32>, view: vec3<f32>, front: bool, time: f32) -> SurfaceParams {\n    var params = default_material_surface(uv, normal_uv, mr_uv, ao_uv, emissive_uv, world_normal, tangent, world, view, front, time);\n");
        let mut i: usize = 0;
        while i < plan.len()
            invariant
                nodes == self.nodes@,
                wires == self.wires@,
                codegen_ready(nodes, wires),
                order == evaluation_order(nodes, wires),
                plan@.len() == order.len(),
                forall|x: int| 0 <= x < plan@.len() ==> {
                    let idx = order[x];
                    let node = nodes[idx as int];
                    &&& (#[trigger] plan@[x]).0 == idx
                    &&& plan@[x].1@.len() == input_pins(node.kind).len()
                    &&& forall|p: int| 0 <= p < plan@[x].1@.len() ==> (#[trigger] plan@[x].1@[p])@ == input_expr(nodes, wires, node, p)
                },
                i <= plan@.len(),
                code@ == surface_header() + statements(nodes, wires, order.take(i as int)),
            decreases plan@.len() - i,
        {
            let idx = plan[i].0;
            assert(plan@[i as int].0 == order[i as int]);
            assert(idx < nodes.len());
            let node = &self.nodes[idx];
            assert(order.take(i + 1).drop_last() =~= order.take(i as int));
            if node.kind != NodeKind::Master {
                let st = Self::statement(node.kind, node.id, node.slot, &plan[i].1);
                assert(views(plan@[i as int].1@) =~= input_exprs(nodes, wires, nodes[idx as int]));
                code.append(st.as_str());
                code.append("\n");
            }
            i = i + 1;
        }
        assert(order.take(order.len() as int) =~= order);
        let mut m: usize = 0;
        while m < self.nodes.len() && self.nodes[m].kind != NodeKind::Master
            invariant
                nodes == self.nodes@,
                m <= nodes.len(),
                master_from(nodes, m as int) == master_from(nodes, 0),
            decreases nodes.len() - m,
        {
            m = m + 1;
        }
        proof {
            lemma_master_from(nodes, 0);
        }
        assert(m < nodes.len() && m as int == master_from(nodes, 0));
        let master_id = self.nodes[m].id;
        let ghost master = nodes[m as int];
        let ghost body = code@;
        let mut port: usize = 0;
        while port < 6
            invariant
                nodes == self.nodes@,
                wires == self.wires@,
                codegen_ready(nodes, wires),
                m < nodes.len(),
                master == nodes[m as int],
                master.kind == NodeKind::Master,
                master_id == master.id,
                port <= 6,
                code@ == body + master_assignments(nodes, wires, master, port as int),
            decreases 6 - port,
        {
            if connected_exec(&self.wires, Socket { node: master_id, port }) {
                let line = self.assignment(m, port);
                code.append(line.as_str());
            }
            port = port + 1;
        }
        code.append("    return params;\n}\n");
        Ok(code)
    }
}

fn master_field_exec(port: usize) -> (r: (&'static str, Option<(&'static str, &'static str)>))
    requires
        port < 6,
    ensures
        r.0@ == master_field(port as int).0,
        r.1 is None <==> master_field(port as int).1 is None,
        r.1 matches Some(x) ==> master_field(port as int).1 == Some((x.0@, x.1@)),
{
    if port == 0 {
        ("base", None)
    } else if port == 1 {
        ("metallic", Some(("0.0", "1.0")))
    } else if port == 2 {
        ("roughness", Some(("0.045", "1.0")))
    } else if port == 3 {
        ("emissive", None)
    } else if port == 4 {
        ("alpha", Some(("0.0", "1.0")))
    } else {
        ("normal", None)
    }
}

impl ShaderGraph {
    /// The assignment of Master channel `port` of node `m`.
    fn assignment(&self, m: usize, port: usize) -> (r: String)
        requires
            codegen_ready(self.nodes@, self.wires@),
            m < self.nodes@.len(),
            self.nodes@[m as int].kind == NodeKind::Master,
            port < 6,
        ensures
            r@ == assignment_text(port as int, input_expr(self.nodes@, self.wires@, self.nodes@[m as int], port as int)),
    {
        assert(input_pins(NodeKind::Master).len() == 6);
        let value = self.input_expression(m, port);
        let (field, range) = master_field_exec(port);
        let rhs = match range {
            Some((lo, hi)) => wrap3("clamp(", value.as_str(), ", ", lo, ", ", hi, ")"),
            None => value,
        };
        let mut r = String::from_str("    params.");
        r.append(field);
        r.append(" = ");
        r.append(rhs.as_str());
        r.append(";\n");
        r
    }
}

proof fn lemma_no_master_wire(nodes: Seq<Node>, wires: Seq<Wire>, master: Node, k: int)
    requires
        forall|j: int| 0 <= j < wires.len() ==> (#[trigger] wires[j]).to.node != master.id,
    ensures
        master_assignments(nodes, wires, master, k) == Seq::<char>::empty(),
    decreases k,
{
    if k > 0 {
        lemma_no_master_wire(nodes, wires, master, k - 1);
        assert(!is_connected(wires, Socket { node: master.id, port: (k - 1) as usize }));
        assert(master_assignments(nodes, wires, master, k) =~= Seq::<char>::empty());
    }
}

/// Channels without a wire keep the stock surface: when no wire reaches the
/// Master node, the generated function only evaluates the nodes and returns
/// the default surface unchanged.
pub proof fn lemma_unwired_master_keeps_stock_surface(g: ShaderGraph)
    requires
        graph_verdict(g) is Ok,
        forall|j: int| 0 <= j < g.wires@.len() ==> (#[trigger] g.wires@[j]).to.node != g.nodes@[master_from(g.nodes@, 0)].id,
    ensures
        surface_code(g) == surface_header() + statements(g.nodes@, g.wires@, evaluation_order(g.nodes@, g.wires@))
            + "    return params;\n}\n"@,
{
    lemma_no_master_wire(g.nodes@, g.wires@, g.nodes@[master_from(g.nodes@, 0)], 6);
    assert(surface_code(g) =~= surface_header() + statements(g.nodes@, g.wires@, evaluation_order(g.nodes@, g.wires@))
        + "    return params;\n}\n"@);
}

proof fn lemma_assignments_connected(nodes: Seq<Node>, wires: Seq<Wire>, master: Node, k: int, port: int)
    requires
        0 <= port < k,
        is_connected(wires, Socket { node: master.id, port: port as usize }),
    ensures
        master_assignments(nodes, wires, master, k).len() > 0,
    decreases k,
{
    if port < k - 1 {
        lemma_assignments_connected(nodes, wires, master, k - 1, port);
    } else {
        reveal_strlit("    params.");
        assert(port as usize == (k - 1) as usize);
        let line = assignment_text(k - 1, input_expr(nodes, wires, master, k - 1));
        assert(line.len() >= "    params."@.len());
    }
}

/// A wire into a Master channel makes the generated function assign a
/// surface field: the Master part of the code is not empty.
pub proof fn lemma_wired_master_overrides(g: ShaderGraph, port: usize)
    requires
        graph_verdict(g) is Ok,
        port < 6,
        is_connected(g.wires@, Socket { node: g.nodes@[master_from(g.nodes@, 0)].id, port }),
    ensures
        master_assignments(g.nodes@, g.wires@, g.nodes@[master_from(g.nodes@, 0)], 6).len() > 0,
{
    lemma_assignments_connected(g.nodes@, g.wires@, g.nodes@[master_from(g.nodes@, 0)], 6, port as int);
}

/// What Master channel `port` adds to the code: its assignment when a wire
/// feeds it, nothing otherwise.
pub open spec fn channel_line(nodes: Seq<Node>, wires: Seq<Wire>, master: Node, port: int) -> Seq<char> {
    if is_connected(wires, Socket { node: master.id, port: port as usize }) {
        assignment_text(port, input_expr(nodes, wires, master, port))
    } else {
        Seq::empty()
    }
}

/// The generated function overrides the stock surface channel by channel:
/// after the node statements come Base Color, Metallic, Roughness, Emissive,
/// Alpha and Normal, each assigned exactly when a wire feeds it, and then the
/// surface is returned.
pub proof fn lemma_master_channels_assigned_when_wired(g: ShaderGraph)
    requires
        graph_verdict(g) is Ok,
    ensures
        ({
            let nodes = g.nodes@;
            let wires = g.wires@;
            let m = nodes[master_from(nodes, 0)];
            surface_code(g) == surface_header() + statements(nodes, wires, evaluation_order(nodes, wires))
                + channel_line(nodes, wires, m, 0) + channel_line(nodes, wires, m, 1) + channel_line(nodes, wires, m, 2)
                + channel_line(nodes, wires, m, 3) + channel_line(nodes, wires, m, 4) + channel_line(nodes, wires, m, 5)
                + "    return params;\n}\n"@
        }),
{
    let nodes = g.nodes@;
    let wires = g.wires@;
    let m = nodes[master_from(nodes, 0)];
    assert(master_assignments(nodes, wires, m, 0) =~= Seq::<char>::empty());
    assert(master_assignments(nodes, wires, m, 1) == master_assignments(nodes, wires, m, 0) + channel_line(nodes, wires, m, 0));
    assert(master_assignments(nodes, wires, m, 2) == master_assignments(nodes, wires, m, 1) + channel_line(nodes, wires, m, 1));
    assert(master_assignments(nodes, wires, m, 3) == master_assignments(nodes, wires, m, 2) + channel_line(nodes, wires, m, 2));
    assert(master_assignments(nodes, wires, m, 4) == master_assignments(nodes, wires, m, 3) + channel_line(nodes, wires, m, 3));
    assert(master_assignments(nodes, wires, m, 5) == master_assignments(nodes, wires, m, 4) + channel_line(nodes, wires, m, 4));
    assert(master_assignments(nodes, wires, m, 6) == master_assignments(nodes, wires, m, 5) + channel_line(nodes, wires, m, 5));
    assert(master_assignments(nodes, wires, m, 6) =~= channel_line(nodes, wires, m, 0) + channel_line(nodes, wires, m, 1)
        + channel_line(nodes, wires, m, 2) + channel_line(nodes, wires, m, 3) + channel_line(nodes, wires, m, 4)
        + channel_line(nodes, wires, m, 5));
    assert(surface_code(g) =~= surface_header() + statements(nodes, wires, evaluation_order(nodes, wires))
        + channel_line(nodes, wires, m, 0) + channel_line(nodes, wires, m, 1) + channel_line(nodes, wires, m, 2)
        + channel_line(nodes, wires, m, 3) + channel_line(nodes, wires, m, 4) + channel_line(nodes, wires, m, 5)
        + "    return params;\n}\n"@);
}

proof fn lemma_statement_shape(kind: NodeKind, id: u32, slot: TextureSlot, ins: Seq<Seq<char>>)
    requires
        ins.len() == input_pins(kind).len(),
    ensures
        ({
            let a = ins[0];
            let b = ins[1];
            let c = ins[2];
            let head = "    let v"@ + decimal(id as nat) + " = "@;
            let line = statement_text(kind, id, slot, ins);
        &&& kind == NodeKind::Add ==> line == head + ("("@ + a + " + "@ + b + ")"@) + ";"@
        &&& kind == NodeKind::Subtract ==> line == head + ("("@ + a + " - "@ + b + ")"@) + ";"@
        &&& kind == NodeKind::Multiply ==> line == head + ("("@ + a + " * "@ + b + ")"@) + ";"@
        &&& kind == NodeKind::Divide ==> line == head + ("("@ + a + " / max(abs("@ + b + "), 0.0001) * sign("@ + b + "))"@) + ";"@
        &&& kind == NodeKind::Power ==> line == head + ("pow(max("@ + a + ", 0.0), "@ + b + ")"@) + ";"@
        &&& kind == NodeKind::Sine ==> line == head + ("sin("@ + a + ")"@) + ";"@
        &&& kind == NodeKind::Clamp ==> line == head + ("clamp("@ + a + ", "@ + b + ", "@ + c + ")"@) + ";"@
        &&& kind == NodeKind::Lerp ==> line == head + ("mix("@ + a + ", "@ + b + ", "@ + c + ")"@) + ";"@
        &&& kind == NodeKind::OneMinus ==> line == head + ("(1.0 - "@ + a + ")"@) + ";"@
        &&& kind == NodeKind::AddVector ==> line == head + ("("@ + a + " + "@ + b + ")"@) + ";"@
        &&& kind == NodeKind::MultiplyVectors ==> line == head + ("("@ + a + " * "@ + b + ")"@) + ";"@
        &&& kind == NodeKind::ScaleVector ==> line == head + ("("@ + a + " * "@ + b + ")"@) + ";"@
        &&& kind == NodeKind::LerpVector ==> line == head + ("mix("@ + a + ", "@ + b + ", "@ + c + ")"@) + ";"@
        &&& kind == NodeKind::Dot ==> line == head + ("dot("@ + a + ", "@ + b + ")"@) + ";"@
        &&& kind == NodeKind::Normalize ==> line == head + ("normalize("@ + a + ")"@) + ";"@
        &&& kind == NodeKind::Append ==> line == head + ("vec3<f32>("@ + a + ", "@ + b + ", "@ + c + ")"@) + ";"@
        &&& kind == NodeKind::Split ==> line == head + (a) + ";"@
        &&& kind == NodeKind::Float ==> line == head + (a) + ";"@
        &&& kind == NodeKind::Color ==> line == head + (a) + ";"@
        &&& kind == NodeKind::Vector ==> line == head + (a) + ";"@
        &&& kind == NodeKind::Time ==> line == head + ("time"@) + ";"@
        &&& kind == NodeKind::UV ==> line == head + ("vec3<f32>(uv, 0.0)"@) + ";"@
        &&& kind == NodeKind::WorldNormal ==> line == head + ("world_normal"@) + ";"@
        &&& kind == NodeKind::WorldPosition ==> line == head + ("world"@) + ";"@
        &&& kind == NodeKind::ViewDirection ==> line == head + ("view"@) + ";"@
        &&& kind == NodeKind::TextureSample ==> line == head + ("textureSample("@ + slot_bindings(slot).0 + ", "@ + slot_bindings(slot).1 + ", uv)"@) + ";"@
        }),
{
    match kind {
        NodeKind::Float | NodeKind::Color | NodeKind::Vector | NodeKind::Split | NodeKind::Sine | NodeKind::OneMinus
        | NodeKind::Normalize => {
            assert(ins.len() == 1);
        },
        NodeKind::Add | NodeKind::Subtract | NodeKind::Multiply | NodeKind::Divide | NodeKind::Power
        | NodeKind::AddVector | NodeKind::MultiplyVectors | NodeKind::ScaleVector | NodeKind::Dot => {
            assert(ins.len() == 2);
        },
        NodeKind::Clamp | NodeKind::Lerp | NodeKind::LerpVector | NodeKind::Append => {
            assert(ins.len() == 3);
        },
        _ => {},
    }
}

/// Each node's statement applies its operation to its inputs in pin order,
/// with `{A}`, `{B}`, `{C}` the WGSL expressions of input pins 0, 1, 2 (the
/// output wired into the pin, or its constant): a Subtract node `v{id}` is
/// `let v{id} = ({A} - {B});`, a Power node raises its Base to its Exponent,
/// Clamp bounds its Value by Min and Max, Lerp mixes from A to B by Factor.
#[verifier::rlimit(60)]
pub proof fn lemma_statement_follows_pin_order(nodes: Seq<Node>, wires: Seq<Wire>, node: Node)
    ensures
        ({
            let a = input_expr(nodes, wires, node, 0);
            let b = input_expr(nodes, wires, node, 1);
            let c = input_expr(nodes, wires, node, 2);
            let head = "    let v"@ + decimal(node.id as nat) + " = "@;
            let line = statement_text(node.kind, node.id, node.slot, input_exprs(nodes, wires, node));
        &&& node.kind == NodeKind::Add ==> line == head + ("("@ + a + " + "@ + b + ")"@) + ";"@
        &&& node.kind == NodeKind::Subtract ==> line == head + ("("@ + a + " - "@ + b + ")"@) + ";"@
        &&& node.kind == NodeKind::Multiply ==> line == head + ("("@ + a + " * "@ + b + ")"@) + ";"@
        &&& node.kind == NodeKind::Divide ==> line == head + ("("@ + a + " / max(abs("@ + b + "), 0.0001) * sign("@ + b + "))"@) + ";"@
        &&& node.kind == NodeKind::Power ==> line == head + ("pow(max("@ + a + ", 0.0), "@ + b + ")"@) + ";"@
        &&& node.kind == NodeKind::Sine ==> line == head + ("sin("@ + a + ")"@) + ";"@
        &&& node.kind == NodeKind::Clamp ==> line == head + ("clamp("@ + a + ", "@ + b + ", "@ + c + ")"@) + ";"@
        &&& node.kind == NodeKind::Lerp ==> line == head + ("mix("@ + a + ", "@ + b + ", "@ + c + ")"@) + ";"@
        &&& node.kind == NodeKind::OneMinus ==> line == head + ("(1.0 - "@ + a + ")"@) + ";"@
        &&& node.kind == NodeKind::AddVector ==> line == head + ("("@ + a + " + "@ + b + ")"@) + ";"@
        &&& node.kind == NodeKind::MultiplyVectors ==> line == head + ("("@ + a + " * "@ + b + ")"@) + ";"@
        &&& node.kind == NodeKind::ScaleVector ==> line == head + ("("@ + a + " * "@ + b + ")"@) + ";"@
        &&& node.kind == NodeKind::LerpVector ==> line == head + ("mix("@ + a + ", "@ + b + ", "@ + c + ")"@) + ";"@
        &&& node.kind == NodeKind::Dot ==> line == head + ("dot("@ + a + ", "@ + b + ")"@) + ";"@
        &&& node.kind == NodeKind::Normalize ==> line == head + ("normalize("@ + a + ")"@) + ";"@
        &&& node.kind == NodeKind::Append ==> line == head + ("vec3<f32>("@ + a + ", "@ + b + ", "@ + c + ")"@) + ";"@
        &&& node.kind == NodeKind::Split ==> line == head + (a) + ";"@
        &&& node.kind == NodeKind::Float ==> line == head + (a) + ";"@
        &&& node.kind == NodeKind::Color ==> line == head + (a) + ";"@
        &&& node.kind == NodeKind::Vector ==> line == head + (a) + ";"@
        &&& node.kind == NodeKind::Time ==> line == head + ("time"@) + ";"@
        &&& node.kind == NodeKind::UV ==> line == head + ("vec3<f32>(uv, 0.0)"@) + ";"@
        &&& node.kind == NodeKind::WorldNormal ==> line == head + ("world_normal"@) + ";"@
        &&& node.kind == NodeKind::WorldPosition ==> line == head + ("world"@) + ";"@
        &&& node.kind == NodeKind::ViewDirection ==> line == head + ("view"@) + ";"@
        &&& node.kind == NodeKind::TextureSample ==> line == head + ("textureSample("@ + slot_bindings(node.slot).0 + ", "@ + slot_bindings(node.slot).1 + ", uv)"@) + ";"@
        }),
{
    let ins = input_exprs(nodes, wires, node);
    lemma_statement_shape(node.kind, node.id, node.slot, ins);
    assert(ins.len() >= 1 ==> ins[0] == input_expr(nodes, wires, node, 0));
    assert(ins.len() >= 2 ==> ins[1] == input_expr(nodes, wires, node, 1));
    assert(ins.len() >= 3 ==> ins[2] == input_expr(nodes, wires, node, 2));
}

/// In a valid graph an input wired from an output reads that output: the
/// expression of input `port` of `node` is the one of the wire's source pin.
pub proof fn lemma_wired_input_reads_its_source(g: ShaderGraph, node: Node, port: int, k: int)
    requires
        graph_verdict(g) is Ok,
        0 <= k < g.wires@.len(),
        0 <= port,
        g.wires@[k].to == (Socket { node: node.id, port: port as usize }),
    ensures
        input_expr(g.nodes@, g.wires@, node, port) == output_expr_text(
            g.nodes@[node_index(g.nodes@, g.wires@[k].from.node)].kind,
            g.wires@[k].from.node,
            g.wires@[k].from.port as int,
        ),
{
    super::validate::lemma_valid_graph_shape(g);
    lemma_source_is_the_feeding_wire(g.wires@, Socket { node: node.id, port: port as usize }, k, g.wires@.len() as int);
}

/// An input no wire feeds reads its own constant.
pub proof fn lemma_unwired_input_reads_constant(nodes: Seq<Node>, wires: Seq<Wire>, node: Node, port: int)
    requires
        0 <= port,
        forall|k: int| 0 <= k < wires.len() ==> (#[trigger] wires[k]).to != (Socket { node: node.id, port: port as usize }),
    ensures
        input_expr(nodes, wires, node, port) == constant_text(node.inputs@[port]),
{
    lemma_no_source(wires, Socket { node: node.id, port: port as usize }, wires.len() as int);
}

proof fn lemma_source_is_the_feeding_wire(wires: Seq<Wire>, to: Socket, k: int, n: int)
    requires
        0 <= k < n <= wires.len(),
        wires[k].to == to,
        forall|i: int, j: int| 0 <= i < j < wires.len() ==> (#[trigger] wires[i]).to != (#[trigger] wires[j]).to,
    ensures
        source_of(wires, to, n) == Some(wires[k].from),
    decreases n,
{
    if n - 1 != k {
        assert(wires[k].to != wires[n - 1].to);
        lemma_source_is_the_feeding_wire(wires, to, k, n - 1);
    }
}

proof fn lemma_no_source(wires: Seq<Wire>, to: Socket, n: int)
    requires
        n <= wires.len(),
        forall|k: int| 0 <= k < wires.len() ==> (#[trigger] wires[k]).to != to,
    ensures
        source_of(wires, to, n) is None,
    decreases n,
{
    if n > 0 {
        assert(wires[n - 1].to != to);
        lemma_no_source(wires, to, n - 1);
    }
}

/// In a valid graph every node is evaluated after each node wired into it,
/// so each `v{id}` the code reads was bound by an earlier statement.
pub proof fn lemma_sources_evaluated_first(g: ShaderGraph)
    requires
        graph_verdict(g) is Ok,
    ensures
        forall|k: int, j: int| 0 <= k < g.wires@.len() && 0 <= j < evaluation_order(g.nodes@, g.wires@).len()
            && #[trigger] evaluation_order(g.nodes@, g.wires@)[j] as int == node_index(g.nodes@, (#[trigger] g.wires@[k]).to.node)
            ==> exists|i: int| 0 <= i < j && evaluation_order(g.nodes@, g.wires@)[i] as int == node_index(g.nodes@, g.wires@[k].from.node),
{
    let nodes = g.nodes@;
    let wires = g.wires@;
    lemma_valid_graph_ready(g);
    let edges = graph_edges(nodes, wires);
    assert(edges_in_range(nodes.len(), edges)) by {
        assert forall|k: int| 0 <= k < edges.len() implies (#[trigger] edges[k]).0 < nodes.len() && edges[k].1 < nodes.len() by {
            assert(0 <= node_index(nodes, wires[k].from.node) && 0 <= node_index(nodes, wires[k].to.node));
        }
    }
    super::topo::lemma_walk_respects_edges(node_ids(nodes), edges);
    let order = evaluation_order(nodes, wires);
    assert forall|k: int, j: int| 0 <= k < wires.len() && 0 <= j < order.len()
        && #[trigger] order[j] as int == node_index(nodes, (#[trigger] wires[k]).to.node)
        implies exists|i: int| 0 <= i < j && order[i] as int == node_index(nodes, wires[k].from.node) by {
        assert(edges[k] == (node_index(nodes, wires[k].from.node) as usize, node_index(nodes, wires[k].to.node) as usize));
        assert(order[j] == edges[k].1);
        let i = choose|i: int| 0 <= i < j && order[i] == edges[k].0;
        assert(order[i] as int == node_index(nodes, wires[k].from.node));
    }
}

/// In a valid graph every constant the code writes is a decimal literal
/// with a point: an optional minus sign, digits and one point, nothing else,
/// so a constant can only ever stand for a number in the generated code.
pub proof fn lemma_constants_are_literals(g: ShaderGraph, i: int, port: int)
    requires
        graph_verdict(g) is Ok,
        0 <= i < g.nodes@.len(),
        0 <= port < g.nodes@[i].inputs@.len(),
    ensures
        forall|j: int| 0 <= j < value_scalars(g.nodes@[i].inputs@[port]).len() ==> {
            let lit = wgsl_float_text((#[trigger] value_scalars(g.nodes@[i].inputs@[port])[j]).text@);
            is_decimal_text(lit) && lit.contains('.')
        },
{
    super::validate::lemma_valid_graph_shape(g);
    let v = g.nodes@[i].inputs@[port];
    assert(inputs_ok(g.nodes@[i]));
    assert(value_valid(v));
    assert forall|j: int| 0 <= j < value_scalars(v).len() implies {
        let lit = wgsl_float_text((#[trigger] value_scalars(v)[j]).text@);
        is_decimal_text(lit) && lit.contains('.')
    } by {
        assert(constant_ok(value_scalars(v)[j]));
        lemma_wgsl_float_text(value_scalars(v)[j].text@);
    }
}

} // verus!
