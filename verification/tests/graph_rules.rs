use bozzard::scalar::Scalar;
use bozzard::shader_graph::{GraphError, Node, NodeKind, PinType, ShaderGraph, Socket, TextureSlot, Value, Wire};

fn s(v: f32) -> Scalar {
    Scalar::new(v.to_bits(), format!("{v}"))
}
fn at(x: f32, y: f32) -> [Scalar; 2] {
    [s(x), s(y)]
}
fn graph(nodes: Vec<Node>, wires: Vec<Wire>) -> ShaderGraph {
    ShaderGraph { version: 1, name: "Rules".into(), nodes, wires }
}
fn wire(from: u32, from_port: usize, to: u32, to_port: usize) -> Wire {
    Wire { from: Socket { node: from, port: from_port }, to: Socket { node: to, port: to_port } }
}
fn master_and(kind: NodeKind) -> ShaderGraph {
    graph(vec![Node::new(1, NodeKind::Master, at(0., 0.)), Node::new(2, kind, at(100., 0.))], vec![])
}

#[test]
fn each_rule_reports_its_own_error() {
    let mut g = master_and(NodeKind::Time);
    g.version = 2;
    assert_eq!(g.validate(), Err(GraphError::UnsupportedVersion));

    let mut g = master_and(NodeKind::Time);
    g.name = " \t\u{3000}".into();
    assert_eq!(g.validate(), Err(GraphError::InvalidName));
    g.name = "é".repeat(65); // 130 bytes
    assert_eq!(g.validate(), Err(GraphError::InvalidName));
    g.name = "é".repeat(64); // 128 bytes
    assert_eq!(g.validate(), Ok(()));

    let mut g = master_and(NodeKind::Time);
    for id in 3..130 {
        g.nodes.push(Node::new(id, NodeKind::Time, at(0., 0.)));
    }
    assert_eq!(g.validate(), Err(GraphError::TooLarge));

    let mut g = master_and(NodeKind::Time);
    g.nodes.push(Node::new(2, NodeKind::Float, at(0., 0.)));
    assert_eq!(g.validate(), Err(GraphError::DuplicateNodeId));

    let mut g = master_and(NodeKind::Time);
    g.nodes[1].position = at(1_000_001., 0.);
    assert_eq!(g.validate(), Err(GraphError::InvalidPosition));
    g.nodes[1].position = at(-1_000_000., f32::INFINITY);
    assert_eq!(g.validate(), Err(GraphError::InvalidPosition));
    g.nodes[1].position = at(-1_000_000., 1_000_000.);
    assert_eq!(g.validate(), Ok(()));

    let mut g = master_and(NodeKind::Add);
    g.nodes[1].inputs.pop();
    assert_eq!(g.validate(), Err(GraphError::InvalidInputs(2)));
    let mut g = master_and(NodeKind::Add);
    g.nodes[1].inputs[0] = Value::Vector([s(0.), s(0.), s(0.)]);
    assert_eq!(g.validate(), Err(GraphError::InvalidInputs(2)));
    g.nodes[1].inputs[0] = Value::Float(s(f32::NEG_INFINITY));
    assert_eq!(g.validate(), Err(GraphError::InvalidInputs(2)));

    let g = graph(vec![Node::new(1, NodeKind::Time, at(0., 0.))], vec![]);
    assert_eq!(g.validate(), Err(GraphError::MasterCount));

    let mut g = master_and(NodeKind::Time);
    g.wires.push(wire(9, 0, 1, 1));
    assert_eq!(g.validate(), Err(GraphError::MissingNode));
    let mut g = master_and(NodeKind::Time);
    g.wires.push(wire(2, 1, 1, 1));
    assert_eq!(g.validate(), Err(GraphError::InvalidOutputPin));
    let mut g = master_and(NodeKind::Time);
    g.wires.push(wire(2, 0, 9, 1));
    assert_eq!(g.validate(), Err(GraphError::MissingNode));
    let mut g = master_and(NodeKind::Time);
    g.wires.push(wire(2, 0, 1, 6));
    assert_eq!(g.validate(), Err(GraphError::InvalidInputPin));
    let mut g = master_and(NodeKind::Time);
    g.wires.push(wire(2, 0, 1, 0));
    assert_eq!(g.validate(), Err(GraphError::PinTypeMismatch));
    let mut g = master_and(NodeKind::Time);
    g.wires.push(wire(2, 0, 1, 1));
    g.wires.push(wire(2, 0, 1, 1));
    assert_eq!(g.validate(), Err(GraphError::InputAlreadyConnected));

    let mut g = master_and(NodeKind::Add);
    g.nodes.push(Node::new(3, NodeKind::Sine, at(0., 0.)));
    g.wires = vec![wire(2, 0, 3, 0), wire(3, 0, 2, 0)];
    assert_eq!(g.validate(), Err(GraphError::Cycle));
    let mut g = master_and(NodeKind::Add);
    g.wires = vec![wire(2, 0, 2, 1)];
    assert_eq!(g.validate(), Err(GraphError::Cycle));
}

#[test]
fn earlier_rules_win() {
    // A duplicate ID before a bad position reports the duplicate.
    let mut g = master_and(NodeKind::Time);
    g.nodes.push(Node::new(2, NodeKind::Time, at(f32::NAN, 0.)));
    assert_eq!(g.validate(), Err(GraphError::DuplicateNodeId));
    // A bad node wins over a missing Master.
    let g = graph(vec![Node::new(1, NodeKind::Time, at(f32::NAN, 0.))], vec![]);
    assert_eq!(g.validate(), Err(GraphError::InvalidPosition));
}

#[test]
fn messages_match_the_rules() {
    assert_eq!(GraphError::InvalidInputs(42).message(), "invalid inputs on node 42");
    assert_eq!(GraphError::Cycle.message(), "shader graphs cannot cycle");
    assert_eq!(GraphError::InvalidName.message(), "shader graph needs a name (1\u{2013}128 bytes)");
    assert_eq!(GraphError::TooLarge.message(), "shader graph limit: 128 nodes, 512 wires");
    assert_eq!(GraphError::SourceTooLarge.message(), "shader graph exceeds 1 MiB");
}

#[test]
fn json_size_limit_is_one_mebibyte() {
    assert_eq!(ShaderGraph::check_json_size(&"x".repeat(1024 * 1024)), Ok(()));
    assert_eq!(ShaderGraph::check_json_size(&"x".repeat(1024 * 1024 + 1)), Err(GraphError::SourceTooLarge));
}

#[test]
fn default_graph_is_valid_and_only_master() {
    let g = ShaderGraph::default();
    assert_eq!(g.version, 1);
    assert_eq!(g.name, "New Shader");
    assert_eq!(g.nodes.len(), 1);
    assert_eq!(g.nodes[0].kind, NodeKind::Master);
    assert_eq!(g.nodes[0].id, 1);
    assert_eq!(g.nodes[0].position, at(300., 40.));
    assert!(g.wires.is_empty());
    assert_eq!(g.validate(), Ok(()));
    let code = g.surface_function().unwrap();
    assert!(!code.contains("params."));
    assert!(!code.contains("let v"));
}

#[test]
fn new_nodes_carry_typed_defaults() {
    let lerp = Node::new(7, NodeKind::Lerp, at(1., 2.));
    assert_eq!(lerp.inputs, vec![Value::Float(s(0.)), Value::Float(s(0.)), Value::Float(s(0.5))]);
    assert_eq!(lerp.slot, TextureSlot::BaseColor);
    let color = Node::new(8, NodeKind::Color, at(1., 2.));
    assert_eq!(color.inputs, vec![Value::Vector([s(1.), s(1.), s(1.)])]);
    let scale = Node::new(9, NodeKind::ScaleVector, at(1., 2.));
    assert_eq!(scale.inputs, vec![Value::Vector([s(0.), s(0.), s(0.)]), Value::Float(s(0.))]);
    assert!(Node::new(10, NodeKind::Time, at(0., 0.)).inputs.is_empty());
    for kind in NodeKind::ALL {
        let n = Node::new(3, kind, at(0., 0.));
        assert_eq!(n.inputs.len(), kind.inputs().len());
        for (v, (_, t)) in n.inputs.iter().zip(kind.inputs()) {
            assert_eq!(v.kind(), *t);
            assert!(v.valid());
        }
    }
}

#[test]
fn connect_replaces_the_wire_into_an_input() {
    let mut g = ShaderGraph::default();
    g.nodes.push(Node::new(2, NodeKind::Float, at(0., 0.)));
    g.nodes.push(Node::new(3, NodeKind::Time, at(0., 0.)));
    assert_eq!(g.connect(wire(2, 0, 1, 1)), Ok(()));
    assert_eq!(g.connect(wire(3, 0, 1, 1)), Ok(()));
    assert_eq!(g.wires, vec![wire(3, 0, 1, 1)]);
    // A refused connection leaves the graph as it was.
    let before = g.clone();
    assert_eq!(g.connect(wire(3, 0, 1, 0)), Err(GraphError::PinTypeMismatch));
    assert_eq!(g, before);
    assert_eq!(g.connect(wire(9, 0, 1, 2)), Err(GraphError::MissingNode));
    assert_eq!(g, before);
}

#[test]
fn connect_refuses_a_cycle() {
    let mut g = ShaderGraph::default();
    g.nodes.push(Node::new(2, NodeKind::Sine, at(0., 0.)));
    g.nodes.push(Node::new(3, NodeKind::OneMinus, at(0., 0.)));
    assert_eq!(g.connect(wire(2, 0, 3, 0)), Ok(()));
    assert_eq!(g.connect(wire(3, 0, 2, 0)), Err(GraphError::Cycle));
    assert_eq!(g.wires, vec![wire(2, 0, 3, 0)]);
}

#[test]
fn remove_node_drops_its_wires() {
    let mut g = ShaderGraph::default();
    g.nodes.push(Node::new(2, NodeKind::Time, at(0., 0.)));
    g.nodes.push(Node::new(3, NodeKind::Sine, at(0., 0.)));
    g.connect(wire(2, 0, 3, 0)).unwrap();
    g.connect(wire(3, 0, 1, 1)).unwrap();
    g.remove_node(3);
    assert_eq!(g.nodes.iter().map(|n| n.id).collect::<Vec<_>>(), vec![1, 2]);
    assert!(g.wires.is_empty());
    assert_eq!(g.validate(), Ok(()));
    g.remove_node(99);
    assert_eq!(g.nodes.len(), 2);
}

#[test]
fn node_lookup_finds_first_match() {
    let g = master_and(NodeKind::Time);
    assert_eq!(g.node(2).unwrap().kind, NodeKind::Time);
    assert_eq!(g.node(5).err(), Some(GraphError::MissingNode));
}

#[test]
fn pin_tables_and_labels() {
    assert_eq!(NodeKind::Append.label(), "Make Vector");
    assert_eq!(NodeKind::Dot.label(), "Dot Product");
    assert_eq!(NodeKind::Master.inputs().len(), 6);
    assert_eq!(NodeKind::Master.inputs()[4], ("Alpha", PinType::Float));
    assert!(NodeKind::Master.outputs().is_empty());
    assert_eq!(NodeKind::TextureSample.outputs(), &[("Color", PinType::Vector), ("Alpha", PinType::Float)]);
    assert_eq!(NodeKind::Split.outputs().len(), 3);
    assert_eq!(TextureSlot::Occlusion.bindings(), ("ao_texture", "ao_sampler"));
    assert_eq!(TextureSlot::default(), TextureSlot::BaseColor);
    assert_eq!(TextureSlot::ALL.len(), 5);
    assert_eq!(NodeKind::ALL.len(), 26);
    assert!(NodeKind::ALL.contains(&NodeKind::Split));
    assert!(!NodeKind::ALL.contains(&NodeKind::Master));
}

#[test]
fn output_expressions_pick_components() {
    assert_eq!(NodeKind::TextureSample.output_expr(12, 0), "v12.rgb");
    assert_eq!(NodeKind::TextureSample.output_expr(12, 1), "v12.a");
    assert_eq!(NodeKind::Split.output_expr(3, 2), "v3.z");
    assert_eq!(NodeKind::Add.output_expr(105, 0), "v105");
}

#[test]
fn wgsl_floats_always_have_a_point_or_exponent() {
    assert_eq!(s(1.).wgsl(), "1.0");
    assert_eq!(s(0.5).wgsl(), "0.5");
    assert_eq!(s(-3.).wgsl(), "-3.0");
    assert_eq!(Scalar::new(0, "1e-7".into()).wgsl(), "1e-7");
    assert!(s(2.5).is_finite());
    assert!(!s(f32::NAN).is_finite());
    assert!(s(-1_000_000.).is_within_million());
    assert!(!s(1_000_000.1).is_within_million());
}

#[test]
fn codegen_orders_nodes_by_dependencies() {
    // Node 5 feeds node 3: node 3 must be evaluated after 5 although its ID is lower.
    let mut g = graph(
        vec![
            Node::new(1, NodeKind::Master, at(0., 0.)),
            Node::new(3, NodeKind::Sine, at(0., 0.)),
            Node::new(5, NodeKind::Time, at(0., 0.)),
        ],
        vec![wire(5, 0, 3, 0), wire(3, 0, 1, 2)],
    );
    let code = g.surface_function().unwrap();
    let expected = "fn graph_material_surface(uv: vec2<f32>, normal_uv: vec2<f32>, mr_uv: vec2<f32>, ao_uv: vec2<f32>, emissive_uv: vec2<f32>, world_normal: vec3<f32>, tangent: vec4<f32>, world: vec3<f32>, view: vec3<f32>, front: bool, time: f32) -> SurfaceParams {\n    var params = default_material_surface(uv, normal_uv, mr_uv, ao_uv, emissive_uv, world_normal, tangent, world, view, front, time);\n    let v5 = time;\n    let v3 = sin(v5);\n    params.roughness = clamp(v3, 0.045, 1.0);\n    return params;\n}\n";
    assert_eq!(code, expected);
    // Unconnected inputs become WGSL constants.
    g.wires.clear();
    g.nodes[1].inputs[0] = Value::Float(s(2.));
    let code = g.surface_function().unwrap();
    assert!(code.contains("    let v3 = sin(2.0);\n    let v5 = time;\n"));
}

#[test]
fn every_statement_form() {
    let kinds = [
        (NodeKind::UV, "vec3<f32>(uv, 0.0)"),
        (NodeKind::WorldNormal, "world_normal"),
        (NodeKind::WorldPosition, "world"),
        (NodeKind::ViewDirection, "view"),
        (NodeKind::Subtract, "(0.0 - 0.0)"),
        (NodeKind::Power, "pow(max(0.0, 0.0), 0.0)"),
        (NodeKind::Clamp, "clamp(0.0, 0.0, 0.0)"),
        (NodeKind::Lerp, "mix(0.0, 0.0, 0.5)"),
        (NodeKind::OneMinus, "(1.0 - 0.0)"),
        (NodeKind::AddVector, "(vec3<f32>(0.0, 0.0, 0.0) + vec3<f32>(0.0, 0.0, 0.0))"),
        (NodeKind::Dot, "dot(vec3<f32>(0.0, 0.0, 0.0), vec3<f32>(0.0, 0.0, 0.0))"),
        (NodeKind::Normalize, "normalize(vec3<f32>(0.0, 0.0, 0.0))"),
        (NodeKind::Append, "vec3<f32>(0.0, 0.0, 0.0)"),
        (NodeKind::Divide, "(0.0 / max(abs(0.0), 0.0001) * sign(0.0))"),
    ];
    for (kind, expr) in kinds {
        let code = master_and(kind).surface_function().unwrap();
        assert!(code.contains(&format!("    let v2 = {expr};\n")), "{kind:?}: {code}");
    }
}

#[test]
fn constants_must_be_written_as_decimal_numbers() {
    for text in ["0", "-0", "12", "0.5", "-3.25", "0.0000001", "1000000000000000000000000000000"] {
        assert!(Scalar::new(0, text.into()).is_constant_ok(), "{text}");
    }
    for text in ["", "-", ".5", "5.", "1.2.3", "1e-7", "--1", "+1", "inf", "1; params.base = vec3<f32>(0.0)"] {
        assert!(!Scalar::new(0, text.into()).is_constant_ok(), "{text}");
    }
    // A finite pattern with any other text is refused, so no text reaches the code.
    let mut g = master_and(NodeKind::OneMinus);
    g.nodes[1].inputs[0] = Value::Float(Scalar::new(0, "0.0);\n    params.base = vec3<f32>(1.0".into()));
    assert_eq!(g.validate(), Err(GraphError::InvalidInputs(2)));
    assert_eq!(g.surface_function(), Err(GraphError::InvalidInputs(2)));
    g.nodes[1].inputs[0] = Value::Float(s(0.25));
    assert_eq!(g.validate(), Ok(()));
}
