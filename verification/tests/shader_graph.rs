use bozzard::shader_graph::{GraphError, Node, NodeKind, ShaderGraph, Socket, TextureSlot, Value, Wire};
use bozzard::scalar::Scalar;

fn s(v: f32) -> Scalar {
    Scalar::new(v.to_bits(), format!("{v}"))
}
fn at(x: f32, y: f32) -> [Scalar; 2] {
    [s(x), s(y)]
}
fn float(v: f32) -> Value {
    Value::Float(s(v))
}
fn vector(v: [f32; 3]) -> Value {
    Value::Vector([s(v[0]), s(v[1]), s(v[2])])
}
fn graph(nodes: Vec<Node>, wires: Vec<Wire>) -> ShaderGraph {
    ShaderGraph {
        version: 1,
        name: "Test".into(),
        nodes,
        wires,
    }
}
fn wire(from: u32, from_port: usize, to: u32, to_port: usize) -> Wire {
    Wire {
        from: Socket {
            node: from,
            port: from_port,
        },
        to: Socket {
            node: to,
            port: to_port,
        },
    }
}

#[test]
fn defaults_roundtrip_and_require_master() {
    let default = ShaderGraph::default();
    assert!(default.validate().is_ok());
    let masterless = graph(vec![Node::new(1, NodeKind::Time, at(0., 0.))], vec![]);
    assert!(masterless.validate().is_err());
    let two = graph(
        vec![
            Node::new(1, NodeKind::Master, at(0., 0.)),
            Node::new(2, NodeKind::Master, at(0., 100.)),
        ],
        vec![],
    );
    assert!(two.validate().is_err());
}

#[test]
fn master_channels_write_existing_surface_params_fields() {
    for (port, kind, field) in [
        (0, NodeKind::Vector, "base"),
        (1, NodeKind::Float, "metallic"),
        (2, NodeKind::Float, "roughness"),
        (3, NodeKind::Vector, "emissive"),
        (4, NodeKind::Float, "alpha"),
        (5, NodeKind::Vector, "normal"),
    ] {
        let g = graph(
            vec![
                Node::new(1, NodeKind::Master, at(0., 0.)),
                Node::new(2, kind, at(200., 0.)),
            ],
            vec![wire(2, 0, 1, port)],
        );
        assert!(
            g.surface_function()
                .unwrap()
                .contains(&format!("params.{field} ="))
        );
    }
}

#[test]
fn rejects_cycles_type_mismatches_and_double_wires() {
    let cycle = graph(
        vec![
            Node::new(1, NodeKind::Master, at(0., 0.)),
            Node::new(2, NodeKind::Add, at(100., 0.)),
        ],
        vec![wire(1, 1, 2, 0), wire(2, 0, 1, 1)],
    );
    assert!(cycle.validate().is_err());
    let mismatch = graph(
        vec![
            Node::new(1, NodeKind::Master, at(0., 0.)),
            Node::new(2, NodeKind::Time, at(100., 0.)),
        ],
        vec![wire(2, 0, 1, 0)], // Float into Base Color (Vector)
    );
    assert!(mismatch.validate().is_err());
    let mut duplicate = graph(
        vec![
            Node::new(1, NodeKind::Master, at(0., 0.)),
            Node::new(2, NodeKind::Time, at(100., 0.)),
            Node::new(3, NodeKind::Time, at(100., 100.)),
        ],
        vec![wire(2, 0, 1, 1), wire(3, 0, 1, 1)],
    );
    assert!(duplicate.validate().is_err());
    duplicate.wires.pop();
    assert!(duplicate.validate().is_ok());
}

#[test]
fn codegen_overrides_only_connected_channels() {
    let mut g = graph(
        vec![
            Node::new(1, NodeKind::Master, at(400., 0.)),
            Node::new(2, NodeKind::Color, at(40., 40.)),
            Node::new(3, NodeKind::Time, at(40., 200.)),
            Node::new(4, NodeKind::Multiply, at(220., 160.)),
        ],
        vec![wire(2, 0, 1, 0), wire(3, 0, 4, 0), wire(4, 0, 1, 1)],
    );
    g.nodes[3].inputs[1] = float(0.5);
    let code = g.surface_function().unwrap();
    assert!(code.starts_with("fn graph_material_surface("));
    assert!(code.contains("var params = default_material_surface("));
    assert!(code.contains("let v2 = vec3<f32>(1.0, 1.0, 1.0);"));
    assert!(code.contains("let v3 = time;"));
    assert!(code.contains("let v4 = (v3 * 0.5);"));
    assert!(code.contains("params.base = v2;"));
    assert!(code.contains("params.metallic = clamp(v4, 0.0, 1.0);"));
    // Unconnected channels keep stock behavior and constants format as WGSL floats.
    assert!(!code.contains("params.roughness"));
    assert!(!code.contains(" = 0.5;"));
    assert!(code.ends_with("    return params;\n}\n"));
}

#[test]
fn texture_split_and_reject_invalid_constants() {
    let mut g = graph(
        vec![
            Node::new(1, NodeKind::Master, at(500., 0.)),
            Node::new(2, NodeKind::TextureSample, at(40., 40.)),
            Node::new(3, NodeKind::Split, at(260., 40.)),
        ],
        vec![wire(2, 0, 1, 0), wire(2, 1, 1, 4)],
    );
    g.nodes[1].slot = TextureSlot::MetallicRoughness;
    g.nodes[2].inputs[0] = vector([0., 0., 0.]);
    let code = g.surface_function().unwrap();
    assert!(code.contains("textureSample(mr_texture, mr_sampler, uv)"));
    assert!(code.contains("params.base = v2.rgb;"));
    assert!(code.contains("params.alpha = clamp(v2.a, 0.0, 1.0);"));
    g.nodes[2].inputs[0] = vector([f32::NAN, 0., 0.]);
    assert!(g.surface_function().is_err());
    g.nodes[2].inputs[0] = vector([0.; 3]);
    assert!(g.surface_function().is_ok());
    // Div-by-zero is guarded in codegen.
    let mut divide = graph(
        vec![
            Node::new(1, NodeKind::Master, at(400., 0.)),
            Node::new(2, NodeKind::Divide, at(100., 0.)),
        ],
        vec![],
    );
    divide.nodes[1].inputs = vec![float(1.), float(0.)];
    assert!(divide.surface_function().unwrap().contains("sign(0.0)"));
}
