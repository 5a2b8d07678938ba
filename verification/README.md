# bozzard

Verified core of the Bozzard engine's surface shader graphs, with the small
rule sets that sit beside them.

- `src/shader_graph/` — typed shader graphs: pin tables (`pins`), nodes and
  wires (`graph`), the validation rules (`validate`), editing (`edit`),
  Kahn's evaluation order (`topo`) and WGSL generation (`codegen`). Float
  constants are held as `scalar::Scalar`: the IEEE-754 bit pattern the checks
  read and the decimal text the generator writes; validation accepts only
  finite patterns with a plain decimal text, so a constant is always written
  as a number.
- `src/menu.rs` — which texts the game-flow menu shows in each phase.
- `src/package.rs` — names of packaged model files and resources, and the
  glTF sources they come from.
- `src/hud.rs` — which scene texts the HUD pass draws.
- `src/flap_route.rs` — the decisions of the Flap Woods acceptance route.
- `app/` — JSON documents (serde copies of the graph types), file packaging,
  menu pixel layout and the acceptance driver.
