use vstd::prelude::*;

verus! {

/// Surface pins. Float and Vector (linear RGB or 3D) only; texturing comes from
/// the drawable's existing five material map slots.
#[derive(Clone, Copy, Debug, PartialEq, Eq, Structural)]
pub enum PinType {
    Float,
    Vector,
}

/// Material map a Texture Sample node reads. Names match the renderer's bindings.
#[derive(Clone, Copy, Debug, PartialEq, Eq, Structural)]
pub enum TextureSlot {
    BaseColor,
    Normal,
    MetallicRoughness,
    Occlusion,
    Emissive,
}

/// The (texture, sampler) binding names of a material map slot.
pub open spec fn slot_bindings(slot: TextureSlot) -> (Seq<char>, Seq<char>) {
    match slot {
        TextureSlot::BaseColor => ("color_texture"@, "color_sampler"@),
        TextureSlot::Normal => ("normal_texture"@, "normal_sampler"@),
        TextureSlot::MetallicRoughness => ("mr_texture"@, "mr_sampler"@),
        TextureSlot::Occlusion => ("ao_texture"@, "ao_sampler"@),
        TextureSlot::Emissive => ("emissive_texture"@, "emissive_sampler"@),
    }
}

impl TextureSlot {
    /// Binding names provided by both scene fragment shader hosts.
    pub fn bindings(self) -> (r: (&'static str, &'static str))
        ensures
            (r.0@, r.1@) == slot_bindings(self),
    {
        match self {
            TextureSlot::BaseColor => ("color_texture", "color_sampler"),
            TextureSlot::Normal => ("normal_texture", "normal_sampler"),
            TextureSlot::MetallicRoughness => ("mr_texture", "mr_sampler"),
            TextureSlot::Occlusion => ("ao_texture", "ao_sampler"),
            TextureSlot::Emissive => ("emissive_texture", "emissive_sampler"),
        }
    }
}


#[derive(Clone, Copy, Debug, PartialEq, Eq, Structural)]
pub enum NodeKind {
    Master,
    Time,
    UV,
    WorldNormal,
    WorldPosition,
    ViewDirection,
    Float,
    Color,
    Vector,
    TextureSample,
    Add,
    Subtract,
    Multiply,
    Divide,
    Power,
    Sine,
    Clamp,
    Lerp,
    OneMinus,
    AddVector,
    MultiplyVectors,
    ScaleVector,
    LerpVector,
    Dot,
    Normalize,
    Append,
    Split,
}
/// Display name of a node kind in the editor palette.
pub open spec fn kind_label(kind: NodeKind) -> Seq<char> {
    match kind {
        NodeKind::Master => "Master"@,
        NodeKind::Time => "Time"@,
        NodeKind::UV => "UV"@,
        NodeKind::WorldNormal => "World Normal"@,
        NodeKind::WorldPosition => "World Position"@,
        NodeKind::ViewDirection => "View Direction"@,
        NodeKind::Float => "Float"@,
        NodeKind::Color => "Color"@,
        NodeKind::Vector => "Vector"@,
        NodeKind::TextureSample => "Texture Sample"@,
        NodeKind::Add => "Add"@,
        NodeKind::Subtract => "Subtract"@,
        NodeKind::Multiply => "Multiply"@,
        NodeKind::Divide => "Divide"@,
        NodeKind::Power => "Power"@,
        NodeKind::Sine => "Sine"@,
        NodeKind::Clamp => "Clamp"@,
        NodeKind::Lerp => "Lerp"@,
        NodeKind::OneMinus => "One Minus"@,
        NodeKind::AddVector => "Add Vectors"@,
        NodeKind::MultiplyVectors => "Multiply Vectors"@,
        NodeKind::ScaleVector => "Scale Vector"@,
        NodeKind::LerpVector => "Lerp Vectors"@,
        NodeKind::Dot => "Dot Product"@,
        NodeKind::Normalize => "Normalize"@,
        NodeKind::Append => "Make Vector"@,
        NodeKind::Split => "Split Vector"@,
    }
}
/// Input pins of a node kind: (label, type), in port order.
pub open spec fn input_pins(kind: NodeKind) -> Seq<(Seq<char>, PinType)> {
    match kind {
        NodeKind::Master => seq![("Base Color"@, PinType::Vector), ("Metallic"@, PinType::Float), ("Roughness"@, PinType::Float), ("Emissive"@, PinType::Vector), ("Alpha"@, PinType::Float), ("Normal"@, PinType::Vector)],
        NodeKind::Time => Seq::empty(),
        NodeKind::UV => Seq::empty(),
        NodeKind::WorldNormal => Seq::empty(),
        NodeKind::WorldPosition => Seq::empty(),
        NodeKind::ViewDirection => Seq::empty(),
        NodeKind::Float => seq![("Value"@, PinType::Float)],
        NodeKind::Color => seq![("Value"@, PinType::Vector)],
        NodeKind::Vector => seq![("Value"@, PinType::Vector)],
        NodeKind::TextureSample => seq![("UV"@, PinType::Vector)],
        NodeKind::Add => seq![("A"@, PinType::Float), ("B"@, PinType::Float)],
        NodeKind::Subtract => seq![("A"@, PinType::Float), ("B"@, PinType::Float)],
        NodeKind::Multiply => seq![("A"@, PinType::Float), ("B"@, PinType::Float)],
        NodeKind::Divide => seq![("A"@, PinType::Float), ("B"@, PinType::Float)],
        NodeKind::Power => seq![("Base"@, PinType::Float), ("Exponent"@, PinType::Float)],
        NodeKind::Sine => seq![("Value"@, PinType::Float)],
        NodeKind::Clamp => seq![("Value"@, PinType::Float), ("Min"@, PinType::Float), ("Max"@, PinType::Float)],
        NodeKind::Lerp => seq![("A"@, PinType::Float), ("B"@, PinType::Float), ("Factor"@, PinType::Float)],
        NodeKind::OneMinus => seq![("Value"@, PinType::Float)],
        NodeKind::AddVector => seq![("A"@, PinType::Vector), ("B"@, PinType::Vector)],
        NodeKind::MultiplyVectors => seq![("A"@, PinType::Vector), ("B"@, PinType::Vector)],
        NodeKind::ScaleVector => seq![("Vector"@, PinType::Vector), ("Factor"@, PinType::Float)],
        NodeKind::LerpVector => seq![("A"@, PinType::Vector), ("B"@, PinType::Vector), ("Factor"@, PinType::Float)],
        NodeKind::Dot => seq![("A"@, PinType::Vector), ("B"@, PinType::Vector)],
        NodeKind::Normalize => seq![("Value"@, PinType::Vector)],
        NodeKind::Append => seq![("X"@, PinType::Float), ("Y"@, PinType::Float), ("Z"@, PinType::Float)],
        NodeKind::Split => seq![("Value"@, PinType::Vector)],
    }
}
/// Output pins of a node kind: (label, type), in port order.
pub open spec fn output_pins(kind: NodeKind) -> Seq<(Seq<char>, PinType)> {
    match kind {
        NodeKind::Master => Seq::empty(),
        NodeKind::Time => seq![("Value"@, PinType::Float)],
        NodeKind::UV => seq![("Value"@, PinType::Vector)],
        NodeKind::WorldNormal => seq![("Value"@, PinType::Vector)],
        NodeKind::WorldPosition => seq![("Value"@, PinType::Vector)],
        NodeKind::ViewDirection => seq![("Value"@, PinType::Vector)],
        NodeKind::Float => seq![("Value"@, PinType::Float)],
        NodeKind::Color => seq![("Value"@, PinType::Vector)],
        NodeKind::Vector => seq![("Value"@, PinType::Vector)],
        NodeKind::TextureSample => seq![("Color"@, PinType::Vector), ("Alpha"@, PinType::Float)],
        NodeKind::Add => seq![("Value"@, PinType::Float)],
        NodeKind::Subtract => seq![("Value"@, PinType::Float)],
        NodeKind::Multiply => seq![("Value"@, PinType::Float)],
        NodeKind::Divide => seq![("Value"@, PinType::Float)],
        NodeKind::Power => seq![("Value"@, PinType::Float)],
        NodeKind::Sine => seq![("Value"@, PinType::Float)],
        NodeKind::Clamp => seq![("Value"@, PinType::Float)],
        NodeKind::Lerp => seq![("Value"@, PinType::Float)],
        NodeKind::OneMinus => seq![("Value"@, PinType::Float)],
        NodeKind::AddVector => seq![("Value"@, PinType::Vector)],
        NodeKind::MultiplyVectors => seq![("Value"@, PinType::Vector)],
        NodeKind::ScaleVector => seq![("Value"@, PinType::Vector)],
        NodeKind::LerpVector => seq![("Value"@, PinType::Vector)],
        NodeKind::Dot => seq![("Value"@, PinType::Float)],
        NodeKind::Normalize => seq![("Value"@, PinType::Vector)],
        NodeKind::Append => seq![("Value"@, PinType::Vector)],
        NodeKind::Split => seq![("X"@, PinType::Float), ("Y"@, PinType::Float), ("Z"@, PinType::Float)],
    }
}

/// The views of a static pin table.
pub open spec fn pin_table_view(table: Seq<(&'static str, PinType)>) -> Seq<(Seq<char>, PinType)> {
    table.map_values(|p: (&'static str, PinType)| (p.0@, p.1))
}

impl NodeKind {
    pub fn label(self) -> (r: &'static str)
        ensures
            r@ == kind_label(self),
    {
        match self {
            NodeKind::Master => "Master",
            NodeKind::Time => "Time",
            NodeKind::UV => "UV",
            NodeKind::WorldNormal => "World Normal",
            NodeKind::WorldPosition => "World Position",
            NodeKind::ViewDirection => "View Direction",
            NodeKind::Float => "Float",
            NodeKind::Color => "Color",
            NodeKind::Vector => "Vector",
            NodeKind::TextureSample => "Texture Sample",
            NodeKind::Add => "Add",
            NodeKind::Subtract => "Subtract",
            NodeKind::Multiply => "Multiply",
            NodeKind::Divide => "Divide",
            NodeKind::Power => "Power",
            NodeKind::Sine => "Sine",
            NodeKind::Clamp => "Clamp",
            NodeKind::Lerp => "Lerp",
            NodeKind::OneMinus => "One Minus",
            NodeKind::AddVector => "Add Vectors",
            NodeKind::MultiplyVectors => "Multiply Vectors",
            NodeKind::ScaleVector => "Scale Vector",
            NodeKind::LerpVector => "Lerp Vectors",
            NodeKind::Dot => "Dot Product",
            NodeKind::Normalize => "Normalize",
            NodeKind::Append => "Make Vector",
            NodeKind::Split => "Split Vector",
        }
    }

    pub fn inputs(self) -> (r: &'static [(&'static str, PinType)])
        ensures
            pin_table_view(r@) == input_pins(self),
    {
        let r: &'static [(&'static str, PinType)] = match self {
            NodeKind::Master => &[("Base Color", PinType::Vector), ("Metallic", PinType::Float), ("Roughness", PinType::Float), ("Emissive", PinType::Vector), ("Alpha", PinType::Float), ("Normal", PinType::Vector)],
            NodeKind::Time => &[],
            NodeKind::UV => &[],
            NodeKind::WorldNormal => &[],
            NodeKind::WorldPosition => &[],
            NodeKind::ViewDirection => &[],
            NodeKind::Float => &[("Value", PinType::Float)],
            NodeKind::Color => &[("Value", PinType::Vector)],
            NodeKind::Vector => &[("Value", PinType::Vector)],
            NodeKind::TextureSample => &[("UV", PinType::Vector)],
            NodeKind::Add => &[("A", PinType::Float), ("B", PinType::Float)],
            NodeKind::Subtract => &[("A", PinType::Float), ("B", PinType::Float)],
            NodeKind::Multiply => &[("A", PinType::Float), ("B", PinType::Float)],
            NodeKind::Divide => &[("A", PinType::Float), ("B", PinType::Float)],
            NodeKind::Power => &[("Base", PinType::Float), ("Exponent", PinType::Float)],
            NodeKind::Sine => &[("Value", PinType::Float)],
            NodeKind::Clamp => &[("Value", PinType::Float), ("Min", PinType::Float), ("Max", PinType::Float)],
            NodeKind::Lerp => &[("A", PinType::Float), ("B", PinType::Float), ("Factor", PinType::Float)],
            NodeKind::OneMinus => &[("Value", PinType::Float)],
            NodeKind::AddVector => &[("A", PinType::Vector), ("B", PinType::Vector)],
            NodeKind::MultiplyVectors => &[("A", PinType::Vector), ("B", PinType::Vector)],
            NodeKind::ScaleVector => &[("Vector", PinType::Vector), ("Factor", PinType::Float)],
            NodeKind::LerpVector => &[("A", PinType::Vector), ("B", PinType::Vector), ("Factor", PinType::Float)],
            NodeKind::Dot => &[("A", PinType::Vector), ("B", PinType::Vector)],
            NodeKind::Normalize => &[("Value", PinType::Vector)],
            NodeKind::Append => &[("X", PinType::Float), ("Y", PinType::Float), ("Z", PinType::Float)],
            NodeKind::Split => &[("Value", PinType::Vector)],
        };
        assert(pin_table_view(r@) =~= input_pins(self));
        r
    }

    pub fn outputs(self) -> (r: &'static [(&'static str, PinType)])
        ensures
            pin_table_view(r@) == output_pins(self),
    {
        let r: &'static [(&'static str, PinType)] = match self {
            NodeKind::Master => &[],
            NodeKind::Time => &[("Value", PinType::Float)],
            NodeKind::UV => &[("Value", PinType::Vector)],
            NodeKind::WorldNormal => &[("Value", PinType::Vector)],
            NodeKind::WorldPosition => &[("Value", PinType::Vector)],
            NodeKind::ViewDirection => &[("Value", PinType::Vector)],
            NodeKind::Float => &[("Value", PinType::Float)],
            NodeKind::Color => &[("Value", PinType::Vector)],
            NodeKind::Vector => &[("Value", PinType::Vector)],
            NodeKind::TextureSample => &[("Color", PinType::Vector), ("Alpha", PinType::Float)],
            NodeKind::Add => &[("Value", PinType::Float)],
            NodeKind::Subtract => &[("Value", PinType::Float)],
            NodeKind::Multiply => &[("Value", PinType::Float)],
            NodeKind::Divide => &[("Value", PinType::Float)],
            NodeKind::Power => &[("Value", PinType::Float)],
            NodeKind::Sine => &[("Value", PinType::Float)],
            NodeKind::Clamp => &[("Value", PinType::Float)],
            NodeKind::Lerp => &[("Value", PinType::Float)],
            NodeKind::OneMinus => &[("Value", PinType::Float)],
            NodeKind::AddVector => &[("Value", PinType::Vector)],
            NodeKind::MultiplyVectors => &[("Value", PinType::Vector)],
            NodeKind::ScaleVector => &[("Value", PinType::Vector)],
            NodeKind::LerpVector => &[("Value", PinType::Vector)],
            NodeKind::Dot => &[("Value", PinType::Float)],
            NodeKind::Normalize => &[("Value", PinType::Vector)],
            NodeKind::Append => &[("Value", PinType::Vector)],
            NodeKind::Split => &[("X", PinType::Float), ("Y", PinType::Float), ("Z", PinType::Float)],
        };
        assert(pin_table_view(r@) =~= output_pins(self));
        r
    }
}

impl TextureSlot {
    pub const ALL: [TextureSlot; 5] = [
        TextureSlot::BaseColor,
        TextureSlot::Normal,
        TextureSlot::MetallicRoughness,
        TextureSlot::Occlusion,
        TextureSlot::Emissive,
    ];
}

impl Default for TextureSlot {
    fn default() -> (r: TextureSlot)
        ensures
            r == TextureSlot::BaseColor,
    {
        TextureSlot::BaseColor
    }
}

impl NodeKind {
    /// Palette order for the node editor; Master is managed automatically.
    pub const ALL: [NodeKind; 26] = [
        NodeKind::Time,
        NodeKind::UV,
        NodeKind::WorldNormal,
        NodeKind::WorldPosition,
        NodeKind::ViewDirection,
        NodeKind::Float,
        NodeKind::Color,
        NodeKind::Vector,
        NodeKind::TextureSample,
        NodeKind::Add,
        NodeKind::Subtract,
        NodeKind::Multiply,
        NodeKind::Divide,
        NodeKind::Power,
        NodeKind::Sine,
        NodeKind::Clamp,
        NodeKind::Lerp,
        NodeKind::OneMinus,
        NodeKind::AddVector,
        NodeKind::MultiplyVectors,
        NodeKind::ScaleVector,
        NodeKind::LerpVector,
        NodeKind::Dot,
        NodeKind::Normalize,
        NodeKind::Append,
        NodeKind::Split,
    ];
}

} // verus!
