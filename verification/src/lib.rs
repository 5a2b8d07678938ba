//! Typed surface shader graphs for the scene renderer — validation, editing
//! and WGSL generation — with the rules around them: packaged model file
//! names, the game-flow menu, the HUD draw list and the Flap Woods
//! acceptance route.
pub mod text;
pub mod scalar;
pub mod shader_graph;
pub mod menu;
pub mod package;
pub mod hud;
pub mod flap_route;
