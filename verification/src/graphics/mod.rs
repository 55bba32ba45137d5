//! What the simulation hands to whoever draws it.

pub mod font;
pub mod renderer;
