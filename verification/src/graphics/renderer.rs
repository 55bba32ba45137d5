//! The commands that the simulation gives to the renderer: what to draw this
//! frame, and which texts to prepare.

use vstd::prelude::*;
use crate::assets::AssetType;
use crate::components::{Direction, GridVec};

verus! {

/// One sprite to draw: its kind, the cell it is on, the way it points and
/// the number of indices of its mesh. A sprite without a heading is drawn
/// unrotated; one with a heading is turned to point that way.
#[derive(Debug, Clone, Copy, PartialEq, Eq, Structural)]
pub struct SpriteRenderCommand {
    pub binding: AssetType,
    pub position: GridVec,
    pub heading: Option<Direction>,
    pub num_of_elements: i32,
}

/// One text to draw, in a font, at a cell.
#[derive(Debug)]
pub struct RenderFontCommand {
    pub font: String,
    pub text: String,
    pub position: GridVec,
}

/// A `RenderFontCommand` with its strings as sequences of characters.
pub struct FontCommandView {
    pub font: Seq<char>,
    pub text: Seq<char>,
    pub position: GridVec,
}

impl View for RenderFontCommand {
    type V = FontCommandView;

    open spec fn view(&self) -> FontCommandView {
        FontCommandView { font: self.font@, text: self.text@, position: self.position }
    }
}

/// A request to prepare the geometry of a text, or to replace that of one
/// text by that of another.
#[derive(Debug)]
pub enum RenderAssetCommands {
    LoadText { text: String, font: String },
    UpdateText { new_text: String, text: String, font: String },
}

/// A `RenderAssetCommands` with its strings as sequences of characters.
pub enum AssetCommandView {
    LoadText { text: Seq<char>, font: Seq<char> },
    UpdateText { new_text: Seq<char>, text: Seq<char>, font: Seq<char> },
}

impl View for RenderAssetCommands {
    type V = AssetCommandView;

    open spec fn view(&self) -> AssetCommandView {
        match self {
            RenderAssetCommands::LoadText { text, font } => AssetCommandView::LoadText {
                text: text@,
                font: font@,
            },
            RenderAssetCommands::UpdateText {
                new_text,
                text,
                font,
            } => AssetCommandView::UpdateText { new_text: new_text@, text: text@, font: font@ },
        }
    }
}

} // verus!
