//! The kinds of drawable things in the game.

use vstd::prelude::*;

verus! {

/// What an entity is drawn as.
#[derive(Debug, Clone, Copy, PartialEq, Eq, Hash, Structural)]
pub enum AssetType {
    Food,
    Snake,
    Tail,
    Arrow,
}

impl AssetType {
    /// The name under which the mesh and the material of this kind are kept.
    pub open spec fn spec_name(self) -> Seq<char> {
        match self {
            AssetType::Food => "Food"@,
            AssetType::Snake => "Snake"@,
            AssetType::Tail => "Tail"@,
            AssetType::Arrow => "Arrow"@,
        }
    }

    /// The name under which the mesh and the material of this kind are kept.
    pub fn name(&self) -> (s: &'static str)
        ensures
            s@ == self.spec_name(),
    {
        match self {
            AssetType::Food => "Food",
            AssetType::Snake => "Snake",
            AssetType::Tail => "Tail",
            AssetType::Arrow => "Arrow",
        }
    }
}

} // verus!
