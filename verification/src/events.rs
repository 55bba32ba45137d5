//! What happened during a tick. Events are pushed by the systems that detect
//! something and read by the systems that respond; none outlives its tick.

use vstd::prelude::*;
use crate::components::{CollsionKind, GridVec};

verus! {

#[derive(Debug, Clone, Copy)]
pub enum Event {
    Noop,
    /// The head ate the food `entity`, which lay at `pos`.
    SnakeEatFood { entity: hecs::Entity, pos: GridVec },
    /// A tail segment is to be spawned at `pos`, behind `ahead`.
    SpawnSnakeTail { ahead: hecs::Entity, pos: GridVec, segment: usize },
    /// The head `source` is about to step onto `target`, which is at `pos`.
    Collision { target: hecs::Entity, source: hecs::Entity, pos: GridVec, kind: CollsionKind },
    /// The head ran into the snake.
    GameOver,
}

} // verus!
