//! The screen that shows while the game is paused.

use vstd::prelude::*;
use crate::components::{Input, Key};
use crate::stages::NextStage;

verus! {

/// The paused screen. It leaves once the player asked to go back.
#[derive(Debug, Clone, Copy, PartialEq, Eq, Structural)]
pub struct Paused {
    pub go_back: bool,
}

impl Paused {
    /// The paused screen as it is first shown.
    pub fn new() -> (paused: Self)
        ensures
            paused == (Paused { go_back: false }),
    {
        Paused { go_back: false }
    }
}

impl Paused {
    /// Asks to leave once the player asked to go back, and to stay until
    /// then.
    pub fn update(&mut self, input: &Input) -> (next: NextStage)
        ensures
            *final(self) == *old(self),
            old(self).go_back ==> next is Pop,
            !old(self).go_back ==> next is Noop,
    {
        if self.go_back {
            return NextStage::Pop;
        }
        NextStage::Noop
    }

    /// Takes a key that went down: the escape key, unless it repeats, asks
    /// to go back.
    pub fn key_down_event(&mut self, key: Key, repeat: bool)
        ensures
            final(self).go_back == (old(self).go_back || (!repeat && key == Key::Escape)),
    {
        if repeat {
            return ;
        }
        if key == Key::Escape {
            self.go_back = true;
        }
    }
}

impl Default for Paused {
    fn default() -> (paused: Self)
        ensures
            paused == (Paused { go_back: false }),
    {
        Paused { go_back: false }
    }
}

} // verus!
