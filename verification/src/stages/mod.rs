//! The screens of the game and how one gives way to another.

pub mod game;
pub mod paused;

use vstd::prelude::*;
use crate::components::Input;
use crate::graphics::renderer::RenderAssetCommands;
use crate::stages::game::{GameState, game_entered, game_exited, game_updated};
use crate::stages::paused::Paused;

verus! {

/// A screen: the running game, or the pause over it.
pub enum Stage {
    Game(GameState),
    Paused(Paused),
}

/// What a screen asks for at the end of its update: to stay, to leave, or
/// to have another screen put over it.
pub enum NextStage {
    Noop,
    Pop,
    Push(Stage),
}

/// The screens that are open, the one that is shown last.
pub type StageStack = Vec<Stage>;

/// An empty stack of screens with room for `capacity` of them.
pub fn new_stage_stack(capacity: usize) -> (stages: StageStack)
    ensures
        stages@.len() == 0,
{
    Vec::with_capacity(capacity)
}

impl Stage {
    /// Whether the screen can come to the top at `now`.
    pub open spec fn can_enter(self, now: i64) -> bool {
        match self {
            Stage::Game(g) => g.move_timer.can_resume(now) && g.food_timer.can_resume(now),
            Stage::Paused(_) => true,
        }
    }

    /// Whether the screen can be updated.
    pub open spec fn can_update(self) -> bool {
        match self {
            Stage::Game(g) => g.wf() && g.can_tick(),
            Stage::Paused(_) => true,
        }
    }

    /// Whether `after` is the screen `self` after it came to the top at
    /// `now`.
    pub open spec fn entered(self, after: Stage, now: i64) -> bool {
        match (self, after) {
            (Stage::Game(a), Stage::Game(b)) => game_entered(a, b, now),
            (Stage::Paused(a), Stage::Paused(b)) => b == a,
            _ => false,
        }
    }

    /// Whether `after` is the screen `self` after it left the top at `now`.
    pub open spec fn exited(self, after: Stage, now: i64) -> bool {
        match (self, after) {
            (Stage::Game(a), Stage::Game(b)) => game_exited(a, b, now),
            (Stage::Paused(a), Stage::Paused(b)) => b == a,
            _ => false,
        }
    }

    /// Whether `after`, with the commands `c1` and the request `next`, is
    /// what an update at `now` makes of the screen `self` with the commands
    /// `c0`.
    pub open spec fn updated(
        self,
        input: Input,
        now: i64,
        c0: Seq<RenderAssetCommands>,
        after: Stage,
        c1: Seq<RenderAssetCommands>,
        next: NextStage,
    ) -> bool {
        match (self, after) {
            (Stage::Game(a), Stage::Game(b)) => game_updated(a, input, now, c0, b, c1, next),
            (Stage::Paused(a), Stage::Paused(b)) => b == a && c1 == c0 && (if a.go_back {
                next is Pop
            } else {
                next is Noop
            }),
            _ => false,
        }
    }

    /// The screen comes to the top at `now`.
    pub fn enter(&mut self, now: i64)
        requires
            old(self).can_enter(now),
        ensures
            old(self).entered(*final(self), now),
    {
        match self {
            Stage::Game(g) => {
                g.enter(now);
            },
            Stage::Paused(_) => {},
        }
    }

    /// The screen leaves the top at `now`.
    pub fn exit(&mut self, now: i64)
        ensures
            old(self).exited(*final(self), now),
    {
        match self {
            Stage::Game(g) => {
                g.exit(now);
            },
            Stage::Paused(_) => {},
        }
    }

    /// Updates the screen at `now` and says what it asks for.
    pub fn update(
        &mut self,
        input: &Input,
        now: i64,
        asset_commands: &mut Vec<RenderAssetCommands>,
    ) -> (next: NextStage)
        requires
            old(self).can_update(),
        ensures
            old(self).updated(
                *input,
                now,
                old(asset_commands)@,
                *final(self),
                final(asset_commands)@,
                next,
            ),
    {
        match self {
            Stage::Game(g) => g.update(input, now, asset_commands),
            Stage::Paused(p) => p.update(input),
        }
    }
}

/// Whether `after` is the stack `before` after its top screen `top`, as its
/// update left it, asked for `next` at `now`: to stay, it stays on top; to
/// have a screen put over it, it leaves the top and the new screen comes to
/// it; to leave, it is taken off and the screen below comes to the top.
pub open spec fn stack_turned(
    before: Seq<Stage>,
    top: Stage,
    next: NextStage,
    now: i64,
    after: Seq<Stage>,
) -> bool {
    let below = before.drop_last();
    match next {
        NextStage::Noop => after == below.push(top),
        NextStage::Push(new) => after.len() == before.len() + 1 && after.take(
            below.len() as int,
        ) == below && top.exited(after[below.len() as int], now) && new.entered(
            after.last(),
            now,
        ),
        NextStage::Pop => after.len() == below.len() && (below.len() > 0 ==> after.drop_last()
            == below.drop_last() && below.last().entered(after.last(), now)),
    }
}

/// Updates the screen on top of the stack at `now` and does what it asks
/// for, then forgets the requests of the input. With no screen open nothing
/// happens, and the input stays.
pub fn update_stages(
    stages: &mut StageStack,
    input: &mut Input,
    now: i64,
    asset_commands: &mut Vec<RenderAssetCommands>,
)
    requires
        old(stages)@.len() > 0 ==> old(stages)@.last().can_update(),
        old(stages)@.len() > 1 ==> old(stages)@[old(stages)@.len() - 2].can_enter(now),
    ensures
        old(stages)@.len() == 0 ==> final(stages)@ == old(stages)@ && *final(input) == *old(input)
            && final(asset_commands)@ == old(asset_commands)@,
        old(stages)@.len() > 0 ==> *final(input) == Input::spec_cleared(
            old(input).width,
            old(input).height,
        ),
        old(stages)@.len() > 0 ==> exists|top: Stage, next: NextStage|
            #![trigger stack_turned(old(stages)@, top, next, now, final(stages)@)]
            old(stages)@.last().updated(
                *old(input),
                now,
                old(asset_commands)@,
                top,
                final(asset_commands)@,
                next,
            ) && stack_turned(old(stages)@, top, next, now, final(stages)@),
{
    let ghost before = stages@;
    let mut stage = match stages.pop() {
        Some(s) => s,
        None => {
            return ;
        },
    };
    let ghost below = stages@;
    proof {
        assert(below =~= before.drop_last());
    }
    let next_stage = stage.update(input, now, asset_commands);
    let ghost top = stage;
    let ghost asked = next_stage;
    match next_stage {
        NextStage::Push(new_stage) => {
            let mut new_stage = new_stage;
            stage.exit(now);
            new_stage.enter(now);
            stages.push(stage);
            stages.push(new_stage);
            proof {
                assert(stages@.take(below.len() as int) =~= below);
            }
        },
        NextStage::Pop => {
            stage.exit(now);
            match stages.pop() {
                Some(s) => {
                    let mut s = s;
                    s.enter(now);
                    stages.push(s);
                    proof {
                        assert(stages@.drop_last() =~= below.drop_last());
                    }
                },
                None => {},
            }
        },
        NextStage::Noop => {
            stages.push(stage);
        },
    }
    input.reset();
    proof {
        assert(stack_turned(before, top, asked, now, stages@));
    }
}

} // verus!
