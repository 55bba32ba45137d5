//! The plain data that entities carry, the input snapshot and the timers.

use vstd::prelude::*;
use crate::graphics::renderer::{AssetCommandView, RenderAssetCommands};

verus! {

/// A pair of whole grid coordinates: a cell of the playfield, or a step
/// between two cells.
#[derive(Debug, Clone, Copy, PartialEq, Eq, Hash, Structural)]
pub struct GridVec {
    pub x: i32,
    pub y: i32,
}

impl GridVec {
    pub fn new(x: i32, y: i32) -> (v: Self)
        ensures
            v.x == x,
            v.y == y,
    {
        GridVec { x, y }
    }

    /// Whether the sum of the two, taken coordinate by coordinate, is again a
    /// pair of `i32`.
    pub open spec fn can_add(self, step: GridVec) -> bool {
        &&& i32::MIN <= self.x + step.x <= i32::MAX
        &&& i32::MIN <= self.y + step.y <= i32::MAX
    }

    /// The sum of the two, coordinate by coordinate.
    pub open spec fn spec_plus(self, step: GridVec) -> GridVec
        recommends
            self.can_add(step),
    {
        GridVec { x: (self.x + step.x) as i32, y: (self.y + step.y) as i32 }
    }

    /// The sum of the two, coordinate by coordinate.
    pub fn plus(self, step: GridVec) -> (v: GridVec)
        requires
            self.can_add(step),
        ensures
            v == self.spec_plus(step),
            v.x == self.x + step.x,
            v.y == self.y + step.y,
    {
        GridVec { x: self.x + step.x, y: self.y + step.y }
    }

    /// Whether `self` is the additive inverse of `other`.
    pub open spec fn spec_opposes(self, other: GridVec) -> bool {
        self.x + other.x == 0 && self.y + other.y == 0
    }

    /// Whether `self` is the additive inverse of `other`.
    pub fn opposes(&self, other: &GridVec) -> (b: bool)
        ensures
            b == self.spec_opposes(*other),
    {
        let sx: i64 = self.x as i64 + other.x as i64;
        let sy: i64 = self.y as i64 + other.y as i64;
        sx == 0 && sy == 0
    }

    /// Whether `self` lies one `step` away from `from`.
    pub open spec fn spec_is_step_from(self, from: GridVec, step: GridVec) -> bool {
        self.x == from.x + step.x && self.y == from.y + step.y
    }

    /// Whether `self` lies one `step` away from `from`. The sum is taken in
    /// wider integers, so every pair of arguments is allowed.
    pub fn is_step_from(&self, from: &GridVec, step: &GridVec) -> (b: bool)
        ensures
            b == self.spec_is_step_from(*from, *step),
    {
        let tx: i64 = from.x as i64 + step.x as i64;
        let ty: i64 = from.y as i64 + step.y as i64;
        self.x as i64 == tx && self.y as i64 == ty
    }
}

/// What the player asked for since the last tick, and the size of the window.
#[derive(Debug, Clone, Copy, PartialEq, Eq, Structural)]
pub struct Input {
    pub go_left: bool,
    pub go_right: bool,
    pub go_up: bool,
    pub go_down: bool,
    pub go_back: bool,
    pub pause: bool,
    pub width: u32,
    pub height: u32,
    pub resized: bool,
}

impl Default for Input {
    fn default() -> (input: Self)
        ensures
            input == Input::spec_cleared(0, 0),
    {
        Input {
            go_left: false,
            go_right: false,
            go_up: false,
            go_down: false,
            go_back: false,
            pause: false,
            width: 0,
            height: 0,
            resized: false,
        }
    }
}

/// A key of the keyboard, as far as the game tells keys apart.
#[derive(Debug, Clone, Copy, PartialEq, Eq, Structural)]
pub enum Key {
    Left,
    Right,
    Up,
    Down,
    A,
    D,
    W,
    S,
    Escape,
    Other,
}

impl Input {
    /// The snapshot after a key went down: an arrow key or its letter asks
    /// for that direction, the escape key asks both to pause and to go back,
    /// and a key that repeats, or any other key, asks for nothing.
    pub open spec fn spec_key_down(self, key: Key, repeat: bool) -> Input {
        if repeat {
            self
        } else {
            match key {
                Key::Left | Key::A => Input { go_left: true, ..self },
                Key::Right | Key::D => Input { go_right: true, ..self },
                Key::Up | Key::W => Input { go_up: true, ..self },
                Key::Down | Key::S => Input { go_down: true, ..self },
                Key::Escape => Input { pause: true, go_back: true, ..self },
                Key::Other => self,
            }
        }
    }

    /// Takes a key that went down into the snapshot.
    pub fn key_down(&mut self, key: Key, repeat: bool)
        ensures
            *final(self) == old(self).spec_key_down(key, repeat),
    {
        if repeat {
            return ;
        }
        match key {
            Key::Left | Key::A => {
                self.go_left = true;
            },
            Key::Right | Key::D => {
                self.go_right = true;
            },
            Key::Up | Key::W => {
                self.go_up = true;
            },
            Key::Down | Key::S => {
                self.go_down = true;
            },
            Key::Escape => {
                self.pause = true;
                self.go_back = true;
            },
            Key::Other => {},
        }
    }

    /// Takes a new size of the window into the snapshot.
    pub fn resize(&mut self, width: u32, height: u32)
        ensures
            *final(self) == (Input { width, height, resized: true, ..*old(self) }),
    {
        self.width = width;
        self.height = height;
        self.resized = true;
    }

    /// The snapshot in which nothing was asked for, for a window of the given
    /// size.
    pub open spec fn spec_cleared(width: u32, height: u32) -> Input {
        Input {
            go_left: false,
            go_right: false,
            go_up: false,
            go_down: false,
            go_back: false,
            pause: false,
            width,
            height,
            resized: false,
        }
    }

    /// Forgets every request and keeps the size of the window.
    pub fn reset(&mut self)
        ensures
            *final(self) == Input::spec_cleared(old(self).width, old(self).height),
    {
        *self = Input {
            go_left: false,
            go_right: false,
            go_up: false,
            go_down: false,
            go_back: false,
            pause: false,
            width: self.width,
            height: self.height,
            resized: false,
        };
    }

    /// The direction asked for. Where several are held at once, left wins
    /// over right, right over down, and down over up.
    pub open spec fn spec_direction(self) -> Option<Direction> {
        if self.go_left {
            Some(Direction::Left)
        } else if self.go_right {
            Some(Direction::Right)
        } else if self.go_down {
            Some(Direction::Down)
        } else if self.go_up {
            Some(Direction::Up)
        } else {
            None
        }
    }

    /// The direction asked for. Where several are held at once, left wins
    /// over right, right over down, and down over up.
    pub fn direction(&self) -> (d: Option<Direction>)
        ensures
            d == self.spec_direction(),
    {
        if self.go_left {
            Some(Direction::Left)
        } else if self.go_right {
            Some(Direction::Right)
        } else if self.go_down {
            Some(Direction::Down)
        } else if self.go_up {
            Some(Direction::Up)
        } else {
            None
        }
    }
}

/// One of the four ways the head can face.
#[derive(Debug, Clone, Copy, PartialEq, Eq, Structural)]
pub enum Direction {
    Up,
    Right,
    Down,
    Left,
}

impl Direction {
    /// The unit step in this direction.
    pub open spec fn spec_velocity(self) -> GridVec {
        match self {
            Direction::Up => GridVec { x: 0, y: 1 },
            Direction::Right => GridVec { x: 1, y: 0 },
            Direction::Down => GridVec { x: 0, y: -1i32 },
            Direction::Left => GridVec { x: -1i32, y: 0 },
        }
    }

    /// The unit step in this direction.
    pub fn velocity(&self) -> (v: GridVec)
        ensures
            v == self.spec_velocity(),
    {
        match self {
            Direction::Up => GridVec { x: 0, y: 1 },
            Direction::Right => GridVec { x: 1, y: 0 },
            Direction::Down => GridVec { x: 0, y: -1 },
            Direction::Left => GridVec { x: -1, y: 0 },
        }
    }

    /// The direction that faces the other way.
    pub open spec fn spec_reverse(self) -> Direction {
        match self {
            Direction::Up => Direction::Down,
            Direction::Right => Direction::Left,
            Direction::Down => Direction::Up,
            Direction::Left => Direction::Right,
        }
    }

    /// One step of `spec_turned`: the request for `want` is granted unless
    /// the direction faces the other way, and a refusal ends the turn.
    pub open spec fn spec_try_turn(state: (Direction, bool), asked: bool, want: Direction) -> (
        Direction,
        bool,
    ) {
        if state.1 || !asked {
            state
        } else if state.0 == want.spec_reverse() {
            (state.0, true)
        } else {
            (want, false)
        }
    }

    /// The direction after the requests of `input` were taken in the order
    /// left, right, down, up. Each request that is held is granted in turn,
    /// so the last one granted stays; the first one that asks for a reversal
    /// of the direction reached so far is refused and ends the turn.
    pub open spec fn spec_turned(self, input: Input) -> Direction {
        let s0 = (self, false);
        let s1 = Self::spec_try_turn(s0, input.go_left, Direction::Left);
        let s2 = Self::spec_try_turn(s1, input.go_right, Direction::Right);
        let s3 = Self::spec_try_turn(s2, input.go_down, Direction::Down);
        let s4 = Self::spec_try_turn(s3, input.go_up, Direction::Up);
        s4.0
    }

    /// Takes the requests of `input` in the order left, right, down, up.
    pub fn update(&mut self, input: &Input)
        ensures
            *final(self) == old(self).spec_turned(*input),
    {
        if input.go_left {
            if *self == Direction::Right {
                return ;
            }
            *self = Direction::Left;
        }
        if input.go_right {
            if *self == Direction::Left {
                return ;
            }
            *self = Direction::Right;
        }
        if input.go_down {
            if *self == Direction::Up {
                return ;
            }
            *self = Direction::Down;
        }
        if input.go_up {
            if *self == Direction::Down {
                return ;
            }
            *self = Direction::Up;
        }
    }
}

impl Default for Direction {
    fn default() -> (d: Self)
        ensures
            d == Direction::Up,
    {
        Direction::Up
    }
}

/// The way the head faces, as last asked for and allowed.
#[derive(Debug, Clone, Copy, PartialEq, Eq, Structural)]
pub struct HeadDirection(pub Direction);

impl Default for HeadDirection {
    fn default() -> (d: Self)
        ensures
            d == HeadDirection(Direction::Up),
    {
        HeadDirection(Direction::Up)
    }
}

/// Marks the head of the snake.
#[derive(Debug, Clone, Copy, PartialEq, Eq, Structural)]
pub struct Snake;

/// Marks an entity as edible.
#[derive(Debug, Clone, Copy, PartialEq, Eq, Structural)]
pub struct Food;

/// Marks the entity that shows the score.
#[derive(Debug, Clone, Copy, PartialEq, Eq, Structural)]
pub struct Score;

/// A link of the tail: its place in the chain, counted from 1 at the head,
/// and the entity it follows.
#[derive(Debug, Clone, Copy)]
pub struct Tail {
    pub segment: usize,
    pub ahead: hecs::Entity,
}

/// A string to be shown, and the name of the font to show it in.
#[derive(Debug)]
pub struct Text {
    string: String,
    font: String,
}

impl Text {
    /// The string to be shown.
    pub closed spec fn spec_text(&self) -> Seq<char> {
        self.string@
    }

    /// The name of the font.
    pub closed spec fn spec_font(&self) -> Seq<char> {
        self.font@
    }

    /// The given string, in the font of the game.
    pub fn new(str: &str) -> (t: Text)
        ensures
            t.spec_text() == str@,
            t.spec_font() == "KenneyFuture"@,
    {
        Text { string: str.to_owned(), font: "KenneyFuture".to_owned() }
    }

    /// The string to be shown.
    pub fn text(&self) -> (s: String)
        ensures
            s@ == self.spec_text(),
    {
        self.string.clone()
    }

    /// The name of the font.
    pub fn font(&self) -> (s: String)
        ensures
            s@ == self.spec_font(),
    {
        self.font.clone()
    }
}

impl Text {
    /// What asks the renderer to prepare this text.
    pub open spec fn spec_load_command(&self) -> AssetCommandView {
        AssetCommandView::LoadText { text: self.spec_text(), font: self.spec_font() }
    }

    /// The text for `str`, with the command that asks the renderer to
    /// prepare it.
    pub fn create_text(str: &str) -> (made: (RenderAssetCommands, Text))
        ensures
            made.1.spec_text() == str@,
            made.1.spec_font() == "KenneyFuture"@,
            made.0@ == made.1.spec_load_command(),
    {
        let text = Text::new(str);
        let cmd = text.load_command();
        (cmd, text)
    }

    /// The command that asks the renderer to prepare this text.
    pub fn load_command(&self) -> (cmd: RenderAssetCommands)
        ensures
            cmd@ == self.spec_load_command(),
    {
        RenderAssetCommands::LoadText { text: self.string.clone(), font: self.font.clone() }
    }

    /// This text with another string in the same font.
    pub fn with_string(&self, string: String) -> (t: Text)
        ensures
            t.spec_text() == string@,
            t.spec_font() == self.spec_font(),
    {
        Text { string, font: self.font.clone() }
    }
}

impl Clone for Text {
    fn clone(&self) -> (t: Self)
        ensures
            t == *self,
    {
        Text { string: self.string.clone(), font: self.font.clone() }
    }
}

/// The cell an entity is on.
#[derive(Debug, Clone, Copy, PartialEq, Eq, Structural)]
pub struct Position(pub GridVec);

/// The step an entity takes at each movement tick.
#[derive(Debug, Clone, Copy, PartialEq, Eq, Structural)]
pub struct Velocity(pub GridVec);

/// What a struck entity is, which decides the response to the strike.
#[derive(Debug, Clone, Copy, PartialEq, Eq, Structural)]
pub enum CollsionKind {
    Snake,
    Food,
}

/// Marks an entity as something the head can run into.
#[derive(Debug, Clone, Copy, PartialEq, Eq, Structural)]
pub struct Collision {
    pub kind: CollsionKind,
}

impl Collision {
    /// The mark of a part of the snake: running into it ends the game.
    pub fn snake() -> (c: Self)
        ensures
            c == (Collision { kind: CollsionKind::Snake }),
    {
        Self { kind: CollsionKind::Snake }
    }

    /// The mark of food: running into it is eating it.
    pub fn food() -> (c: Self)
        ensures
            c == (Collision { kind: CollsionKind::Food }),
    {
        Self { kind: CollsionKind::Food }
    }
}

/// A timer: it is finished once it has run for a span of time.
/// Time is a count of ticks of the caller's clock, handed in at each call. A
/// timer can be paused and resumed; the time it spent paused does not count.
#[derive(Debug, Clone, Copy)]
pub struct Timer {
    start: i64,
    duration: i64,
    paused_time: Option<i64>,
}

impl Timer {
    /// When the timer was started, moved forward by the time it spent paused.
    pub closed spec fn spec_start(&self) -> i64 {
        self.start
    }

    /// The span after which the timer is finished.
    pub closed spec fn spec_duration(&self) -> i64 {
        self.duration
    }

    /// When the timer was paused, where it is.
    pub closed spec fn spec_paused_time(&self) -> Option<i64> {
        self.paused_time
    }

    /// The time that the timer has run at `now`: the time since its start,
    /// or, while it is paused, the time from its start to the pause.
    pub open spec fn spec_elapsed(&self, now: i64) -> int {
        match self.spec_paused_time() {
            Some(at) => at - self.spec_start(),
            None => now - self.spec_start(),
        }
    }

    /// Whether at `now` the timer has run for its whole span. A paused timer
    /// is finished only where it was at the pause.
    pub open spec fn spec_finished(&self, now: i64) -> bool {
        self.spec_elapsed(now) >= self.spec_duration()
    }

    /// A timer of the given span, started at `now`.
    pub fn new(duration: i64, now: i64) -> (timer: Self)
        ensures
            timer.spec_start() == now,
            timer.spec_duration() == duration,
            timer.spec_paused_time() is None,
    {
        Self { start: now, duration, paused_time: None }
    }

    /// Starts the timer anew at `now`.
    pub fn reset(&mut self, now: i64)
        ensures
            final(self).spec_start() == now,
            final(self).spec_duration() == old(self).spec_duration(),
            final(self).spec_paused_time() is None,
    {
        self.start = now;
        self.paused_time = None;
    }

    /// The time that the timer has run at `now`.
    pub fn elapsed(&self, now: i64) -> (span: i128)
        ensures
            span == self.spec_elapsed(now),
    {
        match self.paused_time {
            Some(at) => at as i128 - self.start as i128,
            None => now as i128 - self.start as i128,
        }
    }

    /// Whether at `now` the timer has run for its whole span.
    pub fn finished(&self, now: i64) -> (done: bool)
        ensures
            done == self.spec_finished(now),
    {
        self.elapsed(now) >= self.duration as i128
    }

    /// When the timer is paused after a pause at `now` was asked for: at
    /// `now`, or, where it was paused already, when it was paused first.
    pub open spec fn spec_paused_from(&self, now: i64) -> Option<i64> {
        match self.spec_paused_time() {
            Some(at) => Some(at),
            None => Some(now),
        }
    }

    /// Pauses the timer at `now`: from now on it does not run. A timer that
    /// is paused already stays paused from when it was.
    pub fn paused(&mut self, now: i64)
        ensures
            final(self).spec_start() == old(self).spec_start(),
            final(self).spec_duration() == old(self).spec_duration(),
            final(self).spec_paused_time() == old(self).spec_paused_from(now),
    {
        if self.paused_time.is_none() {
            self.paused_time = Some(now);
        }
    }

    /// The start that a resume at `now` moves the timer to: as long before
    /// `now` as the old start was before the pause.
    pub open spec fn spec_resumed_start(&self, now: i64) -> int {
        match self.spec_paused_time() {
            Some(at) => now - (at - self.spec_start()),
            None => self.spec_start() as int,
        }
    }

    /// Whether the start that a resume at `now` moves the timer to is an
    /// `i64`.
    pub open spec fn can_resume(&self, now: i64) -> bool {
        i64::MIN <= self.spec_resumed_start(now) <= i64::MAX
    }

    /// Whether the start that a resume at `now` moves the timer to is an
    /// `i64`.
    pub fn check_resume(&self, now: i64) -> (fits: bool)
        ensures
            fits == self.can_resume(now),
    {
        match self.paused_time {
            Some(at) => {
                let moved: i128 = now as i128 - (at as i128 - self.start as i128);
                -0x8000_0000_0000_0000 <= moved && moved <= 0x7fff_ffff_ffff_ffff
            },
            None => true,
        }
    }

    /// Ends a pause at `now`: the start moves forward by the time spent
    /// paused, so that as much time has passed at `now` as had at the pause.
    /// A timer that is not paused stays as it is.
    pub fn resume(&mut self, now: i64)
        requires
            old(self).can_resume(now),
        ensures
            final(self).spec_start() == old(self).spec_resumed_start(now),
            final(self).spec_duration() == old(self).spec_duration(),
            final(self).spec_paused_time() is None,
            old(self).spec_paused_time() is Some ==> final(self).spec_elapsed(now) == old(
                self,
            ).spec_elapsed(old(self).spec_paused_time().unwrap()),
    {
        let paused_time = match self.paused_time {
            Some(v) => v,
            None => {
                return ;
            },
        };
        let moved: i128 = now as i128 - (paused_time as i128 - self.start as i128);
        self.start = moved as i64;
        self.paused_time = None;
    }
}

} // verus!
