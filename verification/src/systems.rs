//! The game world and the systems that advance it. Each system is one step
//! of a tick; the order in which a tick runs them is part of their meaning.

use vstd::prelude::*;
use crate::assets::AssetType;
use crate::components::{
    Collision, CollsionKind, Direction, GridVec, HeadDirection, Input, Position, Tail, Text,
    Velocity,
};
use crate::graphics::renderer::{
    AssetCommandView, FontCommandView, RenderAssetCommands, RenderFontCommand, SpriteRenderCommand,
};
use crate::events::Event;
use crate::store;
use crate::store::{
    Row, changed_by, despawned, gather, select, spawned, walk_extends, world_order, world_rows,
    world_wf,
};
use crate::random;
use crate::walk::{
    lemma_despawned_wf, lemma_extends_itself, lemma_extends_twice, lemma_filter_map_prefix,
    lemma_gather, lemma_rewritten_wf, lemma_select, lemma_select_counts, lemma_spawned_extends,
    lemma_spawned_wf, wanted,
};

verus! {

/// The entities of the game and the events of the running tick.
pub struct GameWorld {
    pub world: hecs::World,
    pub events: Vec<Event>,
}

impl GameWorld {
    /// The live entities, each with its components.
    pub open spec fn rows(&self) -> Map<hecs::Entity, Row> {
        world_rows(self.world)
    }

    /// The live entities in the order in which queries walk them.
    pub open spec fn order(&self) -> Seq<hecs::Entity> {
        world_order(self.world)
    }

    /// Whether the walk visits each live entity once and nothing else.
    pub open spec fn wf(&self) -> bool {
        world_wf(self.world)
    }

    /// Whether `e` is live.
    pub open spec fn has(&self, e: hecs::Entity) -> bool {
        self.rows().dom().contains(e)
    }

    /// Whether `after` has the entities and the walk of `self`, and each row
    /// of it is what `change` makes of the entity's row in `self`.
    pub open spec fn rewrites_to(&self, after: &GameWorld, change: spec_fn(Row) -> Row) -> bool {
        &&& after.order() == self.order()
        &&& changed_by(self.rows(), after.rows(), change)
    }

    /// A world without entities and without events.
    pub fn new() -> (game_world: GameWorld)
        ensures
            game_world.wf(),
            game_world.rows() == store::no_rows(),
            game_world.order().len() == 0,
            game_world.events@.len() == 0,
    {
        let world = store::new_world();
        proof {
            assert(world_order(world) =~= Seq::empty());
        }
        GameWorld { world, events: Vec::new() }
    }
}

/// The answer to a despawn of an entity that is not live.
#[derive(Debug, Clone, Copy, PartialEq, Eq, Structural)]
pub struct NotFound;

impl GameWorld {
    /// How many entities are live.
    pub fn len(&self) -> (n: u32)
        ensures
            n == self.order().len(),
    {
        store::count(&self.world)
    }

    /// Whether `e` is live.
    pub fn contains(&self, e: hecs::Entity) -> (b: bool)
        ensures
            b == self.has(e),
    {
        store::is_live(&self.world, e)
    }

    /// The position of `e`, where `e` is live and has one.
    pub fn position_of(&self, e: hecs::Entity) -> (p: Option<Position>)
        ensures
            p == (if self.has(e) {
                self.rows()[e].position
            } else {
                None
            }),
    {
        store::position_of(&self.world, e)
    }

    /// Spawns a tail segment on `cell` with the given link.
    pub fn spawn_tail(&mut self, tail: Tail, cell: GridVec) -> (e: hecs::Entity)
        requires
            old(self).wf(),
            old(self).order().len() < u32::MAX,
        ensures
            final(self).wf(),
            final(self).events == old(self).events,
            spawned(
                old(self).world,
                final(self).world,
                e,
                sprout(Event::SpawnSnakeTail { ahead: tail.ahead, pos: cell, segment: tail.segment }).unwrap(),
            ),
    {
        let ghost w0 = self.world;
        let e = store::spawn_segment(
            &mut self.world,
            Tail { segment: tail.segment, ahead: tail.ahead },
            AssetType::Tail,
            Collision::snake(),
            Position(cell),
        );
        proof {
            lemma_spawned_wf(
                w0,
                self.world,
                e,
                sprout(
                    Event::SpawnSnakeTail { ahead: tail.ahead, pos: cell, segment: tail.segment },
                ).unwrap(),
            );
        }
        e
    }

    /// Despawns `e` with all its components. An entity that is not live is
    /// reported as not found, and the world stays as it is.
    pub fn despawn(&mut self, e: hecs::Entity) -> (r: Result<(), NotFound>)
        requires
            old(self).wf(),
        ensures
            final(self).wf(),
            final(self).events == old(self).events,
            r is Ok <==> old(self).has(e),
            r is Ok ==> despawned(old(self).world, final(self).world, e),
            r is Err ==> final(self).world == old(self).world,
    {
        let ghost w0 = self.world;
        match store::despawn(&mut self.world, e) {
            Ok(()) => {
                proof {
                    lemma_despawned_wf(w0, self.world, e);
                }
                Ok(())
            },
            Err(_) => Err(NotFound),
        }
    }

    /// Despawns each of the given entities, which are live and all
    /// different.
    pub fn despawn_each(&mut self, gone: &Vec<hecs::Entity>)
        requires
            old(self).wf(),
            gone@.no_duplicates(),
            forall|i: int| 0 <= i < gone@.len() ==> old(self).has(#[trigger] gone@[i]),
        ensures
            final(self).wf(),
            final(self).events == old(self).events,
            final(self).rows() == old(self).rows().remove_keys(gone@.to_set()),
            final(self).order().len() == old(self).order().len() - gone@.len(),
    {
        let ghost rows = self.rows();
        proof {
            assert(gone@.take(0).to_set() =~= Set::empty());
            assert(rows.remove_keys(gone@.take(0).to_set()) =~= rows);
        }
        let mut i: usize = 0;
        while i < gone.len()
            invariant
                0 <= i <= gone.len(),
                rows == old(self).rows(),
                gone@.no_duplicates(),
                forall|k: int| 0 <= k < gone@.len() ==> rows.dom().contains(#[trigger] gone@[k]),
                self.wf(),
                self.events == old(self).events,
                self.order().len() == old(self).order().len() - i,
                self.rows() == rows.remove_keys(gone@.take(i as int).to_set()),
            decreases gone.len() - i,
        {
            let e = gone[i];
            let ghost w1 = self.world;
            let ghost before = gone@.take(i as int);
            let ghost more = gone@.take(i + 1);
            proof {
                assert(rows.dom().contains(gone@[i as int]));
                if before.contains(e) {
                    let k = choose|k: int| 0 <= k < before.len() && before[k] == e;
                    assert(gone@[k] == gone@[i as int]);
                }
            }
            let r = store::despawn(&mut self.world, e);
            proof {
                lemma_despawned_wf(w1, self.world, e);
                assert forall|x: hecs::Entity| more.to_set().contains(x) <==> before.to_set().insert(
                    e,
                ).contains(x) by {
                    if more.contains(x) {
                        let k = choose|k: int| 0 <= k < more.len() && more[k] == x;
                        if k < before.len() {
                            assert(before[k] == x);
                        }
                    }
                    if before.contains(x) {
                        let k = choose|k: int| 0 <= k < before.len() && before[k] == x;
                        assert(more[k] == x);
                    }
                    assert(more[i as int] == e);
                }
                assert(more.to_set() =~= before.to_set().insert(e));
                assert(self.rows() =~= rows.remove_keys(more.to_set()));
            }
            i += 1;
        }
        proof {
            assert(gone@.take(gone@.len() as int) =~= gone@);
        }
    }

    /// Despawns every entity, one by one, so that no handle given out before
    /// names an entity that is spawned later. The events stay.
    pub fn clear(&mut self)
        requires
            old(self).wf(),
        ensures
            final(self).wf(),
            final(self).events == old(self).events,
            final(self).rows() == store::no_rows(),
            final(self).order().len() == 0,
    {
        let all = store::entities(&self.world);
        proof {
            assert forall|i: int| 0 <= i < all@.len() implies self.has(#[trigger] all@[i]) by {
                assert(self.order().contains(all@[i]));
            }
        }
        self.despawn_each(&all);
        proof {
            assert forall|e: hecs::Entity| old(self).has(e) implies all@.to_set().contains(e) by {
                assert(old(self).order().contains(e));
            }
            assert(self.rows() =~= store::no_rows());
        }
    }

    /// The heads that can move, each with its position and its velocity, in
    /// the order of the walk.
    pub fn heads(&self) -> (items: Vec<(hecs::Entity, Position, Velocity)>)
        ensures
            items@ == head_items(self.world),
    {
        store::heads(&self.world)
    }

    /// The tail links that have a position, each with its entity, in the
    /// order of the walk.
    pub fn tails(&self) -> (items: Vec<(hecs::Entity, Tail, Position)>)
        ensures
            items@ == placed_tail_items(self.world),
    {
        store::placed_tails(&self.world)
    }

    /// The entities the head could run into, each with its position and its
    /// collision mark, in the order of the walk.
    pub fn obstacles(&self) -> (items: Vec<(hecs::Entity, Position, Collision)>)
        ensures
            items@ == obstacle_items(self.world),
    {
        store::obstacles(&self.world)
    }

    /// The entities with a velocity and a direction, each with its direction,
    /// in the order of the walk.
    pub fn directions(&self) -> (items: Vec<(hecs::Entity, HeadDirection)>)
        ensures
            items@ == gather(
                self.order(),
                self.rows(),
                store::wants_directed(),
                store::takes_direction(),
            ),
    {
        store::directed(&self.world)
    }

    /// The texts that have a position, each with it, in the order of the
    /// walk.
    pub fn labels(&self) -> (items: Vec<(Text, Position)>)
        ensures
            items@ == label_items(self.world),
    {
        store::labels(&self.world)
    }

    /// How many live entities carry the mark of food.
    pub fn food_count(&self) -> (n: usize)
        requires
            self.wf(),
        ensures
            n == food_population(self.rows()),
    {
        proof {
            lemma_select_counts(self.world, store::wants_food());
        }
        store::food_count(&self.world)
    }
}

/// The row of the head as a new game spawns it: at the origin, moving and
/// facing up.
pub open spec fn first_head_row() -> Row {
    Row::head(
        AssetType::Snake,
        Position(GridVec { x: 0, y: 0 }),
        Velocity(GridVec { x: 0, y: 1 }),
        HeadDirection(Direction::Up),
    )
}

/// The row of the first tail segment as a new game spawns it: one cell below
/// the origin, following `head`.
pub open spec fn first_segment_row(head: hecs::Entity) -> Row {
    Row::segment(
        Tail { segment: 1, ahead: head },
        AssetType::Tail,
        Collision { kind: CollsionKind::Snake },
        Position(GridVec { x: 0, y: -1i32 }),
    )
}

/// Whether `after` is `before` with a new snake in it: a head `head` and a
/// first tail segment `tail` behind it, both entities new, put into the walk
/// among the others.
pub open spec fn snake_added(
    before: hecs::World,
    after: hecs::World,
    head: hecs::Entity,
    tail: hecs::Entity,
) -> bool {
    &&& !world_rows(before).dom().contains(head)
    &&& !world_rows(before).dom().contains(tail)
    &&& head != tail
    &&& world_rows(after) == world_rows(before).insert(head, first_head_row()).insert(
        tail,
        first_segment_row(head),
    )
    &&& world_order(after).len() == world_order(before).len() + 2
    &&& walk_extends(world_order(before), world_order(after))
}

/// Spawns the snake of a new game: the head at the origin, moving up, and one
/// tail segment below it.
pub fn create_snake_system(game_world: &mut GameWorld)
    requires
        old(game_world).wf(),
        old(game_world).order().len() + 2 <= u32::MAX,
    ensures
        final(game_world).wf(),
        final(game_world).events == old(game_world).events,
        exists|head: hecs::Entity, tail: hecs::Entity|
            snake_added(old(game_world).world, final(game_world).world, head, tail),
{
    let ghost w0 = game_world.world;
    let ahead = store::spawn_head(
        &mut game_world.world,
        AssetType::Snake,
        Position(GridVec::new(0, 0)),
        Velocity(GridVec::new(0, 1)),
        HeadDirection::default(),
    );
    let ghost w1 = game_world.world;
    proof {
        lemma_spawned_wf(w0, w1, ahead, first_head_row());
        lemma_spawned_extends(w0, w1, ahead, first_head_row());
    }
    let tail = Tail { segment: 1, ahead };
    let behind = store::spawn_segment(
        &mut game_world.world,
        tail,
        AssetType::Tail,
        Collision::snake(),
        Position(GridVec::new(0, -1)),
    );
    proof {
        lemma_spawned_wf(w1, game_world.world, behind, first_segment_row(ahead));
        lemma_spawned_extends(w1, game_world.world, behind, first_segment_row(ahead));
        lemma_extends_twice(world_order(w0), world_order(w1), world_order(game_world.world));
        assert(snake_added(w0, game_world.world, ahead, behind));
    }
}

/// What a movement tick makes of a row: an entity with a position and a
/// velocity is one step further.
pub open spec fn moved(r: Row) -> Row {
    if r.position is Some && r.velocity is Some {
        r.with_position(Position(r.position.unwrap().0.spec_plus(r.velocity.unwrap().0)))
    } else {
        r
    }
}

/// Whether every entity that would move can: its next cell has `i32`
/// coordinates.
pub open spec fn can_move(rows: Map<hecs::Entity, Row>) -> bool {
    forall|e: hecs::Entity| #[trigger]
        rows.dom().contains(e) && rows[e].position is Some && rows[e].velocity is Some
            ==> rows[e].position.unwrap().0.can_add(rows[e].velocity.unwrap().0)
}

/// Moves every entity that has a position and a velocity by one step.
pub fn movement_system(game_world: &mut GameWorld)
    requires
        old(game_world).wf(),
        can_move(old(game_world).rows()),
    ensures
        final(game_world).wf(),
        final(game_world).events == old(game_world).events,
        old(game_world).rewrites_to(final(game_world), |r: Row| moved(r)),
{
    let ghost w0 = game_world.world;
    let ghost order = world_order(w0);
    let ghost rows = world_rows(w0);
    let ghost sel = select(order, rows, store::wants_mover());
    let items = store::movers(&game_world.world);
    proof {
        lemma_select(order, rows, store::wants_mover());
        lemma_gather(order, rows, store::wants_mover(), store::takes_motion());
    }
    let mut i: usize = 0;
    while i < items.len()
        invariant
            0 <= i <= items.len(),
            world_wf(w0),
            can_move(rows),
            order == world_order(w0),
            rows == world_rows(w0),
            sel == select(order, rows, store::wants_mover()),
            items@.len() == sel.len(),
            forall|k: int|
                0 <= k < sel.len() ==> #[trigger] items@[k] == (
                    sel[k],
                    rows[sel[k]].position.unwrap(),
                    rows[sel[k]].velocity.unwrap(),
                ),
            forall|k: int|
                0 <= k < sel.len() ==> order.contains(#[trigger] sel[k]) && rows[sel[k]].position is Some
                    && rows[sel[k]].velocity is Some,
            game_world.wf(),
            game_world.events == old(game_world).events,
            game_world.order() == order,
            game_world.rows().dom() == rows.dom(),
            forall|e: hecs::Entity| #[trigger]
                rows.dom().contains(e) ==> game_world.rows()[e] == (if exists|k: int|
                    0 <= k < i && sel[k] == e {
                    moved(rows[e])
                } else {
                    rows[e]
                }),
        decreases items.len() - i,
    {
        let (e, position, velocity) = items[i];
        let ghost before = game_world.world;
        proof {
            assert(items@[i as int] == (e, position, velocity));
            assert(order.contains(sel[i as int]));
            assert(rows.dom().contains(e));
        }
        store::set_position(&mut game_world.world, e, Position(position.0.plus(velocity.0)));
        proof {
            lemma_rewritten_wf(
                before,
                game_world.world,
                e,
                world_rows(before)[e].with_position(Position(position.0.spec_plus(velocity.0))),
            );
            assert forall|x: hecs::Entity| #[trigger] rows.dom().contains(x) implies game_world.rows()[x]
                == (if exists|k: int| 0 <= k < i + 1 && sel[k] == x {
                moved(rows[x])
            } else {
                rows[x]
            }) by {
                if x == e {
                    assert(sel[i as int] == x);
                } else {
                    if exists|k: int| 0 <= k < i + 1 && sel[k] == x {
                        let k = choose|k: int| 0 <= k < i + 1 && sel[k] == x;
                        assert(0 <= k < i && sel[k] == x);
                    }
                }
            }
        }
        i += 1;
    }
    proof {
        assert forall|x: hecs::Entity| #[trigger] rows.dom().contains(x) implies game_world.rows()[x]
            == moved(rows[x]) by {
            if rows[x].position is Some && rows[x].velocity is Some {
                assert(order.contains(x));
                assert(sel.contains(x));
                let k = choose|k: int| 0 <= k < sel.len() && sel[k] == x;
                assert(0 <= k < i && sel[k] == x);
            } else {
                if exists|k: int| 0 <= k < i && sel[k] == x {
                    let k = choose|k: int| 0 <= k < i && sel[k] == x;
                    assert(order.contains(sel[k]));
                }
            }
        }
    }
}

/// What the input makes of a row: a head with a velocity and a direction
/// takes the direction asked for, unless that is the reverse of its velocity.
pub open spec fn steered(r: Row, input: Input) -> Row {
    if r.snake && r.velocity is Some && r.direction is Some {
        match input.spec_direction() {
            Some(d) => if d.spec_velocity().spec_opposes(r.velocity.unwrap().0) {
                r
            } else {
                r.with_direction(HeadDirection(d))
            },
            None => r,
        }
    } else {
        r
    }
}

/// Takes the direction that the input asks for into the head's direction. A
/// request to reverse the current velocity is dropped.
pub fn update_input(game_world: &mut GameWorld, input: &Input)
    requires
        old(game_world).wf(),
    ensures
        final(game_world).wf(),
        final(game_world).events == old(game_world).events,
        old(game_world).rewrites_to(final(game_world), |r: Row| steered(r, *input)),
{
    let ghost w0 = game_world.world;
    let ghost order = world_order(w0);
    let ghost rows = world_rows(w0);
    let ghost sel = select(order, rows, store::wants_steerable());
    let items = store::steerable(&game_world.world);
    proof {
        lemma_select(order, rows, store::wants_steerable());
        lemma_gather(order, rows, store::wants_steerable(), store::takes_velocity());
    }
    let mut i: usize = 0;
    while i < items.len()
        invariant
            0 <= i <= items.len(),
            world_wf(w0),
            order == world_order(w0),
            rows == world_rows(w0),
            sel == select(order, rows, store::wants_steerable()),
            items@.len() == sel.len(),
            forall|k: int|
                0 <= k < sel.len() ==> #[trigger] items@[k] == (sel[k], rows[sel[k]].velocity.unwrap()),
            forall|k: int|
                0 <= k < sel.len() ==> order.contains(#[trigger] sel[k]) && rows[sel[k]].snake
                    && rows[sel[k]].velocity is Some && rows[sel[k]].direction is Some,
            game_world.wf(),
            game_world.events == old(game_world).events,
            game_world.order() == order,
            game_world.rows().dom() == rows.dom(),
            forall|e: hecs::Entity| #[trigger]
                rows.dom().contains(e) ==> game_world.rows()[e] == (if exists|k: int|
                    0 <= k < i && sel[k] == e {
                    steered(rows[e], *input)
                } else {
                    rows[e]
                }),
        decreases items.len() - i,
    {
        let (e, velocity) = items[i];
        let ghost before = game_world.world;
        proof {
            assert(items@[i as int] == (e, velocity));
            assert(order.contains(sel[i as int]));
            assert(rows.dom().contains(e));
        }
        if let Some(d) = input.direction() {
            if !d.velocity().opposes(&velocity.0) {
                store::set_direction(&mut game_world.world, e, HeadDirection(d));
                proof {
                    lemma_rewritten_wf(
                        before,
                        game_world.world,
                        e,
                        world_rows(before)[e].with_direction(HeadDirection(d)),
                    );
                }
            }
        }
        proof {
            assert forall|x: hecs::Entity| #[trigger] rows.dom().contains(x) implies game_world.rows()[x]
                == (if exists|k: int| 0 <= k < i + 1 && sel[k] == x {
                steered(rows[x], *input)
            } else {
                rows[x]
            }) by {
                if x == e {
                    assert(sel[i as int] == x);
                } else {
                    if exists|k: int| 0 <= k < i + 1 && sel[k] == x {
                        let k = choose|k: int| 0 <= k < i + 1 && sel[k] == x;
                        assert(0 <= k < i && sel[k] == x);
                    }
                }
            }
        }
        i += 1;
    }
    proof {
        assert forall|x: hecs::Entity| #[trigger] rows.dom().contains(x) implies game_world.rows()[x]
            == steered(rows[x], *input) by {
            if rows[x].snake && rows[x].velocity is Some && rows[x].direction is Some {
                assert(order.contains(x));
                assert(sel.contains(x));
                let k = choose|k: int| 0 <= k < sel.len() && sel[k] == x;
                assert(0 <= k < i && sel[k] == x);
            } else {
                if exists|k: int| 0 <= k < i && sel[k] == x {
                    let k = choose|k: int| 0 <= k < i && sel[k] == x;
                    assert(order.contains(sel[k]));
                }
            }
        }
    }
}

/// What a movement tick makes of the velocity in a row: an entity with a
/// velocity and a direction gets the unit step of its direction.
pub open spec fn committed(r: Row) -> Row {
    if r.velocity is Some && r.direction is Some {
        r.with_velocity(Velocity(r.direction.unwrap().0.spec_velocity()))
    } else {
        r
    }
}

/// Sets the velocity of every entity that has a direction to the unit step
/// of that direction.
pub fn update_velocity_direction(game_world: &mut GameWorld)
    requires
        old(game_world).wf(),
    ensures
        final(game_world).wf(),
        final(game_world).events == old(game_world).events,
        old(game_world).rewrites_to(final(game_world), |r: Row| committed(r)),
{
    let ghost w0 = game_world.world;
    let ghost order = world_order(w0);
    let ghost rows = world_rows(w0);
    let ghost sel = select(order, rows, store::wants_directed());
    let items = store::directed(&game_world.world);
    proof {
        lemma_select(order, rows, store::wants_directed());
        lemma_gather(order, rows, store::wants_directed(), store::takes_direction());
    }
    let mut i: usize = 0;
    while i < items.len()
        invariant
            0 <= i <= items.len(),
            world_wf(w0),
            order == world_order(w0),
            rows == world_rows(w0),
            sel == select(order, rows, store::wants_directed()),
            items@.len() == sel.len(),
            forall|k: int|
                0 <= k < sel.len() ==> #[trigger] items@[k] == (sel[k], rows[sel[k]].direction.unwrap()),
            forall|k: int|
                0 <= k < sel.len() ==> order.contains(#[trigger] sel[k]) && rows[sel[k]].velocity is Some
                    && rows[sel[k]].direction is Some,
            game_world.wf(),
            game_world.events == old(game_world).events,
            game_world.order() == order,
            game_world.rows().dom() == rows.dom(),
            forall|e: hecs::Entity| #[trigger]
                rows.dom().contains(e) ==> game_world.rows()[e] == (if exists|k: int|
                    0 <= k < i && sel[k] == e {
                    committed(rows[e])
                } else {
                    rows[e]
                }),
        decreases items.len() - i,
    {
        let (e, direction) = items[i];
        let ghost before = game_world.world;
        proof {
            assert(items@[i as int] == (e, direction));
            assert(order.contains(sel[i as int]));
            assert(rows.dom().contains(e));
        }
        store::set_velocity(&mut game_world.world, e, Velocity(direction.0.velocity()));
        proof {
            lemma_rewritten_wf(
                before,
                game_world.world,
                e,
                world_rows(before)[e].with_velocity(Velocity(direction.0.spec_velocity())),
            );
            assert forall|x: hecs::Entity| #[trigger] rows.dom().contains(x) implies game_world.rows()[x]
                == (if exists|k: int| 0 <= k < i + 1 && sel[k] == x {
                committed(rows[x])
            } else {
                rows[x]
            }) by {
                if x == e {
                    assert(sel[i as int] == x);
                } else {
                    if exists|k: int| 0 <= k < i + 1 && sel[k] == x {
                        let k = choose|k: int| 0 <= k < i + 1 && sel[k] == x;
                        assert(0 <= k < i && sel[k] == x);
                    }
                }
            }
        }
        i += 1;
    }
    proof {
        assert forall|x: hecs::Entity| #[trigger] rows.dom().contains(x) implies game_world.rows()[x]
            == committed(rows[x]) by {
            if rows[x].velocity is Some && rows[x].direction is Some {
                assert(order.contains(x));
                assert(sel.contains(x));
                let k = choose|k: int| 0 <= k < sel.len() && sel[k] == x;
                assert(0 <= k < i && sel[k] == x);
            } else {
                if exists|k: int| 0 <= k < i && sel[k] == x {
                    let k = choose|k: int| 0 <= k < i && sel[k] == x;
                    assert(order.contains(sel[k]));
                }
            }
        }
    }
}

/// Whether every tail link follows a live entity that has a position.
pub open spec fn tails_linked(rows: Map<hecs::Entity, Row>) -> bool {
    forall|e: hecs::Entity| #[trigger]
        rows.dom().contains(e) && rows[e].tail is Some ==> rows.dom().contains(
            rows[e].tail.unwrap().ahead,
        ) && rows[rows[e].tail.unwrap().ahead].position is Some
}

/// What the tail's move makes of a row, given the rows before the move: a
/// tail link with a position is where the entity it follows was.
pub open spec fn followed(r: Row, rows: Map<hecs::Entity, Row>) -> Row {
    if r.tail is Some && r.position is Some {
        r.with_position(rows[r.tail.unwrap().ahead].position.unwrap())
    } else {
        r
    }
}

/// Moves every tail segment to where the entity ahead of it was before this
/// call. All positions are read before any is written, so no segment sees a
/// chain that has moved in part.
pub fn tail_movement_system(game_world: &mut GameWorld)
    requires
        old(game_world).wf(),
        tails_linked(old(game_world).rows()),
    ensures
        final(game_world).wf(),
        final(game_world).events == old(game_world).events,
        old(game_world).rewrites_to(final(game_world), |r: Row| followed(r, old(game_world).rows())),
{
    let ghost w0 = game_world.world;
    let ghost order = world_order(w0);
    let ghost rows = world_rows(w0);
    let ghost sel = select(order, rows, store::wants_placed_tail());
    let items = store::placed_tails(&game_world.world);
    proof {
        lemma_select(order, rows, store::wants_placed_tail());
        lemma_gather(order, rows, store::wants_placed_tail(), store::takes_placed_tail());
    }
    let mut targets: Vec<Position> = Vec::new();
    let mut j: usize = 0;
    while j < items.len()
        invariant
            0 <= j <= items.len(),
            world_wf(w0),
            tails_linked(rows),
            game_world.world == w0,
            order == world_order(w0),
            rows == world_rows(w0),
            sel == select(order, rows, store::wants_placed_tail()),
            items@.len() == sel.len(),
            forall|k: int|
                0 <= k < sel.len() ==> #[trigger] items@[k] == (
                    sel[k],
                    rows[sel[k]].tail.unwrap(),
                    rows[sel[k]].position.unwrap(),
                ),
            forall|k: int|
                0 <= k < sel.len() ==> order.contains(#[trigger] sel[k]) && rows[sel[k]].tail is Some
                    && rows[sel[k]].position is Some,
            targets@.len() == j,
            forall|k: int|
                0 <= k < j ==> #[trigger] targets@[k] == rows[rows[sel[k]].tail.unwrap().ahead].position.unwrap(),
        decreases items.len() - j,
    {
        let (e, tail, _) = items[j];
        proof {
            assert(items@[j as int].0 == e && items@[j as int].1 == tail);
            assert(order.contains(sel[j as int]));
            assert(rows.dom().contains(e));
        }
        let ahead = store::position_of(&game_world.world, tail.ahead);
        targets.push(ahead.unwrap());
        j += 1;
    }
    let mut i: usize = 0;
    while i < items.len()
        invariant
            0 <= i <= items.len(),
            world_wf(w0),
            order == world_order(w0),
            rows == world_rows(w0),
            sel == select(order, rows, store::wants_placed_tail()),
            items@.len() == sel.len(),
            targets@.len() == sel.len(),
            forall|k: int| 0 <= k < sel.len() ==> (#[trigger] items@[k]).0 == sel[k],
            forall|k: int|
                0 <= k < sel.len() ==> order.contains(#[trigger] sel[k]) && rows[sel[k]].tail is Some
                    && rows[sel[k]].position is Some,
            forall|k: int|
                0 <= k < sel.len() ==> #[trigger] targets@[k] == rows[rows[sel[k]].tail.unwrap().ahead].position.unwrap(),
            game_world.wf(),
            game_world.events == old(game_world).events,
            game_world.order() == order,
            game_world.rows().dom() == rows.dom(),
            forall|e: hecs::Entity| #[trigger]
                rows.dom().contains(e) ==> game_world.rows()[e] == (if exists|k: int|
                    0 <= k < i && sel[k] == e {
                    followed(rows[e], rows)
                } else {
                    rows[e]
                }),
        decreases items.len() - i,
    {
        let e = items[i].0;
        let ghost before = game_world.world;
        proof {
            assert(items@[i as int].0 == e);
            assert(order.contains(sel[i as int]));
            assert(rows.dom().contains(e));
        }
        store::set_position(&mut game_world.world, e, targets[i]);
        proof {
            lemma_rewritten_wf(
                before,
                game_world.world,
                e,
                world_rows(before)[e].with_position(targets@[i as int]),
            );
            assert forall|x: hecs::Entity| #[trigger] rows.dom().contains(x) implies game_world.rows()[x]
                == (if exists|k: int| 0 <= k < i + 1 && sel[k] == x {
                followed(rows[x], rows)
            } else {
                rows[x]
            }) by {
                if x == e {
                    assert(sel[i as int] == x);
                } else {
                    if exists|k: int| 0 <= k < i + 1 && sel[k] == x {
                        let k = choose|k: int| 0 <= k < i + 1 && sel[k] == x;
                        assert(0 <= k < i && sel[k] == x);
                    }
                }
            }
        }
        i += 1;
    }
    proof {
        assert forall|x: hecs::Entity| #[trigger] rows.dom().contains(x) implies game_world.rows()[x]
            == followed(rows[x], rows) by {
            if rows[x].tail is Some && rows[x].position is Some {
                assert(order.contains(x));
                assert(sel.contains(x));
                let k = choose|k: int| 0 <= k < sel.len() && sel[k] == x;
                assert(0 <= k < i && sel[k] == x);
            } else {
                if exists|k: int| 0 <= k < i && sel[k] == x {
                    let k = choose|k: int| 0 <= k < i && sel[k] == x;
                    assert(order.contains(sel[k]));
                }
            }
        }
    }
}

/// The entities the head could run into, each with its position and its
/// collision mark, in the order of the walk.
pub open spec fn obstacle_items(w: hecs::World) -> Seq<(hecs::Entity, Position, Collision)> {
    gather(world_order(w), world_rows(w), store::wants_obstacle(), store::takes_obstacle())
}

/// The heads that can move, each with its position and its velocity, in the
/// order of the walk.
pub open spec fn head_items(w: hecs::World) -> Seq<(hecs::Entity, Position, Velocity)> {
    gather(world_order(w), world_rows(w), store::wants_head(), store::takes_motion())
}

/// The collision of the head `source`, which is at `from` and about to take
/// `step`, with one obstacle: there is one where the obstacle is on the cell
/// that the head is about to enter.
pub open spec fn strike(
    item: (hecs::Entity, Position, Collision),
    source: hecs::Entity,
    from: GridVec,
    step: GridVec,
) -> Option<Event> {
    if item.1.0.spec_is_step_from(from, step) {
        Some(Event::Collision { target: item.0, source, pos: item.1.0, kind: item.2.kind })
    } else {
        None
    }
}

/// The collisions that the first head of the walk is about to have, in the
/// order of the walk; none where there is no head.
pub open spec fn strikes(w: hecs::World) -> Seq<Event> {
    let heads = head_items(w);
    if heads.len() == 0 {
        Seq::empty()
    } else {
        obstacle_items(w).filter_map(
            |item: (hecs::Entity, Position, Collision)|
                strike(item, heads[0].0, heads[0].1.0, heads[0].2.0),
        )
    }
}

/// Records a collision for each obstacle on the cell that the head is about
/// to enter. Nothing moves and nothing is despawned.
pub fn head_collision_system(game_world: &mut GameWorld)
    ensures
        final(game_world).world == old(game_world).world,
        final(game_world).events@ == old(game_world).events@ + strikes(old(game_world).world),
{
    let heads = store::heads(&game_world.world);
    if heads.len() == 0 {
        proof {
            assert(game_world.events@ =~= old(game_world).events@ + strikes(game_world.world));
        }
        return ;
    }
    let (source, from, step) = heads[0];
    let items = store::obstacles(&game_world.world);
    let ghost f = |item: (hecs::Entity, Position, Collision)| strike(item, source, from.0, step.0);
    proof {
        assert(heads@[0] == (source, from, step));
        assert(items@.take(0).filter_map(f) =~= Seq::empty());
        assert(game_world.events@ =~= old(game_world).events@ + items@.take(0).filter_map(f));
    }
    let mut i: usize = 0;
    while i < items.len()
        invariant
            0 <= i <= items.len(),
            game_world.world == old(game_world).world,
            f == |item: (hecs::Entity, Position, Collision)| strike(item, source, from.0, step.0),
            game_world.events@ == old(game_world).events@ + items@.take(i as int).filter_map(f),
        decreases items.len() - i,
    {
        let (target, position, collision) = items[i];
        proof {
            assert(items@[i as int] == (target, position, collision));
            items@.lemma_filter_map_take_succ(f, i as int);
        }
        if position.0.is_step_from(&from.0, &step.0) {
            game_world.events.push(
                Event::Collision { target, source, pos: position.0, kind: collision.kind },
            );
        }
        proof {
            assert(game_world.events@ =~= old(game_world).events@ + items@.take(i + 1).filter_map(
                f,
            ));
        }
        i += 1;
    }
    proof {
        assert(items@.take(items@.len() as int) =~= items@);
    }
}

/// An event as it stays in the queue when collisions are dispatched: a
/// collision leaves, anything else stays.
pub open spec fn kept(ev: Event) -> Option<Event> {
    if ev is Collision {
        None
    } else {
        Some(ev)
    }
}

/// The response to an event when collisions are dispatched: for a collision
/// with the snake the end of the game, for one with food the eating of it,
/// at the position that the food has in `rows`; for other events none.
pub open spec fn response(ev: Event, rows: Map<hecs::Entity, Row>) -> Option<Event> {
    match ev {
        Event::Collision { target, source, pos, kind } => match kind {
            CollsionKind::Snake => Some(Event::GameOver),
            CollsionKind::Food => Some(
                Event::SnakeEatFood { entity: target, pos: rows[target].position.unwrap().0 },
            ),
        },
        _ => None,
    }
}

/// The events that stay in the queue when collisions are dispatched, in
/// their order.
pub open spec fn stayed(events: Seq<Event>) -> Seq<Event> {
    events.filter_map(|ev: Event| kept(ev))
}

/// The responses to the collisions of the queue, in its order.
pub open spec fn responses(events: Seq<Event>, rows: Map<hecs::Entity, Row>) -> Seq<Event> {
    events.filter_map(|ev: Event| response(ev, rows))
}

/// Whether every collision with food in `events` has a target that is live
/// and has a position.
pub open spec fn food_targets_placed(events: Seq<Event>, rows: Map<hecs::Entity, Row>) -> bool {
    forall|i: int|
        0 <= i < events.len() ==> match #[trigger] events[i] {
            Event::Collision { target, source, pos, kind } => kind == CollsionKind::Food
                ==> rows.dom().contains(target) && rows[target].position is Some,
            _ => true,
        }
}

/// Takes the collisions out of the queue and appends, behind the events that
/// stay, the response to each: the end of the game for a collision with the
/// snake, the eating for a collision with food.
pub fn handle_collision_system(game_world: &mut GameWorld)
    requires
        food_targets_placed(old(game_world).events@, old(game_world).rows()),
    ensures
        final(game_world).world == old(game_world).world,
        final(game_world).events@ == stayed(old(game_world).events@) + responses(
            old(game_world).events@,
            old(game_world).rows(),
        ),
{
    let ghost rows = game_world.rows();
    let ghost before = game_world.events@;
    let ghost keep = |ev: Event| kept(ev);
    let ghost respond = |ev: Event| response(ev, rows);
    let mut next: Vec<Event> = Vec::new();
    let n = game_world.events.len();
    proof {
        assert(before.take(0).filter_map(keep) =~= Seq::empty());
    }
    let mut i: usize = 0;
    while i < n
        invariant
            0 <= i <= n,
            n == before.len(),
            game_world.events@ == before,
            game_world.world == old(game_world).world,
            keep == |ev: Event| kept(ev),
            next@ == before.take(i as int).filter_map(keep),
        decreases n - i,
    {
        let ev = game_world.events[i];
        proof {
            before.lemma_filter_map_take_succ(keep, i as int);
        }
        match ev {
            Event::Collision { .. } => {},
            _ => {
                next.push(ev);
            },
        }
        i += 1;
    }
    proof {
        assert(before.take(n as int) =~= before);
        assert(before.take(0).filter_map(respond) =~= Seq::empty());
        assert(next@ =~= before.filter_map(keep) + before.take(0).filter_map(respond));
    }
    let mut j: usize = 0;
    while j < n
        invariant
            0 <= j <= n,
            n == before.len(),
            game_world.events@ == before,
            game_world.world == old(game_world).world,
            rows == world_rows(game_world.world),
            food_targets_placed(before, rows),
            respond == |ev: Event| response(ev, rows),
            next@ == before.filter_map(keep) + before.take(j as int).filter_map(respond),
        decreases n - j,
    {
        let ev = game_world.events[j];
        proof {
            before.lemma_filter_map_take_succ(respond, j as int);
            assert(before[j as int] == ev);
        }
        match ev {
            Event::Collision { target, source: _, pos: _, kind } => {
                match kind {
                    CollsionKind::Snake => {
                        next.push(Event::GameOver);
                    },
                    CollsionKind::Food => {
                        let position = store::position_of(&game_world.world, target);
                        next.push(Event::SnakeEatFood { entity: target, pos: position.unwrap().0 });
                    },
                }
            },
            _ => {},
        }
        proof {
            assert(next@ =~= before.filter_map(keep) + before.take(j + 1).filter_map(respond));
        }
        j += 1;
    }
    proof {
        assert(before.take(n as int) =~= before);
    }
    game_world.events = next;
}

/// The tail links that have a position, each with its entity, in the order
/// of the walk.
pub open spec fn placed_tail_items(w: hecs::World) -> Seq<(hecs::Entity, Tail, Position)> {
    gather(world_order(w), world_rows(w), store::wants_placed_tail(), store::takes_placed_tail())
}

/// The index of the tip among `tails`: of the links with the greatest
/// segment number, the last one. It is 0 where there is no link.
pub open spec fn tip_index(tails: Seq<(hecs::Entity, Tail, Position)>) -> int
    decreases tails.len(),
{
    if tails.len() <= 1 {
        0
    } else {
        let k = tip_index(tails.drop_last());
        if tails.last().1.segment >= tails[k].1.segment {
            tails.len() - 1
        } else {
            k
        }
    }
}

/// The tip is a link, no link has a greater segment number than it, and
/// every link behind it in the walk has a smaller one.
pub proof fn lemma_tip_index(tails: Seq<(hecs::Entity, Tail, Position)>)
    requires
        tails.len() > 0,
    ensures
        0 <= tip_index(tails) < tails.len(),
        forall|j: int|
            0 <= j < tails.len() ==> (#[trigger] tails[j]).1.segment <= tails[tip_index(
                tails,
            )].1.segment,
        forall|j: int|
            tip_index(tails) < j < tails.len() ==> (#[trigger] tails[j]).1.segment
                < tails[tip_index(tails)].1.segment,
    decreases tails.len(),
{
    if tails.len() > 1 {
        let front = tails.drop_last();
        lemma_tip_index(front);
        let k = tip_index(front);
        assert(front[k] == tails[k]);
        assert forall|j: int| 0 <= j < tails.len() implies (#[trigger] tails[j]).1.segment
            <= tails[tip_index(tails)].1.segment by {
            if j < front.len() {
                assert(front[j] == tails[j]);
            }
        }
        assert forall|j: int| tip_index(tails) < j < tails.len() implies (
        #[trigger] tails[j]).1.segment < tails[tip_index(tails)].1.segment by {
            if j < front.len() {
                assert(front[j] == tails[j]);
            }
        }
    }
}

/// The index of the tip among `tails`.
fn tip_of(tails: &Vec<(hecs::Entity, Tail, Position)>) -> (k: usize)
    requires
        tails@.len() > 0,
    ensures
        k == tip_index(tails@),
        k < tails@.len(),
{
    let mut best: usize = 0;
    let mut i: usize = 1;
    proof {
        assert(tails@.take(1).len() == 1);
    }
    while i < tails.len()
        invariant
            1 <= i <= tails.len(),
            best < i,
            best == tip_index(tails@.take(i as int)),
        decreases tails.len() - i,
    {
        proof {
            assert(tails@.take(i + 1).drop_last() =~= tails@.take(i as int));
            assert(tails@.take(i + 1).last() == tails@[i as int]);
            assert(tails@.take(i + 1)[best as int] == tails@[best as int]);
        }
        if tails[i].1.segment >= tails[best].1.segment {
            best = i;
        }
        i += 1;
    }
    proof {
        assert(tails@.take(tails@.len() as int) =~= tails@);
    }
    best
}

/// The event that lets the tail grow past its tip: a new segment where the
/// tip is, following the tip, with the next segment number.
pub open spec fn growth(tails: Seq<(hecs::Entity, Tail, Position)>) -> Event {
    let tip = tails[tip_index(tails)];
    Event::SpawnSnakeTail {
        ahead: tip.0,
        pos: tip.2.0,
        segment: (tip.1.segment + 1) as usize,
    }
}

/// What an event triggers when the tail is to grow: an eating triggers the
/// growth, where there is a tail at all.
pub open spec fn grows(ev: Event, tails: Seq<(hecs::Entity, Tail, Position)>) -> Option<Event> {
    if ev is SnakeEatFood && tails.len() > 0 {
        Some(growth(tails))
    } else {
        None
    }
}

/// The requests for a new segment that the meals of the queue trigger, in
/// its order.
pub open spec fn growths(events: Seq<Event>, tails: Seq<(hecs::Entity, Tail, Position)>) -> Seq<
    Event,
> {
    events.filter_map(|ev: Event| grows(ev, tails))
}

/// Whether the queue holds an eating.
pub open spec fn has_eating(events: Seq<Event>) -> bool {
    exists|i: int| 0 <= i < events.len() && (#[trigger] events[i]) is SnakeEatFood
}

/// Appends, for each eating in the queue, the event that lets the tail grow
/// by one segment past its tip.
pub fn trigger_tail_spawn(game_world: &mut GameWorld)
    requires
        has_eating(old(game_world).events@) && placed_tail_items(old(game_world).world).len() > 0
            ==> placed_tail_items(old(game_world).world)[tip_index(
            placed_tail_items(old(game_world).world),
        )].1.segment < usize::MAX,
    ensures
        final(game_world).world == old(game_world).world,
        final(game_world).events@ == old(game_world).events@ + growths(
            old(game_world).events@,
            placed_tail_items(old(game_world).world),
        ),
{
    let ghost before = game_world.events@;
    let tails = store::placed_tails(&game_world.world);
    let ghost f = |ev: Event| grows(ev, tails@);
    let n = game_world.events.len();
    proof {
        assert(before.take(0).filter_map(f) =~= Seq::empty());
        assert(game_world.events@ =~= before + before.take(0).filter_map(f));
    }
    let mut i: usize = 0;
    while i < n
        invariant
            0 <= i <= n,
            n == before.len(),
            before == old(game_world).events@,
            game_world.world == old(game_world).world,
            tails@ == placed_tail_items(game_world.world),
            has_eating(before) && tails@.len() > 0 ==> tails@[tip_index(tails@)].1.segment
                < usize::MAX,
            f == |ev: Event| grows(ev, tails@),
            game_world.events@ == before + before.take(i as int).filter_map(f),
        decreases n - i,
    {
        let ev = game_world.events[i];
        proof {
            before.lemma_filter_map_take_succ(f, i as int);
            assert(ev == before[i as int]);
        }
        match ev {
            Event::SnakeEatFood { .. } => {
                if tails.len() > 0 {
                    let (ahead, tail, position) = tails[tip_of(&tails)];
                    game_world.events.push(
                        Event::SpawnSnakeTail {
                            ahead,
                            pos: position.0,
                            segment: tail.segment + 1,
                        },
                    );
                }
            },
            _ => {},
        }
        proof {
            assert(game_world.events@ =~= before + before.take(i + 1).filter_map(f));
        }
        i += 1;
    }
    proof {
        assert(before.take(n as int) =~= before);
    }
}

/// The row of the segment that an event asks for, where it asks for one.
pub open spec fn sprout(ev: Event) -> Option<Row> {
    match ev {
        Event::SpawnSnakeTail { ahead, pos, segment } => Some(
            Row::segment(
                Tail { segment, ahead },
                AssetType::Tail,
                Collision { kind: CollsionKind::Snake },
                Position(pos),
            ),
        ),
        _ => None,
    }
}

/// The rows of the segments that the queue asks for, in its order.
pub open spec fn sprouts(events: Seq<Event>) -> Seq<Row> {
    events.filter_map(|ev: Event| sprout(ev))
}

/// Whether `after` is `before` with the entities `born` added, all of them
/// new and different, the i-th with the i-th of `new_rows`.
pub open spec fn rows_added(
    before: Map<hecs::Entity, Row>,
    after: Map<hecs::Entity, Row>,
    born: Seq<hecs::Entity>,
    new_rows: Seq<Row>,
) -> bool {
    &&& born.len() == new_rows.len()
    &&& born.no_duplicates()
    &&& forall|i: int| 0 <= i < born.len() ==> !before.dom().contains(#[trigger] born[i])
    &&& forall|e: hecs::Entity| #[trigger]
        after.dom().contains(e) ==> before.dom().contains(e) || born.contains(e)
    &&& forall|e: hecs::Entity| #[trigger]
        before.dom().contains(e) ==> after.dom().contains(e) && after[e] == before[e]
    &&& forall|i: int|
        0 <= i < born.len() ==> after.dom().contains(#[trigger] born[i]) && after[born[i]]
            == new_rows[i]
}

/// Spawns a tail segment for each event that asks for one, in the order of
/// the queue.
pub fn spawn_tail_system(game_world: &mut GameWorld)
    requires
        old(game_world).wf(),
        old(game_world).order().len() + sprouts(old(game_world).events@).len() <= u32::MAX,
    ensures
        final(game_world).wf(),
        final(game_world).events == old(game_world).events,
        final(game_world).order().len() == old(game_world).order().len() + sprouts(
            old(game_world).events@,
        ).len(),
        walk_extends(old(game_world).order(), final(game_world).order()),
        exists|born: Seq<hecs::Entity>| #[trigger]
            rows_added(
                old(game_world).rows(),
                final(game_world).rows(),
                born,
                sprouts(old(game_world).events@),
            ),
{
    let ghost rows = game_world.rows();
    let ghost events = game_world.events@;
    let ghost f = |ev: Event| sprout(ev);
    let ghost mut born: Seq<hecs::Entity> = Seq::empty();
    let n = game_world.events.len();
    proof {
        assert(events.take(0).filter_map(f) =~= Seq::empty());
        lemma_extends_itself(game_world.order());
    }
    let mut i: usize = 0;
    while i < n
        invariant
            0 <= i <= n,
            n == events.len(),
            game_world.events == old(game_world).events,
            events == game_world.events@,
            rows == old(game_world).rows(),
            f == |ev: Event| sprout(ev),
            old(game_world).order().len() + events.filter_map(f).len() <= u32::MAX,
            game_world.wf(),
            walk_extends(old(game_world).order(), game_world.order()),
            game_world.order().len() == old(game_world).order().len() + born.len(),
            rows_added(rows, game_world.rows(), born, events.take(i as int).filter_map(f)),
        decreases n - i,
    {
        let ev = game_world.events[i];
        proof {
            events.lemma_filter_map_take_succ(f, i as int);
            lemma_filter_map_prefix(events, f, i + 1);
        }
        match ev {
            Event::SpawnSnakeTail { ahead, pos, segment } => {
                let ghost w1 = game_world.world;
                let e = store::spawn_segment(
                    &mut game_world.world,
                    Tail { segment, ahead },
                    AssetType::Tail,
                    Collision::snake(),
                    Position(pos),
                );
                proof {
                    lemma_spawned_wf(w1, game_world.world, e, sprout(ev).unwrap());
                    lemma_spawned_extends(w1, game_world.world, e, sprout(ev).unwrap());
                    lemma_extends_twice(
                        old(game_world).order(),
                        world_order(w1),
                        game_world.order(),
                    );
                    let longer = born.push(e);
                    let now = game_world.rows();
                    let then = world_rows(w1);
                    assert(!then.dom().contains(e));
                    assert(now == then.insert(e, sprout(ev).unwrap()));
                    assert forall|k: int| 0 <= k < born.len() implies born[k] != e by {
                        assert(then.dom().contains(born[k]));
                    }
                    assert forall|a: int, b: int|
                        0 <= a < longer.len() && 0 <= b < longer.len() && a != b implies longer[a]
                        != longer[b] by {
                        if a < born.len() {
                            assert(longer[a] == born[a]);
                        }
                        if b < born.len() {
                            assert(longer[b] == born[b]);
                        }
                    }
                    assert forall|k: int| 0 <= k < longer.len() implies !rows.dom().contains(
                        #[trigger] longer[k],
                    ) by {
                        if k < born.len() {
                            assert(longer[k] == born[k]);
                        } else {
                            if rows.dom().contains(e) {
                                assert(then.dom().contains(e));
                            }
                        }
                    }
                    assert forall|x: hecs::Entity| #[trigger] now.dom().contains(x) implies rows.dom().contains(
                        x,
                    ) || longer.contains(x) by {
                        if x == e {
                            assert(longer[born.len() as int] == e);
                        } else {
                            assert(then.dom().contains(x));
                            if born.contains(x) {
                                let k = choose|k: int| 0 <= k < born.len() && born[k] == x;
                                assert(longer[k] == x);
                            }
                        }
                    }
                    assert forall|x: hecs::Entity| #[trigger] rows.dom().contains(x) implies now.dom().contains(
                        x,
                    ) && now[x] == rows[x] by {
                        assert(then.dom().contains(x) && then[x] == rows[x]);
                    }
                    assert forall|k: int| 0 <= k < longer.len() implies now.dom().contains(
                        #[trigger] longer[k],
                    ) && now[longer[k]] == events.take(i + 1).filter_map(f)[k] by {
                        if k < born.len() {
                            assert(longer[k] == born[k]);
                            assert(then.dom().contains(born[k]));
                        }
                    }
                    born = longer;
                }
            },
            _ => {},
        }
        i += 1;
    }
    proof {
        assert(events.take(n as int) =~= events);
    }
}

/// The entity that an event says was eaten, where it says so.
pub open spec fn eaten(ev: Event) -> Option<hecs::Entity> {
    match ev {
        Event::SnakeEatFood { entity, pos } => Some(entity),
        _ => None,
    }
}

/// The eaten entities of the queue, in its order.
pub open spec fn eaten_entities(events: Seq<Event>) -> Seq<hecs::Entity> {
    events.filter_map(|ev: Event| eaten(ev))
}

/// Despawns every entity that the queue says was eaten.
pub fn despawn_food_system(game_world: &mut GameWorld)
    requires
        old(game_world).wf(),
        eaten_entities(old(game_world).events@).no_duplicates(),
        forall|i: int|
            0 <= i < eaten_entities(old(game_world).events@).len() ==> old(game_world).has(
                #[trigger] eaten_entities(old(game_world).events@)[i],
            ),
    ensures
        final(game_world).wf(),
        final(game_world).events == old(game_world).events,
        final(game_world).rows() == old(game_world).rows().remove_keys(
            eaten_entities(old(game_world).events@).to_set(),
        ),
        final(game_world).order().len() == old(game_world).order().len() - eaten_entities(
            old(game_world).events@,
        ).len(),
{
    let ghost rows = game_world.rows();
    let ghost events = game_world.events@;
    let ghost f = |ev: Event| eaten(ev);
    let ghost all = eaten_entities(events);
    let n = game_world.events.len();
    proof {
        assert(events.take(0).filter_map(f) =~= Seq::empty());
        assert(rows.remove_keys(Seq::<hecs::Entity>::empty().to_set()) =~= rows);
    }
    let mut i: usize = 0;
    while i < n
        invariant
            0 <= i <= n,
            n == events.len(),
            game_world.events == old(game_world).events,
            events == game_world.events@,
            rows == old(game_world).rows(),
            f == |ev: Event| eaten(ev),
            all == events.filter_map(f),
            all.no_duplicates(),
            forall|k: int| 0 <= k < all.len() ==> rows.dom().contains(#[trigger] all[k]),
            game_world.wf(),
            game_world.order().len() == old(game_world).order().len() - events.take(
                i as int,
            ).filter_map(f).len(),
            game_world.rows() == rows.remove_keys(events.take(i as int).filter_map(f).to_set()),
        decreases n - i,
    {
        let ev = game_world.events[i];
        let ghost gone = events.take(i as int).filter_map(f);
        proof {
            events.lemma_filter_map_take_succ(f, i as int);
            lemma_filter_map_prefix(events, f, i + 1);
            lemma_filter_map_prefix(events, f, i as int);
        }
        match ev {
            Event::SnakeEatFood { entity, pos: _ } => {
                let ghost w1 = game_world.world;
                proof {
                    let m = gone.len() as int;
                    let more = events.take(i + 1).filter_map(f);
                    assert(more == gone.push(entity));
                    assert(more[m] == entity);
                    assert(all[m] == entity);
                    assert(rows.dom().contains(all[m]));
                    if gone.contains(entity) {
                        let k = choose|k: int| 0 <= k < gone.len() && gone[k] == entity;
                        assert(all[k] == entity);
                        assert(false);
                    }
                    assert(game_world.rows().dom().contains(entity));
                }
                let r = store::despawn(&mut game_world.world, entity);
                proof {
                    lemma_despawned_wf(w1, game_world.world, entity);
                    let more = events.take(i + 1).filter_map(f);
                    assert(more.to_set() =~= gone.to_set().insert(entity)) by {
                        assert forall|x: hecs::Entity| more.to_set().contains(x)
                            <==> gone.to_set().insert(entity).contains(x) by {
                            if more.contains(x) {
                                let k = choose|k: int| 0 <= k < more.len() && more[k] == x;
                                if k < gone.len() {
                                    assert(gone[k] == x);
                                    assert(gone.contains(x));
                                }
                            }
                            if gone.contains(x) {
                                let k = choose|k: int| 0 <= k < gone.len() && gone[k] == x;
                                assert(more[k] == x);
                            }
                            assert(more[gone.len() as int] == entity);
                        }
                    }
                    assert(game_world.rows() =~= rows.remove_keys(more.to_set()));
                }
            },
            _ => {},
        }
        i += 1;
    }
    proof {
        assert(events.take(n as int) =~= events);
    }
}

/// Whether the queue holds the end of the game.
pub open spec fn has_game_over(events: Seq<Event>) -> bool {
    exists|i: int| 0 <= i < events.len() && (#[trigger] events[i]) is GameOver
}

/// Starts the game anew where the queue holds the end of the game: a new
/// snake is spawned and every entity that was live leaves, so that no handle
/// from before the reset names an entity after it. Says whether it did.
pub fn game_over_system(game_world: &mut GameWorld) -> (over: bool)
    requires
        old(game_world).wf(),
        has_game_over(old(game_world).events@) ==> old(game_world).order().len() + 2 <= u32::MAX,
    ensures
        final(game_world).wf(),
        final(game_world).events == old(game_world).events,
        over == has_game_over(old(game_world).events@),
        !over ==> final(game_world).world == old(game_world).world,
        over ==> exists|head: hecs::Entity, tail: hecs::Entity|
            head != tail && final(game_world).rows() == store::no_rows().insert(
                head,
                first_head_row(),
            ).insert(tail, first_segment_row(head)),
        over ==> final(game_world).order().len() == 2,
        over ==> forall|e: hecs::Entity| #[trigger]
            old(game_world).has(e) ==> !final(game_world).has(e),
{
    let n = game_world.events.len();
    let mut found = false;
    let mut i: usize = 0;
    while i < n
        invariant
            0 <= i <= n,
            n == game_world.events@.len(),
            game_world == old(game_world),
            found == has_game_over(game_world.events@.take(i as int)),
        decreases n - i,
    {
        let ghost front = game_world.events@.take(i as int);
        let ghost longer = game_world.events@.take(i + 1);
        proof {
            if has_game_over(front) {
                let k = choose|k: int| 0 <= k < front.len() && (#[trigger] front[k]) is GameOver;
                assert(longer[k] is GameOver);
            }
            if has_game_over(longer) {
                let k = choose|k: int| 0 <= k < longer.len() && (#[trigger] longer[k]) is GameOver;
                if k < i {
                    assert(front[k] is GameOver);
                }
            }
            assert(longer[i as int] == game_world.events@[i as int]);
        }
        match game_world.events[i] {
            Event::GameOver => {
                found = true;
            },
            _ => {},
        }
        i += 1;
    }
    proof {
        assert(game_world.events@.take(n as int) =~= game_world.events@);
    }
    if found {
        let ghost before = game_world.world;
        let all = store::entities(&game_world.world);
        create_snake_system(game_world);
        let ghost between = game_world.world;
        proof {
            assert forall|k: int| 0 <= k < all@.len() implies game_world.has(#[trigger] all@[k]) by {
                assert(world_order(before).contains(all@[k]));
            }
        }
        game_world.despawn_each(&all);
        proof {
            let (head, tail) = choose|head: hecs::Entity, tail: hecs::Entity|
                snake_added(before, between, head, tail);
            assert forall|e: hecs::Entity| world_rows(before).dom().contains(e) implies all@.to_set().contains(
                e,
            ) by {
                assert(world_order(before).contains(e));
            }
            assert forall|e: hecs::Entity| all@.to_set().contains(e) implies world_rows(
                before,
            ).dom().contains(e) by {
                assert(world_order(before).contains(e));
            }
            assert(game_world.rows() =~= store::no_rows().insert(head, first_head_row()).insert(
                tail,
                first_segment_row(head),
            ));
            assert(head != tail && game_world.rows() == store::no_rows().insert(
                head,
                first_head_row(),
            ).insert(tail, first_segment_row(head)));
        }
        return true;
    }
    false
}

/// The most pieces of food that lie on the field at once.
pub const FOOD_CAP: usize = 10;

/// The row of a piece of food on `cell`.
pub open spec fn food_row(cell: GridVec) -> Row {
    Row::morsel(Position(cell), Collision { kind: CollsionKind::Food }, AssetType::Food)
}

/// How many live entities carry the mark of food.
pub open spec fn food_population(rows: Map<hecs::Entity, Row>) -> nat {
    wanted(rows, store::wants_food()).len()
}

/// Whether `cell` is on the field where food appears.
pub open spec fn on_field(cell: GridVec) -> bool {
    -24 <= cell.x <= 24 && -15 <= cell.y <= 15
}

/// Puts a piece of food on `cell`.
pub fn place_food(game_world: &mut GameWorld, cell: GridVec)
    requires
        old(game_world).wf(),
        old(game_world).order().len() < u32::MAX,
    ensures
        final(game_world).wf(),
        final(game_world).events == old(game_world).events,
        exists|e: hecs::Entity|
            spawned(old(game_world).world, final(game_world).world, e, food_row(cell)),
        food_population(final(game_world).rows()) == food_population(old(game_world).rows()) + 1,
{
    let ghost w0 = game_world.world;
    let e = store::spawn_morsel(
        &mut game_world.world,
        Position(cell),
        Collision::food(),
        AssetType::Food,
    );
    proof {
        lemma_spawned_wf(w0, game_world.world, e, food_row(cell));
        lemma_select_counts(w0, store::wants_food());
        lemma_select_counts(game_world.world, store::wants_food());
        assert(wanted(game_world.rows(), store::wants_food()) =~= wanted(
            world_rows(w0),
            store::wants_food(),
        ).insert(e));
    }
}

/// Puts a piece of food on a cell of the field that chance picks, unless
/// the field holds the most it may.
pub fn add_food_system(game_world: &mut GameWorld)
    requires
        old(game_world).wf(),
        food_population(old(game_world).rows()) < FOOD_CAP ==> old(game_world).order().len()
            < u32::MAX,
    ensures
        final(game_world).wf(),
        final(game_world).events == old(game_world).events,
        food_population(old(game_world).rows()) >= FOOD_CAP ==> final(game_world).world == old(
            game_world,
        ).world,
        food_population(old(game_world).rows()) < FOOD_CAP ==> exists|
            e: hecs::Entity,
            cell: GridVec,
        |
            on_field(cell) && spawned(
                old(game_world).world,
                final(game_world).world,
                e,
                food_row(cell),
            ),
        food_population(old(game_world).rows()) < FOOD_CAP ==> food_population(
            final(game_world).rows(),
        ) == food_population(old(game_world).rows()) + 1,
        food_population(old(game_world).rows()) <= FOOD_CAP ==> food_population(
            final(game_world).rows(),
        ) <= FOOD_CAP,
{
    proof {
        lemma_select_counts(game_world.world, store::wants_food());
    }
    let food = store::food_count(&game_world.world);
    if food >= FOOD_CAP {
        return ;
    }
    let x = random::between(-24, 24);
    let y = random::between(-15, 15);
    let ghost w0 = game_world.world;
    place_food(game_world, GridVec::new(x, y));
    proof {
        let e = choose|e: hecs::Entity|
            spawned(w0, game_world.world, e, food_row(GridVec { x, y }));
        assert(on_field(GridVec { x, y }) && spawned(
            w0,
            game_world.world,
            e,
            food_row(GridVec { x, y }),
        ));
    }
}

/// The kind and the position of each entity that has both, in the order of
/// the walk.
pub open spec fn sprite_items(w: hecs::World) -> Seq<(AssetType, Position)> {
    gather(world_order(w), world_rows(w), store::wants_sprite(), store::takes_sprite())
}

/// The command that draws an entity of the given kind and position: a
/// square of six indices, unrotated.
pub open spec fn sprite_command(item: (AssetType, Position)) -> SpriteRenderCommand {
    SpriteRenderCommand { binding: item.0, position: item.1.0, heading: None, num_of_elements: 6 }
}

/// Appends the command that draws it for each entity that has a kind and a
/// position, in the order of the walk.
pub fn gather_render_cmds(game_world: &mut GameWorld, commands: &mut Vec<SpriteRenderCommand>)
    ensures
        *final(game_world) == *old(game_world),
        final(commands)@ == old(commands)@ + sprite_items(old(game_world).world).map_values(
            |item: (AssetType, Position)| sprite_command(item),
        ),
{
    let items = store::sprites(&game_world.world);
    let ghost f = |item: (AssetType, Position)| sprite_command(item);
    proof {
        assert(commands@ =~= old(commands)@ + items@.take(0).map_values(f));
    }
    let mut i: usize = 0;
    while i < items.len()
        invariant
            0 <= i <= items.len(),
            f == |item: (AssetType, Position)| sprite_command(item),
            commands@ == old(commands)@ + items@.take(i as int).map_values(f),
        decreases items.len() - i,
    {
        let (asset, position) = items[i];
        proof {
            assert(items@[i as int] == (asset, position));
        }
        commands.push(
            SpriteRenderCommand {
                binding: asset,
                position: position.0,
                heading: None,
                num_of_elements: 6,
            },
        );
        proof {
            assert(items@.take(i + 1) =~= items@.take(i as int).push(items@[i as int]));
            assert(commands@ =~= old(commands)@ + items@.take(i + 1).map_values(f));
        }
        i += 1;
    }
    proof {
        assert(items@.take(items@.len() as int) =~= items@);
    }
}

/// The direction and the position of each entity that has both, in the
/// order of the walk.
pub open spec fn facing_items(w: hecs::World) -> Seq<(HeadDirection, Position)> {
    gather(world_order(w), world_rows(w), store::wants_facing(), store::takes_facing())
}

/// The command that draws the arrow of an entity with the given direction
/// and position: one cell ahead of the entity, pointing the way it faces.
pub open spec fn arrow_command(item: (HeadDirection, Position)) -> SpriteRenderCommand {
    SpriteRenderCommand {
        binding: AssetType::Arrow,
        position: item.1.0.spec_plus(item.0.0.spec_velocity()),
        heading: Some(item.0.0),
        num_of_elements: 9,
    }
}

/// Whether the cell ahead of every entity that has a direction and a
/// position has `i32` coordinates.
pub open spec fn arrows_fit(w: hecs::World) -> bool {
    forall|i: int|
        0 <= i < facing_items(w).len() ==> (#[trigger] facing_items(w)[i]).1.0.can_add(
            facing_items(w)[i].0.0.spec_velocity(),
        )
}

/// Appends, for each entity that has a direction and a position, the command
/// that draws an arrow one cell ahead of it.
pub fn debug_render_cmds(game_world: &mut GameWorld, cmds: &mut Vec<SpriteRenderCommand>)
    requires
        arrows_fit(old(game_world).world),
    ensures
        *final(game_world) == *old(game_world),
        final(cmds)@ == old(cmds)@ + facing_items(old(game_world).world).map_values(
            |item: (HeadDirection, Position)| arrow_command(item),
        ),
{
    let items = store::facings(&game_world.world);
    let ghost f = |item: (HeadDirection, Position)| arrow_command(item);
    proof {
        assert(cmds@ =~= old(cmds)@ + items@.take(0).map_values(f));
    }
    let mut i: usize = 0;
    while i < items.len()
        invariant
            0 <= i <= items.len(),
            items@ == facing_items(game_world.world),
            arrows_fit(game_world.world),
            f == |item: (HeadDirection, Position)| arrow_command(item),
            cmds@ == old(cmds)@ + items@.take(i as int).map_values(f),
        decreases items.len() - i,
    {
        let (direction, position) = items[i];
        proof {
            assert(items@[i as int] == (direction, position));
        }
        let step = direction.0.velocity();
        cmds.push(
            SpriteRenderCommand {
                binding: AssetType::Arrow,
                position: position.0.plus(step),
                heading: Some(direction.0),
                num_of_elements: 9,
            },
        );
        proof {
            assert(items@.take(i + 1) =~= items@.take(i as int).push(items@[i as int]));
            assert(cmds@ =~= old(cmds)@ + items@.take(i + 1).map_values(f));
        }
        i += 1;
    }
    proof {
        assert(items@.take(items@.len() as int) =~= items@);
    }
}

/// The texts that have a position, each with it, in the order of the walk.
pub open spec fn label_items(w: hecs::World) -> Seq<(Text, Position)> {
    gather(world_order(w), world_rows(w), store::wants_label(), store::takes_label())
}

/// Whether `text` is among `loaded`.
pub open spec fn is_loaded(loaded: Seq<String>, text: Seq<char>) -> bool {
    exists|i: int| 0 <= i < loaded.len() && (#[trigger] loaded[i])@ == text
}

/// The command that draws a text whose geometry is ready.
pub open spec fn shown(item: (Text, Position), loaded: Seq<String>) -> Option<FontCommandView> {
    if is_loaded(loaded, item.0.spec_text()) {
        Some(
            FontCommandView {
                font: "KenneyFuture"@,
                text: item.0.spec_text(),
                position: item.1.0,
            },
        )
    } else {
        None
    }
}

/// The command that asks for the geometry of a text that has none yet.
pub open spec fn wanted_text(item: (Text, Position), loaded: Seq<String>) -> Option<
    AssetCommandView,
> {
    if is_loaded(loaded, item.0.spec_text()) {
        None
    } else {
        Some(AssetCommandView::LoadText { text: item.0.spec_text(), font: "KenneyFuture"@ })
    }
}

/// The commands of a sequence, each with its strings as sequences of
/// characters.
pub open spec fn font_views(cmds: Seq<RenderFontCommand>) -> Seq<FontCommandView> {
    cmds.map_values(|c: RenderFontCommand| c@)
}

/// The commands of a sequence, each with its strings as sequences of
/// characters.
pub open spec fn asset_views(cmds: Seq<RenderAssetCommands>) -> Seq<AssetCommandView> {
    cmds.map_values(|c: RenderAssetCommands| c@)
}

/// Whether `text` is among `loaded`.
fn text_is_loaded(loaded: &Vec<String>, text: &String) -> (found: bool)
    ensures
        found == is_loaded(loaded@, text@),
{
    let mut i: usize = 0;
    while i < loaded.len()
        invariant
            0 <= i <= loaded.len(),
            forall|k: int| 0 <= k < i ==> (#[trigger] loaded@[k])@ != text@,
        decreases loaded.len() - i,
    {
        if loaded[i] == *text {
            return true;
        }
        i += 1;
    }
    false
}

/// For each text that has a position: where its geometry is among the
/// `loaded` ones, appends the command that draws it; where it is not, appends
/// the request to prepare it.
pub fn draw_text(
    game_world: &mut GameWorld,
    loaded: &Vec<String>,
    font_commands: &mut Vec<RenderFontCommand>,
    asset_commands: &mut Vec<RenderAssetCommands>,
)
    ensures
        *final(game_world) == *old(game_world),
        font_views(final(font_commands)@) == font_views(old(font_commands)@) + label_items(
            old(game_world).world,
        ).filter_map(|item: (Text, Position)| shown(item, loaded@)),
        asset_views(final(asset_commands)@) == asset_views(old(asset_commands)@) + label_items(
            old(game_world).world,
        ).filter_map(|item: (Text, Position)| wanted_text(item, loaded@)),
{
    let items = store::labels(&game_world.world);
    let ghost show = |item: (Text, Position)| shown(item, loaded@);
    let ghost want = |item: (Text, Position)| wanted_text(item, loaded@);
    proof {
        assert(items@.take(0).filter_map(show) =~= Seq::empty());
        assert(items@.take(0).filter_map(want) =~= Seq::empty());
        assert(font_views(font_commands@) =~= font_views(old(font_commands)@) + items@.take(
            0,
        ).filter_map(show));
        assert(asset_views(asset_commands@) =~= asset_views(old(asset_commands)@) + items@.take(
            0,
        ).filter_map(want));
    }
    let mut i: usize = 0;
    while i < items.len()
        invariant
            0 <= i <= items.len(),
            show == |item: (Text, Position)| shown(item, loaded@),
            want == |item: (Text, Position)| wanted_text(item, loaded@),
            font_views(font_commands@) == font_views(old(font_commands)@) + items@.take(
                i as int,
            ).filter_map(show),
            asset_views(asset_commands@) == asset_views(old(asset_commands)@) + items@.take(
                i as int,
            ).filter_map(want),
        decreases items.len() - i,
    {
        let ghost fonts = font_commands@;
        let ghost assets = asset_commands@;
        let string = items[i].0.text();
        let position = items[i].1;
        proof {
            items@.lemma_filter_map_take_succ(show, i as int);
            items@.lemma_filter_map_take_succ(want, i as int);
        }
        if text_is_loaded(loaded, &string) {
            let cmd = RenderFontCommand {
                font: "KenneyFuture".to_owned(),
                text: string,
                position: position.0,
            };
            font_commands.push(cmd);
            proof {
                assert(font_views(font_commands@) =~= font_views(fonts).push(cmd@));
                assert(font_views(font_commands@) =~= font_views(old(font_commands)@) + items@.take(
                    i + 1,
                ).filter_map(show));
            }
        } else {
            let cmd = RenderAssetCommands::LoadText {
                text: string,
                font: "KenneyFuture".to_owned(),
            };
            asset_commands.push(cmd);
            proof {
                assert(asset_views(asset_commands@) =~= asset_views(assets).push(cmd@));
                assert(asset_views(asset_commands@) =~= asset_views(old(asset_commands)@)
                    + items@.take(i + 1).filter_map(want));
            }
        }
        i += 1;
    }
    proof {
        assert(items@.take(items@.len() as int) =~= items@);
    }
}

} // verus!
