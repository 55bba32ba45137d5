//! The entity store. The world is a `hecs::World`; this module says what it
//! holds, as a map from live entities to their components and the order in
//! which it walks them, and gives each call into it a contract over the two.
//!
//! Nothing in this module is proved: each function here makes one call into
//! `hecs`, and its contract is what the rest of the library takes on trust.

use vstd::prelude::*;
use crate::assets::AssetType;
use crate::components::{
    Collision, Food, HeadDirection, Position, Score, Snake, Tail, Text, Velocity,
};

verus! {

/// `hecs::World`, the entity store. Nothing is seen of what is inside it but
/// through the functions of this module.
#[verifier::external_type_specification]
#[verifier::external_body]
pub struct ExWorld(hecs::World);

/// `hecs::Entity`, the handle of an entity. Two handles are the same where
/// they name the same entity.
#[verifier::external_type_specification]
#[verifier::external_body]
pub struct ExEntity(hecs::Entity);

/// `hecs::NoSuchEntity`, the error of a despawn of an entity that is not
/// live.
#[verifier::external_type_specification]
#[verifier::external_body]
pub struct ExNoSuchEntity(hecs::NoSuchEntity);

/// The components of one entity, as far as this library knows them. A
/// marker is `true` where the entity carries it; a component is `Some` where
/// the entity has one.
pub struct Row {
    pub snake: bool,
    pub food: bool,
    pub score: bool,
    pub asset: Option<AssetType>,
    pub position: Option<Position>,
    pub velocity: Option<Velocity>,
    pub direction: Option<HeadDirection>,
    pub tail: Option<Tail>,
    pub collision: Option<Collision>,
    pub text: Option<Text>,
}

impl Row {
    /// The row of an entity without components.
    pub open spec fn bare() -> Row {
        Row {
            snake: false,
            food: false,
            score: false,
            asset: None,
            position: None,
            velocity: None,
            direction: None,
            tail: None,
            collision: None,
            text: None,
        }
    }

    /// The row of a head spawned with these components.
    pub open spec fn head(
        asset: AssetType,
        position: Position,
        velocity: Velocity,
        direction: HeadDirection,
    ) -> Row {
        Row {
            snake: true,
            asset: Some(asset),
            position: Some(position),
            velocity: Some(velocity),
            direction: Some(direction),
            ..Row::bare()
        }
    }

    /// The row of a tail segment spawned with these components.
    pub open spec fn segment(
        tail: Tail,
        asset: AssetType,
        collision: Collision,
        position: Position,
    ) -> Row {
        Row {
            tail: Some(tail),
            asset: Some(asset),
            collision: Some(collision),
            position: Some(position),
            ..Row::bare()
        }
    }

    /// The row of a piece of food spawned with these components.
    pub open spec fn morsel(position: Position, collision: Collision, asset: AssetType) -> Row {
        Row {
            food: true,
            position: Some(position),
            collision: Some(collision),
            asset: Some(asset),
            ..Row::bare()
        }
    }

    /// The row of a score display spawned with these components.
    pub open spec fn score_board(position: Position, text: Text) -> Row {
        Row { score: true, position: Some(position), text: Some(text), ..Row::bare() }
    }

    pub open spec fn with_position(self, position: Position) -> Row {
        Row { position: Some(position), ..self }
    }

    pub open spec fn with_velocity(self, velocity: Velocity) -> Row {
        Row { velocity: Some(velocity), ..self }
    }

    pub open spec fn with_direction(self, direction: HeadDirection) -> Row {
        Row { direction: Some(direction), ..self }
    }

    pub open spec fn with_text(self, text: Text) -> Row {
        Row { text: Some(text), ..self }
    }
}

/// The live entities of a world, each with its components.
pub uninterp spec fn world_rows(w: hecs::World) -> Map<hecs::Entity, Row>;

/// The live entities of a world in the order in which the world walks them.
/// Every query walks in this order and passes over what it does not match.
pub uninterp spec fn world_order(w: hecs::World) -> Seq<hecs::Entity>;

/// The entities of `order`, in that order, whose row meets `want`.
pub open spec fn select(
    order: Seq<hecs::Entity>,
    rows: Map<hecs::Entity, Row>,
    want: spec_fn(Row) -> bool,
) -> Seq<hecs::Entity>
    decreases order.len(),
{
    if order.len() == 0 {
        Seq::empty()
    } else {
        let rest = select(order.drop_last(), rows, want);
        if want(rows[order.last()]) {
            rest.push(order.last())
        } else {
            rest
        }
    }
}

/// What a query hands out: for each entity of the walk whose row meets
/// `want`, what `take` makes of the entity and its row.
pub open spec fn gather<T>(
    order: Seq<hecs::Entity>,
    rows: Map<hecs::Entity, Row>,
    want: spec_fn(Row) -> bool,
    take: spec_fn(hecs::Entity, Row) -> T,
) -> Seq<T> {
    select(order, rows, want).map_values(|e: hecs::Entity| take(e, rows[e]))
}

pub open spec fn no_rows() -> Map<hecs::Entity, Row> {
    Map::empty()
}

/// An empty world, from `hecs::World::new`.
#[verifier::external_body]
pub(crate) fn new_world() -> (w: hecs::World)
    ensures
        world_rows(w) == no_rows(),
        world_order(w).len() == 0,
{
    hecs::World::new()
}

/// How many entities are live, from `hecs::World::len`.
#[verifier::external_body]
pub(crate) fn count(world: &hecs::World) -> (n: u32)
    ensures
        n == world_order(*world).len(),
{
    world.len()
}

/// Whether the entity is live, from `hecs::World::contains`.
#[verifier::external_body]
pub(crate) fn is_live(world: &hecs::World, e: hecs::Entity) -> (b: bool)
    ensures
        b == world_rows(*world).dom().contains(e),
{
    world.contains(e)
}

/// What a spawn does, whatever the components: the new entity was not live
/// before, it is live with exactly `row` after, every other entity is as it
/// was, and the walk has the new entity at some place among the others, whose
/// order among themselves stays.
pub open spec fn spawned(before: hecs::World, after: hecs::World, e: hecs::Entity, row: Row) -> bool {
    &&& !world_rows(before).dom().contains(e)
    &&& world_rows(after) == world_rows(before).insert(e, row)
    &&& exists|i: int|
        0 <= i <= world_order(before).len() && world_order(after) == world_order(before).insert(
            i,
            e,
        )
}

/// `hecs::World::spawn` with the components of a head. The call fails where
/// the world is full, which the contract leaves out.
#[verifier::external_body]
pub(crate) fn spawn_head(
    world: &mut hecs::World,
    asset: AssetType,
    position: Position,
    velocity: Velocity,
    direction: HeadDirection,
) -> (e: hecs::Entity)
    requires
        world_order(*old(world)).len() < u32::MAX,
    ensures
        spawned(*old(world), *final(world), e, Row::head(asset, position, velocity, direction)),
{
    world.spawn((Snake, asset, position, velocity, direction))
}

/// `hecs::World::spawn` with the components of a tail segment.
#[verifier::external_body]
pub(crate) fn spawn_segment(
    world: &mut hecs::World,
    tail: Tail,
    asset: AssetType,
    collision: Collision,
    position: Position,
) -> (e: hecs::Entity)
    requires
        world_order(*old(world)).len() < u32::MAX,
    ensures
        spawned(*old(world), *final(world), e, Row::segment(tail, asset, collision, position)),
{
    world.spawn((tail, asset, collision, position))
}

/// `hecs::World::spawn` with the components of a piece of food.
#[verifier::external_body]
pub(crate) fn spawn_morsel(
    world: &mut hecs::World,
    position: Position,
    collision: Collision,
    asset: AssetType,
) -> (e: hecs::Entity)
    requires
        world_order(*old(world)).len() < u32::MAX,
    ensures
        spawned(*old(world), *final(world), e, Row::morsel(position, collision, asset)),
{
    world.spawn((position, collision, Food, asset))
}

/// `hecs::World::spawn` with the components of a score display.
#[verifier::external_body]
pub(crate) fn spawn_score_board(world: &mut hecs::World, position: Position, text: Text) -> (e:
    hecs::Entity)
    requires
        world_order(*old(world)).len() < u32::MAX,
    ensures
        spawned(*old(world), *final(world), e, Row::score_board(position, text)),
{
    world.spawn((Score, position, text))
}

/// What a despawn of a live entity leaves: the other entities as they
/// were. In the walk the entity is gone, and the place it had is closed
/// either by moving up all that came after it, or by one entity from further
/// on in the walk that steps into the place.
pub open spec fn despawned(before: hecs::World, after: hecs::World, e: hecs::Entity) -> bool {
    &&& world_rows(after) == world_rows(before).remove(e)
    &&& exists|i: int, j: int|
        0 <= i <= j < world_order(before).len() && world_order(before)[i] == e
            && #[trigger] closed_up(world_order(before), i, j) == world_order(after)
}

/// The walk `order` with the entity at `i` overwritten by the entity at `j`,
/// which is taken from its own place.
pub open spec fn closed_up(order: Seq<hecs::Entity>, i: int, j: int) -> Seq<hecs::Entity> {
    order.update(i, order[j]).remove(j)
}

/// `hecs::World::despawn`: a live entity leaves with all its components;
/// for one that is not live the world stays as it is and the call fails.
#[verifier::external_body]
pub(crate) fn despawn(world: &mut hecs::World, e: hecs::Entity) -> (r: Result<
    (),
    hecs::NoSuchEntity,
>)
    ensures
        r is Ok <==> world_rows(*old(world)).dom().contains(e),
        r is Ok ==> despawned(*old(world), *final(world), e),
        r is Err ==> *final(world) == *old(world),
{
    world.despawn(e)
}

/// The live entities in the order of the walk, from `hecs::World::iter`.
#[verifier::external_body]
pub(crate) fn entities(world: &hecs::World) -> (all: Vec<hecs::Entity>)
    ensures
        all@ == world_order(*world),
{
    world.iter().map(|entity| entity.entity()).collect()
}

/// The position of an entity, from `hecs::World::get`: `None` where the
/// entity is not live or has no position.
#[verifier::external_body]
pub(crate) fn position_of(world: &hecs::World, e: hecs::Entity) -> (p: Option<Position>)
    ensures
        p == (if world_rows(*world).dom().contains(e) {
            world_rows(*world)[e].position
        } else {
            None
        }),
{
    world.get::<Position>(e).ok().map(|p| *p)
}

/// The velocity of an entity, from `hecs::World::get`: `None` where the
/// entity is not live or has no velocity.
#[verifier::external_body]
pub(crate) fn velocity_of(world: &hecs::World, e: hecs::Entity) -> (v: Option<Velocity>)
    ensures
        v == (if world_rows(*world).dom().contains(e) {
            world_rows(*world)[e].velocity
        } else {
            None
        }),
{
    world.get::<Velocity>(e).ok().map(|v| *v)
}

/// The tail link of an entity, from `hecs::World::get`: `None` where the
/// entity is not live or is no tail link.
#[verifier::external_body]
pub(crate) fn tail_of(world: &hecs::World, e: hecs::Entity) -> (t: Option<Tail>)
    ensures
        t == (if world_rows(*world).dom().contains(e) {
            world_rows(*world)[e].tail
        } else {
            None
        }),
{
    world.get::<Tail>(e).ok().map(|t| *t)
}

/// The collision mark of an entity, from `hecs::World::get`: `None` where
/// the entity is not live or has no mark.
#[verifier::external_body]
pub(crate) fn collision_of(world: &hecs::World, e: hecs::Entity) -> (c: Option<Collision>)
    ensures
        c == (if world_rows(*world).dom().contains(e) {
            world_rows(*world)[e].collision
        } else {
            None
        }),
{
    world.get::<Collision>(e).ok().map(|c| *c)
}

/// Whether an entity is live and carries the head's mark, from
/// `hecs::World::get`.
#[verifier::external_body]
pub(crate) fn is_snake(world: &hecs::World, e: hecs::Entity) -> (b: bool)
    ensures
        b == (world_rows(*world).dom().contains(e) && world_rows(*world)[e].snake),
{
    world.get::<Snake>(e).is_ok()
}

/// Whether two handles are the same, from the `==` of `hecs::Entity`.
#[verifier::external_body]
pub(crate) fn same_entity(a: hecs::Entity, b: hecs::Entity) -> (same: bool)
    ensures
        same == (a == b),
{
    a == b
}

/// Whether the entity is live and has the component that `has` looks for.
pub open spec fn holds(w: hecs::World, e: hecs::Entity, has: spec_fn(Row) -> bool) -> bool {
    world_rows(w).dom().contains(e) && has(world_rows(w)[e])
}

/// What a write to one component of one entity does: the walk stays, and so
/// does every row but that of `e`, which becomes `row`.
pub open spec fn rewritten(before: hecs::World, after: hecs::World, e: hecs::Entity, row: Row) -> bool {
    &&& world_order(after) == world_order(before)
    &&& world_rows(after) == world_rows(before).insert(e, row)
}

/// Writes the position of an entity through `hecs::World::get_mut`.
#[verifier::external_body]
pub(crate) fn set_position(world: &mut hecs::World, e: hecs::Entity, position: Position)
    requires
        holds(*old(world), e, |r: Row| r.position is Some),
    ensures
        rewritten(
            *old(world),
            *final(world),
            e,
            world_rows(*old(world))[e].with_position(position),
        ),
{
    *world.get_mut::<Position>(e).unwrap() = position;
}

/// Writes the velocity of an entity through `hecs::World::get_mut`.
#[verifier::external_body]
pub(crate) fn set_velocity(world: &mut hecs::World, e: hecs::Entity, velocity: Velocity)
    requires
        holds(*old(world), e, |r: Row| r.velocity is Some),
    ensures
        rewritten(
            *old(world),
            *final(world),
            e,
            world_rows(*old(world))[e].with_velocity(velocity),
        ),
{
    *world.get_mut::<Velocity>(e).unwrap() = velocity;
}

/// Writes the direction of an entity through `hecs::World::get_mut`.
#[verifier::external_body]
pub(crate) fn set_direction(world: &mut hecs::World, e: hecs::Entity, direction: HeadDirection)
    requires
        holds(*old(world), e, |r: Row| r.direction is Some),
    ensures
        rewritten(
            *old(world),
            *final(world),
            e,
            world_rows(*old(world))[e].with_direction(direction),
        ),
{
    *world.get_mut::<HeadDirection>(e).unwrap() = direction;
}

/// Writes the text of an entity through `hecs::World::get_mut`.
#[verifier::external_body]
pub(crate) fn set_text(world: &mut hecs::World, e: hecs::Entity, text: Text)
    requires
        holds(*old(world), e, |r: Row| r.text is Some),
    ensures
        rewritten(*old(world), *final(world), e, world_rows(*old(world))[e].with_text(text)),
{
    *world.get_mut::<Text>(e).unwrap() = text;
}

/// Whether `after` holds the entities of `before`, each with what `change`
/// makes of its row.
pub open spec fn changed_by(
    before: Map<hecs::Entity, Row>,
    after: Map<hecs::Entity, Row>,
    change: spec_fn(Row) -> Row,
) -> bool {
    &&& after.dom() == before.dom()
    &&& forall|e: hecs::Entity| #[trigger] before.dom().contains(e) ==> after[e] == change(before[e])
}

/// The entities of `order` that are in `keep`, in their order.
pub open spec fn kept_of(order: Seq<hecs::Entity>, keep: Set<hecs::Entity>) -> Seq<hecs::Entity>
    decreases order.len(),
{
    if order.len() == 0 {
        Seq::empty()
    } else {
        let rest = kept_of(order.drop_last(), keep);
        if keep.contains(order.last()) {
            rest.push(order.last())
        } else {
            rest
        }
    }
}

/// Whether the walk `after` is the walk `before` with new entities put in
/// between: what is left of `after` when all but the entities of `before`
/// are taken out is `before`.
pub open spec fn walk_extends(before: Seq<hecs::Entity>, after: Seq<hecs::Entity>) -> bool {
    kept_of(after, before.to_set()) == before
}

/// A world is well formed where its walk visits each live entity once and
/// nothing else. A new world is, and every call of this module keeps it so.
pub open spec fn world_wf(w: hecs::World) -> bool {
    &&& world_order(w).no_duplicates()
    &&& forall|e: hecs::Entity| world_order(w).contains(e) <==> world_rows(w).dom().contains(e)
}

/// The rows a query for input steering matches: heads with a velocity and a
/// direction.
pub open spec fn wants_steerable() -> spec_fn(Row) -> bool {
    |r: Row| r.snake && r.velocity is Some && r.direction is Some
}

pub open spec fn takes_velocity() -> spec_fn(hecs::Entity, Row) -> (hecs::Entity, Velocity) {
    |e: hecs::Entity, r: Row| (e, r.velocity.unwrap())
}

/// The entities with a velocity, a direction and the head's mark, each with
/// its velocity, from `hecs::World::query`.
#[verifier::external_body]
pub(crate) fn steerable(world: &hecs::World) -> (items: Vec<(hecs::Entity, Velocity)>)
    ensures
        items@ == gather(world_order(*world), world_rows(*world), wants_steerable(), takes_velocity()),
{
    world.query::<(&Velocity, &HeadDirection, &Snake)>().iter().map(|(e, (v, _, _))| (e, *v)).collect()
}

pub open spec fn wants_food() -> spec_fn(Row) -> bool {
    |r: Row| r.food
}

/// How many entities carry the mark of food, from `hecs::World::query`.
#[verifier::external_body]
pub(crate) fn food_count(world: &hecs::World) -> (n: usize)
    ensures
        n == select(world_order(*world), world_rows(*world), wants_food()).len(),
{
    world.query::<&Food>().iter().count()
}

pub open spec fn wants_directed() -> spec_fn(Row) -> bool {
    |r: Row| r.velocity is Some && r.direction is Some
}

pub open spec fn takes_direction() -> spec_fn(hecs::Entity, Row) -> (hecs::Entity, HeadDirection) {
    |e: hecs::Entity, r: Row| (e, r.direction.unwrap())
}

/// The entities with a velocity and a direction, each with its direction,
/// from `hecs::World::query`.
#[verifier::external_body]
pub(crate) fn directed(world: &hecs::World) -> (items: Vec<(hecs::Entity, HeadDirection)>)
    ensures
        items@ == gather(world_order(*world), world_rows(*world), wants_directed(), takes_direction()),
{
    world.query::<(&Velocity, &HeadDirection)>().iter().map(|(e, (_, d))| (e, *d)).collect()
}

pub open spec fn wants_mover() -> spec_fn(Row) -> bool {
    |r: Row| r.position is Some && r.velocity is Some
}

pub open spec fn takes_motion() -> spec_fn(hecs::Entity, Row) -> (hecs::Entity, Position, Velocity) {
    |e: hecs::Entity, r: Row| (e, r.position.unwrap(), r.velocity.unwrap())
}

/// The entities with a position and a velocity, each with both, from
/// `hecs::World::query`.
#[verifier::external_body]
pub(crate) fn movers(world: &hecs::World) -> (items: Vec<(hecs::Entity, Position, Velocity)>)
    ensures
        items@ == gather(world_order(*world), world_rows(*world), wants_mover(), takes_motion()),
{
    world.query::<(&Position, &Velocity)>().iter().map(|(e, (p, v))| (e, *p, *v)).collect()
}

pub open spec fn wants_placed_tail() -> spec_fn(Row) -> bool {
    |r: Row| r.tail is Some && r.position is Some
}

pub open spec fn takes_placed_tail() -> spec_fn(hecs::Entity, Row) -> (hecs::Entity, Tail, Position) {
    |e: hecs::Entity, r: Row| (e, r.tail.unwrap(), r.position.unwrap())
}

/// The entities with a tail link and a position, each with both, from
/// `hecs::World::query`.
#[verifier::external_body]
pub(crate) fn placed_tails(world: &hecs::World) -> (items: Vec<(hecs::Entity, Tail, Position)>)
    ensures
        items@ == gather(
            world_order(*world),
            world_rows(*world),
            wants_placed_tail(),
            takes_placed_tail(),
        ),
{
    world.query::<(&Tail, &Position)>().iter().map(|(e, (t, p))| (e, *t, *p)).collect()
}

pub open spec fn wants_head() -> spec_fn(Row) -> bool {
    |r: Row| r.snake && r.position is Some && r.velocity is Some
}

/// The entities with the head's mark, a position and a velocity, each with
/// the latter two, from `hecs::World::query`.
#[verifier::external_body]
pub(crate) fn heads(world: &hecs::World) -> (items: Vec<(hecs::Entity, Position, Velocity)>)
    ensures
        items@ == gather(world_order(*world), world_rows(*world), wants_head(), takes_motion()),
{
    world.query::<(&Snake, &Position, &Velocity)>().iter().map(|(e, (_, p, v))| (e, *p, *v)).collect()
}

pub open spec fn wants_obstacle() -> spec_fn(Row) -> bool {
    |r: Row| r.position is Some && r.collision is Some
}

pub open spec fn takes_obstacle() -> spec_fn(hecs::Entity, Row) -> (hecs::Entity, Position, Collision) {
    |e: hecs::Entity, r: Row| (e, r.position.unwrap(), r.collision.unwrap())
}

/// The entities with a position and a collision mark, each with both, from
/// `hecs::World::query`.
#[verifier::external_body]
pub(crate) fn obstacles(world: &hecs::World) -> (items: Vec<(hecs::Entity, Position, Collision)>)
    ensures
        items@ == gather(world_order(*world), world_rows(*world), wants_obstacle(), takes_obstacle()),
{
    world.query::<(&Position, &Collision)>().iter().map(|(e, (p, c))| (e, *p, *c)).collect()
}

pub open spec fn wants_sprite() -> spec_fn(Row) -> bool {
    |r: Row| r.asset is Some && r.position is Some
}

pub open spec fn takes_sprite() -> spec_fn(hecs::Entity, Row) -> (AssetType, Position) {
    |e: hecs::Entity, r: Row| (r.asset.unwrap(), r.position.unwrap())
}

/// The kind and the position of each entity that has both, from
/// `hecs::World::query`.
#[verifier::external_body]
pub(crate) fn sprites(world: &hecs::World) -> (items: Vec<(AssetType, Position)>)
    ensures
        items@ == gather(world_order(*world), world_rows(*world), wants_sprite(), takes_sprite()),
{
    world.query::<(&AssetType, &Position)>().iter().map(|(_, (a, p))| (*a, *p)).collect()
}

pub open spec fn wants_facing() -> spec_fn(Row) -> bool {
    |r: Row| r.direction is Some && r.position is Some
}

pub open spec fn takes_facing() -> spec_fn(hecs::Entity, Row) -> (HeadDirection, Position) {
    |e: hecs::Entity, r: Row| (r.direction.unwrap(), r.position.unwrap())
}

/// The direction and the position of each entity that has both, from
/// `hecs::World::query`.
#[verifier::external_body]
pub(crate) fn facings(world: &hecs::World) -> (items: Vec<(HeadDirection, Position)>)
    ensures
        items@ == gather(world_order(*world), world_rows(*world), wants_facing(), takes_facing()),
{
    world.query::<(&HeadDirection, &Position)>().iter().map(|(_, (d, p))| (*d, *p)).collect()
}

pub open spec fn wants_label() -> spec_fn(Row) -> bool {
    |r: Row| r.text is Some && r.position is Some
}

pub open spec fn takes_label() -> spec_fn(hecs::Entity, Row) -> (Text, Position) {
    |e: hecs::Entity, r: Row| (r.text.unwrap(), r.position.unwrap())
}

/// A copy of the text, and the position, of each entity that has both, from
/// `hecs::World::query`.
#[verifier::external_body]
pub(crate) fn labels(world: &hecs::World) -> (items: Vec<(Text, Position)>)
    ensures
        items@ == gather(world_order(*world), world_rows(*world), wants_label(), takes_label()),
{
    world.query::<(&Text, &Position)>().iter().map(|(_, (t, p))| (t.clone(), *p)).collect()
}

pub open spec fn wants_score_board() -> spec_fn(Row) -> bool {
    |r: Row| r.score && r.text is Some
}

pub open spec fn takes_text() -> spec_fn(hecs::Entity, Row) -> (hecs::Entity, Text) {
    |e: hecs::Entity, r: Row| (e, r.text.unwrap())
}

/// The entities with the score's mark and a text, each with a copy of its
/// text, from `hecs::World::query`.
#[verifier::external_body]
pub(crate) fn score_boards(world: &hecs::World) -> (items: Vec<(hecs::Entity, Text)>)
    ensures
        items@ == gather(world_order(*world), world_rows(*world), wants_score_board(), takes_text()),
{
    world.query::<(&Score, &Text)>().iter().map(|(e, (_, t))| (e, t.clone())).collect()
}

} // verus!
