//! What holds of the snake from tick to tick: there is one head, every tail
//! link hangs on a part of the snake, and only the first link hangs on the
//! head.

use vstd::prelude::*;
use crate::components::{Collision, CollsionKind, Tail};
use crate::store;
use crate::store::{Row, changed_by, world_rows, world_wf};
use crate::systems::{
    can_move, committed, first_head_row, first_segment_row, followed, food_population, moved,
    rows_added, steered, tails_linked,
};
use crate::components::Input;
use crate::walk::{lemma_select_counts, wanted};

verus! {

/// Whether the row carries the collision mark of food.
pub open spec fn food_marked(r: Row) -> bool {
    r.collision == Some(Collision { kind: CollsionKind::Food })
}

/// Whether the row is that of a part of the snake: the head or a tail link.
pub open spec fn snake_part(r: Row) -> bool {
    r.snake || r.tail is Some
}

/// Whether `head` is the one head among `rows`.
pub open spec fn is_head(rows: Map<hecs::Entity, Row>, head: hecs::Entity) -> bool {
    &&& rows.dom().contains(head)
    &&& rows[head].snake
    &&& forall|e: hecs::Entity| #[trigger] rows.dom().contains(e) && rows[e].snake ==> e == head
}

/// The invariant of the snake with the head `head`. No part of the snake is
/// marked as food. Every tail link has a segment number of at least 1 and
/// follows a live part of the snake that has a position; a link with the
/// segment number 1 follows the head.
pub open spec fn snake_ok(rows: Map<hecs::Entity, Row>, head: hecs::Entity) -> bool {
    &&& is_head(rows, head)
    &&& forall|e: hecs::Entity| #[trigger]
        rows.dom().contains(e) && snake_part(rows[e]) ==> !food_marked(rows[e])
    &&& forall|e: hecs::Entity| #[trigger]
        rows.dom().contains(e) && rows[e].tail is Some ==> {
            let link = rows[e].tail.unwrap();
            &&& link.segment >= 1
            &&& rows.dom().contains(link.ahead)
            &&& snake_part(rows[link.ahead])
            &&& rows[link.ahead].position is Some
            &&& (link.segment == 1 ==> link.ahead == head)
        }
}

/// The tail links with the segment number 1.
pub open spec fn first_links(rows: Map<hecs::Entity, Row>) -> Set<hecs::Entity> {
    Set::new(
        |e: hecs::Entity|
            rows.dom().contains(e) && rows[e].tail is Some && rows[e].tail.unwrap().segment == 1,
    )
}

/// Whether two rows differ at most in where the entity is, how it moves,
/// which way it faces and what text it shows, and have each of the four or
/// lack it alike.
pub open spec fn same_kind(a: Row, b: Row) -> bool {
    &&& a.snake == b.snake
    &&& a.food == b.food
    &&& a.score == b.score
    &&& a.asset == b.asset
    &&& a.tail == b.tail
    &&& a.collision == b.collision
    &&& (a.text is Some) == (b.text is Some)
    &&& (a.position is Some) == (b.position is Some)
    &&& (a.velocity is Some) == (b.velocity is Some)
    &&& (a.direction is Some) == (b.direction is Some)
}

/// Whether two tables hold the same entities, each with rows of the same
/// kind.
pub open spec fn same_kinds(a: Map<hecs::Entity, Row>, b: Map<hecs::Entity, Row>) -> bool {
    &&& a.dom() == b.dom()
    &&& forall|e: hecs::Entity| #[trigger] a.dom().contains(e) ==> same_kind(a[e], b[e])
}

/// The invariant of the snake does not depend on where its parts are, how
/// they move or which way they face.
pub proof fn lemma_same_kinds_snake_ok(
    a: Map<hecs::Entity, Row>,
    b: Map<hecs::Entity, Row>,
    head: hecs::Entity,
)
    requires
        same_kinds(a, b),
        snake_ok(a, head),
    ensures
        snake_ok(b, head),
{
    assert forall|e: hecs::Entity| #[trigger] b.dom().contains(e) && b[e].snake implies e
        == head by {
        assert(a.dom().contains(e));
    }
    assert forall|e: hecs::Entity| #[trigger]
        b.dom().contains(e) && snake_part(b[e]) implies !food_marked(b[e]) by {
        assert(a.dom().contains(e));
    }
    assert forall|e: hecs::Entity| #[trigger] b.dom().contains(e) && b[e].tail is Some implies {
        let link = b[e].tail.unwrap();
        &&& link.segment >= 1
        &&& b.dom().contains(link.ahead)
        &&& snake_part(b[link.ahead])
        &&& b[link.ahead].position is Some
        &&& (link.segment == 1 ==> link.ahead == head)
    } by {
        assert(a.dom().contains(e));
        assert(a.dom().contains(a[e].tail.unwrap().ahead));
    }
}

/// Whether every step that a tick can take from these rows stays within
/// `i32`: no position lies on the rim of the grid, and no velocity is longer
/// than one cell either way.
pub open spec fn steps_fit(rows: Map<hecs::Entity, Row>) -> bool {
    forall|e: hecs::Entity| #[trigger]
        rows.dom().contains(e) ==> {
            &&& rows[e].position is Some ==> {
                &&& i32::MIN < rows[e].position.unwrap().0.x < i32::MAX
                &&& i32::MIN < rows[e].position.unwrap().0.y < i32::MAX
            }
            &&& rows[e].velocity is Some ==> {
                &&& -1 <= rows[e].velocity.unwrap().0.x <= 1
                &&& -1 <= rows[e].velocity.unwrap().0.y <= 1
            }
        }
}

/// Whether every segment number can still be counted up by one.
pub open spec fn segments_fit(rows: Map<hecs::Entity, Row>) -> bool {
    forall|e: hecs::Entity| #[trigger]
        rows.dom().contains(e) && rows[e].tail is Some ==> rows[e].tail.unwrap().segment
            < usize::MAX
}

/// Whether a row, taken by itself, is one that a tick can start from: its
/// position is off the rim of the grid, its velocity no longer than a cell
/// either way, its segment number at least 1 and below the greatest, and it
/// is not both a part of the snake and marked as food.
pub open spec fn row_fits(r: Row) -> bool {
    &&& r.position is Some ==> {
        &&& i32::MIN < r.position.unwrap().0.x < i32::MAX
        &&& i32::MIN < r.position.unwrap().0.y < i32::MAX
    }
    &&& r.velocity is Some ==> {
        &&& -1 <= r.velocity.unwrap().0.x <= 1
        &&& -1 <= r.velocity.unwrap().0.y <= 1
    }
    &&& r.tail is Some ==> 1 <= r.tail.unwrap().segment < usize::MAX
    &&& snake_part(r) ==> !food_marked(r)
}

/// Whether the link hangs on the snake with the head `head`: it follows a
/// live part of the snake that has a position, and the head where it is the
/// first link.
pub open spec fn link_holds(rows: Map<hecs::Entity, Row>, link: Tail, head: hecs::Entity) -> bool {
    &&& rows.dom().contains(link.ahead)
    &&& snake_part(rows[link.ahead])
    &&& rows[link.ahead].position is Some
    &&& (link.segment == 1 ==> link.ahead == head)
}

/// What the snake's invariant and the room for a tick's steps come to, row
/// by row: there is the one head, every row fits, and every link holds.
pub proof fn lemma_rows_ready(rows: Map<hecs::Entity, Row>, head: hecs::Entity)
    ensures
        (snake_ok(rows, head) && steps_fit(rows) && segments_fit(rows)) <==> (is_head(rows, head)
            && (forall|e: hecs::Entity| #[trigger] rows.dom().contains(e) ==> row_fits(rows[e]))
            && (forall|e: hecs::Entity| #[trigger]
            rows.dom().contains(e) && rows[e].tail is Some ==> link_holds(
                rows,
                rows[e].tail.unwrap(),
                head,
            ))),
{
    if snake_ok(rows, head) && steps_fit(rows) && segments_fit(rows) {
        assert forall|e: hecs::Entity| #[trigger] rows.dom().contains(e) implies row_fits(
            rows[e],
        ) by {}
        assert forall|e: hecs::Entity| #[trigger]
            rows.dom().contains(e) && rows[e].tail is Some implies link_holds(
            rows,
            rows[e].tail.unwrap(),
            head,
        ) by {}
    }
    if is_head(rows, head) && (forall|e: hecs::Entity| #[trigger]
        rows.dom().contains(e) ==> row_fits(rows[e])) && (forall|e: hecs::Entity| #[trigger]
        rows.dom().contains(e) && rows[e].tail is Some ==> link_holds(
            rows,
            rows[e].tail.unwrap(),
            head,
        )) {
        assert forall|e: hecs::Entity| #[trigger]
            rows.dom().contains(e) && snake_part(rows[e]) implies !food_marked(rows[e]) by {
            assert(row_fits(rows[e]));
        }
        assert forall|e: hecs::Entity| #[trigger]
            rows.dom().contains(e) && rows[e].tail is Some implies {
            let link = rows[e].tail.unwrap();
            &&& link.segment >= 1
            &&& rows.dom().contains(link.ahead)
            &&& snake_part(rows[link.ahead])
            &&& rows[link.ahead].position is Some
            &&& (link.segment == 1 ==> link.ahead == head)
        } by {
            assert(row_fits(rows[e]));
            assert(link_holds(rows, rows[e].tail.unwrap(), head));
        }
        assert forall|e: hecs::Entity| #[trigger] rows.dom().contains(e) implies {
            &&& rows[e].position is Some ==> {
                &&& i32::MIN < rows[e].position.unwrap().0.x < i32::MAX
                &&& i32::MIN < rows[e].position.unwrap().0.y < i32::MAX
            }
            &&& rows[e].velocity is Some ==> {
                &&& -1 <= rows[e].velocity.unwrap().0.x <= 1
                &&& -1 <= rows[e].velocity.unwrap().0.y <= 1
            }
        } by {
            assert(row_fits(rows[e]));
        }
        assert forall|e: hecs::Entity| #[trigger]
            rows.dom().contains(e) && rows[e].tail is Some implies rows[e].tail.unwrap().segment
            < usize::MAX by {
            assert(row_fits(rows[e]));
        }
    }
}

/// Steering keeps the kind of every row, and the steps within `i32`.
pub proof fn lemma_steered(before: Map<hecs::Entity, Row>, after: Map<hecs::Entity, Row>, input: Input)
    requires
        changed_by(before, after, |r: Row| steered(r, input)),
    ensures
        same_kinds(before, after),
        steps_fit(before) ==> steps_fit(after),
{
    assert forall|e: hecs::Entity| #[trigger] before.dom().contains(e) implies same_kind(
        before[e],
        after[e],
    ) by {}
    if steps_fit(before) {
        assert forall|e: hecs::Entity| #[trigger] after.dom().contains(e) implies {
            &&& after[e].position is Some ==> {
                &&& i32::MIN < after[e].position.unwrap().0.x < i32::MAX
                &&& i32::MIN < after[e].position.unwrap().0.y < i32::MAX
            }
            &&& after[e].velocity is Some ==> {
                &&& -1 <= after[e].velocity.unwrap().0.x <= 1
                &&& -1 <= after[e].velocity.unwrap().0.y <= 1
            }
        } by {
            assert(before.dom().contains(e));
        }
    }
}

/// Committing the direction to the velocity keeps the kind of every row,
/// and the steps within `i32`.
pub proof fn lemma_committed(before: Map<hecs::Entity, Row>, after: Map<hecs::Entity, Row>)
    requires
        changed_by(before, after, |r: Row| committed(r)),
    ensures
        same_kinds(before, after),
        steps_fit(before) ==> steps_fit(after),
{
    assert forall|e: hecs::Entity| #[trigger] before.dom().contains(e) implies same_kind(
        before[e],
        after[e],
    ) by {}
    if steps_fit(before) {
        assert forall|e: hecs::Entity| #[trigger] after.dom().contains(e) implies {
            &&& after[e].position is Some ==> {
                &&& i32::MIN < after[e].position.unwrap().0.x < i32::MAX
                &&& i32::MIN < after[e].position.unwrap().0.y < i32::MAX
            }
            &&& after[e].velocity is Some ==> {
                &&& -1 <= after[e].velocity.unwrap().0.x <= 1
                &&& -1 <= after[e].velocity.unwrap().0.y <= 1
            }
        } by {
            assert(before.dom().contains(e));
        }
    }
}

/// The tail's move keeps the kind of every row; where every link follows a
/// live entity with a position, it keeps the steps within `i32`, and
/// everything that would move can.
pub proof fn lemma_followed(before: Map<hecs::Entity, Row>, after: Map<hecs::Entity, Row>)
    requires
        changed_by(before, after, |r: Row| followed(r, before)),
    ensures
        same_kinds(before, after),
        steps_fit(before) && tails_linked(before) ==> steps_fit(after) && can_move(after),
{
    assert forall|e: hecs::Entity| #[trigger] before.dom().contains(e) implies same_kind(
        before[e],
        after[e],
    ) by {}
    if steps_fit(before) && tails_linked(before) {
        assert forall|e: hecs::Entity| #[trigger] after.dom().contains(e) implies {
            &&& after[e].position is Some ==> {
                &&& i32::MIN < after[e].position.unwrap().0.x < i32::MAX
                &&& i32::MIN < after[e].position.unwrap().0.y < i32::MAX
            }
            &&& after[e].velocity is Some ==> {
                &&& -1 <= after[e].velocity.unwrap().0.x <= 1
                &&& -1 <= after[e].velocity.unwrap().0.y <= 1
            }
        } by {
            assert(before.dom().contains(e));
            if before[e].tail is Some {
                assert(before.dom().contains(before[e].tail.unwrap().ahead));
            }
        }
        assert forall|e: hecs::Entity| #[trigger]
            after.dom().contains(e) && after[e].position is Some
                && after[e].velocity is Some implies after[e].position.unwrap().0.can_add(
            after[e].velocity.unwrap().0,
        ) by {}
    }
}

/// The movement keeps the kind of every row.
pub proof fn lemma_moved(before: Map<hecs::Entity, Row>, after: Map<hecs::Entity, Row>)
    requires
        changed_by(before, after, |r: Row| moved(r)),
    ensures
        same_kinds(before, after),
{
    assert forall|e: hecs::Entity| #[trigger] before.dom().contains(e) implies same_kind(
        before[e],
        after[e],
    ) by {}
}

/// Rows of the same kind link their tails alike, count their segments
/// alike, and hold as much food.
pub proof fn lemma_same_kinds(a: Map<hecs::Entity, Row>, b: Map<hecs::Entity, Row>)
    requires
        same_kinds(a, b),
    ensures
        tails_linked(a) ==> tails_linked(b),
        segments_fit(a) ==> segments_fit(b),
        wanted(a, store::wants_food()) == wanted(b, store::wants_food()),
        food_population(a) == food_population(b),
        first_links(a) == first_links(b),
{
    assert forall|e: hecs::Entity| first_links(a).contains(e) <==> first_links(b).contains(e) by {
        if a.dom().contains(e) {
            assert(same_kind(a[e], b[e]));
        }
    }
    assert(first_links(a) =~= first_links(b));
    if tails_linked(a) {
        assert forall|e: hecs::Entity| #[trigger]
            b.dom().contains(e) && b[e].tail is Some implies b.dom().contains(
            b[e].tail.unwrap().ahead,
        ) && b[b[e].tail.unwrap().ahead].position is Some by {
            assert(a.dom().contains(e));
            assert(a.dom().contains(a[e].tail.unwrap().ahead));
        }
    }
    if segments_fit(a) {
        assert forall|e: hecs::Entity| #[trigger]
            b.dom().contains(e) && b[e].tail is Some implies b[e].tail.unwrap().segment
            < usize::MAX by {
            assert(a.dom().contains(e));
        }
    }
    assert forall|e: hecs::Entity|
        wanted(a, store::wants_food()).contains(e) <==> wanted(b, store::wants_food()).contains(
            e,
        ) by {
        if a.dom().contains(e) {
            assert(same_kind(a[e], b[e]));
        }
    }
    assert(wanted(a, store::wants_food()) =~= wanted(b, store::wants_food()));
}

/// Whether a new row can hang on the snake of `rows`: it is a tail link
/// with a segment number of at least 2 that follows a live part of the snake
/// with a position, and it is neither a head nor marked as food.
pub open spec fn fits_behind(rows: Map<hecs::Entity, Row>, r: Row) -> bool {
    &&& !r.snake
    &&& !r.food
    &&& !food_marked(r)
    &&& r.tail is Some
    &&& r.tail.unwrap().segment >= 2
    &&& rows.dom().contains(r.tail.unwrap().ahead)
    &&& snake_part(rows[r.tail.unwrap().ahead])
    &&& rows[r.tail.unwrap().ahead].position is Some
}

/// New entities that are not food leave as much food as there was.
pub proof fn lemma_added_food(
    before: Map<hecs::Entity, Row>,
    after: Map<hecs::Entity, Row>,
    born: Seq<hecs::Entity>,
    new_rows: Seq<Row>,
)
    requires
        rows_added(before, after, born, new_rows),
        forall|i: int| 0 <= i < new_rows.len() ==> !(#[trigger] new_rows[i]).food,
    ensures
        wanted(after, store::wants_food()) == wanted(before, store::wants_food()),
        food_population(after) == food_population(before),
{
    assert forall|e: hecs::Entity|
        wanted(after, store::wants_food()).contains(e) <==> wanted(
            before,
            store::wants_food(),
        ).contains(e) by {
        if after.dom().contains(e) && !before.dom().contains(e) {
            assert(born.contains(e));
            let i = choose|i: int| 0 <= i < born.len() && born[i] == e;
            assert(after[born[i]] == new_rows[i]);
        }
        if before.dom().contains(e) {
        }
    }
    assert(wanted(after, store::wants_food()) =~= wanted(before, store::wants_food()));
}

/// New links that fit behind the snake keep its invariant.
pub proof fn lemma_added(
    before: Map<hecs::Entity, Row>,
    after: Map<hecs::Entity, Row>,
    born: Seq<hecs::Entity>,
    new_rows: Seq<Row>,
)
    requires
        rows_added(before, after, born, new_rows),
        forall|i: int| 0 <= i < new_rows.len() ==> fits_behind(before, #[trigger] new_rows[i]),
    ensures
        forall|head: hecs::Entity| snake_ok(before, head) ==> snake_ok(after, head),
        first_links(after) == first_links(before),
{
    assert forall|e: hecs::Entity| #[trigger] after.dom().contains(e) implies (before.dom().contains(
        e,
    ) && after[e] == before[e]) || (!before.dom().contains(e) && fits_behind(before, after[e])) by {
        if !before.dom().contains(e) {
            assert(born.contains(e));
            let i = choose|i: int| 0 <= i < born.len() && born[i] == e;
            assert(after[born[i]] == new_rows[i]);
        }
    }
    assert forall|head: hecs::Entity| snake_ok(before, head) implies snake_ok(after, head) by {
        assert forall|e: hecs::Entity| #[trigger]
            after.dom().contains(e) && after[e].tail is Some implies {
            let link = after[e].tail.unwrap();
            &&& link.segment >= 1
            &&& after.dom().contains(link.ahead)
            &&& snake_part(after[link.ahead])
            &&& after[link.ahead].position is Some
            &&& (link.segment == 1 ==> link.ahead == head)
        } by {
            let ahead = after[e].tail.unwrap().ahead;
            assert(before.dom().contains(ahead));
        }
    }
    assert forall|e: hecs::Entity| first_links(after).contains(e) <==> first_links(
        before,
    ).contains(e) by {
        if after.dom().contains(e) {
        }
        if before.dom().contains(e) {
        }
    }
    assert(first_links(after) =~= first_links(before));
}

/// A new entity that is no part of the snake keeps the snake's invariant.
pub proof fn lemma_one_added(
    before: Map<hecs::Entity, Row>,
    e: hecs::Entity,
    row: Row,
    head: hecs::Entity,
)
    requires
        snake_ok(before, head),
        !before.dom().contains(e),
        !snake_part(row),
    ensures
        snake_ok(before.insert(e, row), head),
        first_links(before.insert(e, row)) == first_links(before),
{
    let after = before.insert(e, row);
    assert(first_links(after) =~= first_links(before));
    assert forall|x: hecs::Entity| #[trigger] after.dom().contains(x) && after[x].tail is Some implies {
        let link = after[x].tail.unwrap();
        &&& link.segment >= 1
        &&& after.dom().contains(link.ahead)
        &&& snake_part(after[link.ahead])
        &&& after[link.ahead].position is Some
        &&& (link.segment == 1 ==> link.ahead == head)
    } by {
        assert(before.dom().contains(x));
        assert(before.dom().contains(before[x].tail.unwrap().ahead));
    }
}

/// Taking away entities that are marked as food keeps the snake's
/// invariant.
pub proof fn lemma_removed(rows: Map<hecs::Entity, Row>, gone: Set<hecs::Entity>, head: hecs::Entity)
    requires
        snake_ok(rows, head),
        forall|e: hecs::Entity| #[trigger] gone.contains(e) && rows.dom().contains(e) ==> food_marked(rows[e]),
    ensures
        snake_ok(rows.remove_keys(gone), head),
        first_links(rows.remove_keys(gone)) == first_links(rows),
{
    let after = rows.remove_keys(gone);
    assert forall|e: hecs::Entity| first_links(after).contains(e) <==> first_links(rows).contains(
        e,
    ) by {
        if first_links(rows).contains(e) && gone.contains(e) {
            assert(food_marked(rows[e]));
        }
    }
    assert(first_links(after) =~= first_links(rows));
    assert(after.dom().contains(head)) by {
        if gone.contains(head) {
            assert(food_marked(rows[head]));
        }
    }
    assert forall|x: hecs::Entity| #[trigger] after.dom().contains(x) && after[x].tail is Some implies {
        let link = after[x].tail.unwrap();
        &&& link.segment >= 1
        &&& after.dom().contains(link.ahead)
        &&& snake_part(after[link.ahead])
        &&& after[link.ahead].position is Some
        &&& (link.segment == 1 ==> link.ahead == head)
    } by {
        assert(rows.dom().contains(x));
        let ahead = rows[x].tail.unwrap().ahead;
        assert(rows.dom().contains(ahead));
        if gone.contains(ahead) {
            assert(food_marked(rows[ahead]));
        }
    }
}

/// A world holds no more food after some of its entities left.
pub proof fn lemma_removed_food(before: hecs::World, after: hecs::World, gone: Set<hecs::Entity>)
    requires
        world_wf(before),
        world_rows(after) == world_rows(before).remove_keys(gone),
    ensures
        food_population(world_rows(after)) <= food_population(world_rows(before)),
{
    lemma_select_counts(before, store::wants_food());
    let a = wanted(world_rows(before), store::wants_food());
    let b = wanted(world_rows(after), store::wants_food());
    assert(b.subset_of(a));
    vstd::set_lib::lemma_len_subset(b, a);
}

/// Whether the rows are those of a game just begun: a head and one tail
/// segment behind it, as a new game spawns them, and nothing else.
pub open spec fn fresh_snake(rows: Map<hecs::Entity, Row>) -> bool {
    exists|head: hecs::Entity, tail: hecs::Entity| #[trigger]
        is_fresh_snake(rows, head, tail)
}

/// Whether the rows are those of a game just begun with the head `head` and
/// the tail segment `tail`.
pub open spec fn is_fresh_snake(
    rows: Map<hecs::Entity, Row>,
    head: hecs::Entity,
    tail: hecs::Entity,
) -> bool {
    head != tail && rows == store::no_rows().insert(head, first_head_row()).insert(
        tail,
        first_segment_row(head),
    )
}

/// The snake of a game just begun meets the invariant, holds no food, and
/// every step from it fits.
pub proof fn lemma_fresh_snake(rows: Map<hecs::Entity, Row>, head: hecs::Entity, tail: hecs::Entity)
    requires
        is_fresh_snake(rows, head, tail),
    ensures
        snake_ok(rows, head),
        steps_fit(rows),
        segments_fit(rows),
        food_population(rows) == 0,
        first_links(rows) == set![tail],
{
    assert(rows.dom().contains(head) && rows.dom().contains(tail));
    assert(rows[head] == first_head_row());
    assert(rows[tail] == first_segment_row(head));
    assert forall|e: hecs::Entity| #[trigger] rows.dom().contains(e) implies e == head || e
        == tail by {}
    assert(wanted(rows, store::wants_food()) =~= Set::empty());
    assert(first_links(rows) =~= set![tail]);
}

/// Where the snake's invariant holds, every tail link follows a live entity
/// with a position.
pub proof fn lemma_snake_links(rows: Map<hecs::Entity, Row>, head: hecs::Entity)
    requires
        snake_ok(rows, head),
    ensures
        tails_linked(rows),
{
}

/// The snake has one head: the invariant holds for no other.
pub proof fn lemma_one_head(rows: Map<hecs::Entity, Row>, head: hecs::Entity, other: hecs::Entity)
    requires
        snake_ok(rows, head),
        snake_ok(rows, other),
    ensures
        head == other,
{
}

} // verus!
