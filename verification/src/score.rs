//! The score: how it is written out, and the system that counts the food
//! eaten and rewrites the score display.

use vstd::prelude::*;
use crate::components::Text;
use crate::events::Event;
use crate::graphics::renderer::{AssetCommandView, RenderAssetCommands};
use crate::store;
use crate::store::{Row, gather, select, world_order, world_rows, world_wf};
use crate::systems::{GameWorld, asset_views, eaten, eaten_entities};
use crate::walk::{lemma_gather, lemma_rewritten_wf, lemma_select};

verus! {

/// The decimal digit for a number below ten.
pub open spec fn digit(d: nat) -> char {
    if d == 0 {
        '0'
    } else if d == 1 {
        '1'
    } else if d == 2 {
        '2'
    } else if d == 3 {
        '3'
    } else if d == 4 {
        '4'
    } else if d == 5 {
        '5'
    } else if d == 6 {
        '6'
    } else if d == 7 {
        '7'
    } else if d == 8 {
        '8'
    } else {
        '9'
    }
}

/// The decimal digits of a natural number, the most significant first.
pub open spec fn digits(n: nat) -> Seq<char>
    decreases n,
{
    if n < 10 {
        seq![digit(n)]
    } else {
        digits(n / 10).push(digit(n % 10))
    }
}

/// An integer written out in decimal, with a minus sign where it is
/// negative.
pub open spec fn decimal(n: int) -> Seq<char> {
    if n < 0 {
        seq!['-'] + digits((-n) as nat)
    } else {
        digits(n as nat)
    }
}

/// What the score display shows for a score.
pub open spec fn score_label(score: int) -> Seq<char> {
    "Score:  "@ + decimal(score)
}

/// The decimal digit for a number below ten, as a string.
fn digit_str(d: u64) -> (s: &'static str)
    requires
        d < 10,
    ensures
        s@ == seq![digit(d as nat)],
{
    proof {
        reveal_strlit("0");
        reveal_strlit("1");
        reveal_strlit("2");
        reveal_strlit("3");
        reveal_strlit("4");
        reveal_strlit("5");
        reveal_strlit("6");
        reveal_strlit("7");
        reveal_strlit("8");
        reveal_strlit("9");
    }
    let s = if d == 0 {
        "0"
    } else if d == 1 {
        "1"
    } else if d == 2 {
        "2"
    } else if d == 3 {
        "3"
    } else if d == 4 {
        "4"
    } else if d == 5 {
        "5"
    } else if d == 6 {
        "6"
    } else if d == 7 {
        "7"
    } else if d == 8 {
        "8"
    } else {
        "9"
    };
    proof {
        assert(s@ =~= seq![digit(d as nat)]);
    }
    s
}

/// Appends the decimal digits of `n` to `out`.
fn push_digits(out: &mut String, n: u64)
    ensures
        final(out)@ == old(out)@ + digits(n as nat),
    decreases n,
{
    if n >= 10 {
        push_digits(out, n / 10);
    }
    out.append(digit_str(n % 10));
    proof {
        assert(out@ =~= old(out)@ + digits(n as nat));
    }
}

/// What the score display shows for a score.
pub fn score_text(score: i32) -> (s: String)
    ensures
        s@ == score_label(score as int),
{
    let mut s = "Score:  ".to_owned();
    if score < 0 {
        proof {
            reveal_strlit("-");
        }
        s.append("-");
        let size: i64 = -(score as i64);
        push_digits(&mut s, size as u64);
    } else {
        push_digits(&mut s, score as u64);
    }
    proof {
        assert(s@ =~= score_label(score as int));
    }
    s
}

/// The score displays with a text, each with it, in the order of the walk.
pub open spec fn score_board_items(w: hecs::World) -> Seq<(hecs::Entity, Text)> {
    gather(world_order(w), world_rows(w), store::wants_score_board(), store::takes_text())
}

/// Whether `after` is what the new `score` makes of the row `before`: a
/// score display with a text shows the score, in the font it had; any other
/// row stays.
pub open spec fn rescored(before: Row, after: Row, score: int) -> bool {
    if before.score && before.text is Some {
        &&& after.text is Some
        &&& after.text.unwrap().spec_text() == score_label(score)
        &&& after.text.unwrap().spec_font() == before.text.unwrap().spec_font()
        &&& after == before.with_text(after.text.unwrap())
    } else {
        after == before
    }
}

/// The request to replace the geometry of the text that a score display
/// showed by that of the new score.
pub open spec fn relabel(item: (hecs::Entity, Text), score: int) -> AssetCommandView {
    AssetCommandView::UpdateText {
        new_text: score_label(score),
        text: item.1.spec_text(),
        font: item.1.spec_font(),
    }
}

/// How many meals the queue holds.
fn count_meals(events: &Vec<Event>) -> (n: usize)
    ensures
        n == eaten_entities(events@).len(),
{
    let ghost f = |ev: Event| eaten(ev);
    let mut n: usize = 0;
    let mut i: usize = 0;
    proof {
        assert(events@.take(0).filter_map(f) =~= Seq::empty());
    }
    while i < events.len()
        invariant
            0 <= i <= events.len(),
            f == |ev: Event| eaten(ev),
            n == events@.take(i as int).filter_map(f).len(),
            n <= i,
        decreases events.len() - i,
    {
        proof {
            events@.lemma_filter_map_take_succ(f, i as int);
        }
        match events[i] {
            Event::SnakeEatFood { .. } => {
                n += 1;
            },
            _ => {},
        }
        i += 1;
    }
    proof {
        assert(events@.take(events@.len() as int) =~= events@);
    }
    n
}

/// Adds the number of meals in the queue to the score. Where there is a
/// meal, every score display is given the text of the new score, and for
/// each the renderer is asked to replace the old text's geometry.
pub fn update_score_system(
    game_world: &mut GameWorld,
    score: &mut i32,
    asset_commands: &mut Vec<RenderAssetCommands>,
)
    requires
        old(game_world).wf(),
        *old(score) + eaten_entities(old(game_world).events@).len() <= i32::MAX,
    ensures
        final(game_world).wf(),
        final(game_world).events == old(game_world).events,
        *final(score) == *old(score) + eaten_entities(old(game_world).events@).len(),
        eaten_entities(old(game_world).events@).len() == 0 ==> final(game_world).world == old(
            game_world,
        ).world && final(asset_commands)@ == old(asset_commands)@,
        final(game_world).order() == old(game_world).order(),
        final(game_world).rows().dom() == old(game_world).rows().dom(),
        eaten_entities(old(game_world).events@).len() > 0 ==> forall|e: hecs::Entity| #[trigger]
            old(game_world).has(e) ==> rescored(
                old(game_world).rows()[e],
                final(game_world).rows()[e],
                *final(score) as int,
            ),
        eaten_entities(old(game_world).events@).len() > 0 ==> asset_views(final(asset_commands)@)
            == asset_views(old(asset_commands)@) + score_board_items(
            old(game_world).world,
        ).map_values(|item: (hecs::Entity, Text)| relabel(item, *final(score) as int)),
{
    let meals = count_meals(&game_world.events);
    if meals == 0 {
        return ;
    }
    let total: i64 = *score as i64 + meals as i64;
    *score = total as i32;
    let ghost points = *score as int;
    let ghost w0 = game_world.world;
    let ghost order = world_order(w0);
    let ghost rows = world_rows(w0);
    let ghost sel = select(order, rows, store::wants_score_board());
    let ghost f = |item: (hecs::Entity, Text)| relabel(item, points);
    let items = store::score_boards(&game_world.world);
    proof {
        lemma_select(order, rows, store::wants_score_board());
        lemma_gather(order, rows, store::wants_score_board(), store::takes_text());
        assert(asset_views(asset_commands@) =~= asset_views(old(asset_commands)@) + items@.take(
            0,
        ).map_values(f));
    }
    let mut i: usize = 0;
    while i < items.len()
        invariant
            0 <= i <= items.len(),
            world_wf(w0),
            order == world_order(w0),
            rows == world_rows(w0),
            sel == select(order, rows, store::wants_score_board()),
            items@.len() == sel.len(),
            f == |item: (hecs::Entity, Text)| relabel(item, points),
            points == *score,
            forall|k: int|
                0 <= k < sel.len() ==> #[trigger] items@[k] == (sel[k], rows[sel[k]].text.unwrap()),
            forall|k: int|
                0 <= k < sel.len() ==> order.contains(#[trigger] sel[k]) && rows[sel[k]].score
                    && rows[sel[k]].text is Some,
            game_world.wf(),
            game_world.events == old(game_world).events,
            game_world.order() == order,
            game_world.rows().dom() == rows.dom(),
            forall|e: hecs::Entity| #[trigger]
                rows.dom().contains(e) ==> (if exists|k: int| 0 <= k < i && sel[k] == e {
                    rescored(rows[e], game_world.rows()[e], points)
                } else {
                    game_world.rows()[e] == rows[e]
                }),
            asset_views(asset_commands@) == asset_views(old(asset_commands)@) + items@.take(
                i as int,
            ).map_values(f),
        decreases items.len() - i,
    {
        let e = items[i].0;
        let ghost before = game_world.world;
        let ghost cmds = asset_commands@;
        proof {
            assert(items@[i as int].0 == e);
            assert(order.contains(sel[i as int]));
            assert(rows.dom().contains(e));
        }
        let label = score_text(*score);
        let text = items[i].1.with_string(label.clone());
        let cmd = RenderAssetCommands::UpdateText {
            new_text: label,
            text: items[i].1.text(),
            font: items[i].1.font(),
        };
        asset_commands.push(cmd);
        store::set_text(&mut game_world.world, e, text);
        proof {
            lemma_rewritten_wf(before, game_world.world, e, world_rows(before)[e].with_text(text));
            assert(world_rows(before)[e].text is Some);
            assert forall|x: hecs::Entity| #[trigger] rows.dom().contains(x) implies (if exists|
                k: int,
            |
                0 <= k < i + 1 && sel[k] == x {
                rescored(rows[x], game_world.rows()[x], points)
            } else {
                game_world.rows()[x] == rows[x]
            }) by {
                if x == e {
                    assert(sel[i as int] == x);
                    if exists|k: int| 0 <= k < i && sel[k] == x {
                        assert(rescored(rows[x], world_rows(before)[x], points));
                    }
                } else {
                    if exists|k: int| 0 <= k < i + 1 && sel[k] == x {
                        let k = choose|k: int| 0 <= k < i + 1 && sel[k] == x;
                        assert(0 <= k < i && sel[k] == x);
                    }
                }
            }
            assert(asset_views(asset_commands@) =~= asset_views(cmds).push(cmd@));
            assert(items@.take(i + 1) =~= items@.take(i as int).push(items@[i as int]));
            assert(asset_views(asset_commands@) =~= asset_views(old(asset_commands)@) + items@.take(
                i + 1,
            ).map_values(f));
        }
        i += 1;
    }
    proof {
        assert(items@.take(items@.len() as int) =~= items@);
        assert forall|x: hecs::Entity| #[trigger] rows.dom().contains(x) implies rescored(
            rows[x],
            game_world.rows()[x],
            points,
        ) by {
            if rows[x].score && rows[x].text is Some {
                assert(order.contains(x));
                assert(sel.contains(x));
                let k = choose|k: int| 0 <= k < sel.len() && sel[k] == x;
                assert(0 <= k < i && sel[k] == x);
            } else {
                if exists|k: int| 0 <= k < i && sel[k] == x {
                    let k = choose|k: int| 0 <= k < i && sel[k] == x;
                    assert(order.contains(sel[k]));
                }
            }
        }
    }
}

} // verus!
