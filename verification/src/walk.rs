//! Facts about the walk of a world and about what queries select from it,
//! proved from the definitions alone.

use vstd::prelude::*;
use crate::store::{
    Row, closed_up, despawned, gather, kept_of, rewritten, select, spawned, walk_extends,
    world_order, world_rows, world_wf,
};

verus! {

/// What `select` picks: only entities of the walk whose row is wanted, and
/// all of them; and no entity twice where the walk has none twice.
pub proof fn lemma_select(
    order: Seq<hecs::Entity>,
    rows: Map<hecs::Entity, Row>,
    want: spec_fn(Row) -> bool,
)
    ensures
        select(order, rows, want).len() <= order.len(),
        forall|i: int|
            0 <= i < select(order, rows, want).len() ==> order.contains(
                #[trigger] select(order, rows, want)[i],
            ) && want(rows[select(order, rows, want)[i]]),
        forall|e: hecs::Entity|
            order.contains(e) && want(rows[e]) ==> #[trigger] select(order, rows, want).contains(e),
        order.no_duplicates() ==> select(order, rows, want).no_duplicates(),
    decreases order.len(),
{
    let sel = select(order, rows, want);
    if order.len() > 0 {
        let front = order.drop_last();
        let last = order.last();
        let rest = select(front, rows, want);
        lemma_select(front, rows, want);
        assert forall|i: int| 0 <= i < sel.len() implies order.contains(#[trigger] sel[i]) && want(
            rows[sel[i]],
        ) by {
            if i < rest.len() {
                assert(sel[i] == rest[i]);
                assert(front.contains(rest[i]));
                let j = choose|j: int| 0 <= j < front.len() && front[j] == rest[i];
                assert(order[j] == rest[i]);
            } else {
                assert(sel[i] == last);
                assert(order[order.len() - 1] == last);
            }
        }
        assert forall|e: hecs::Entity| order.contains(e) && want(rows[e]) implies sel.contains(
            e,
        ) by {
            let j = choose|j: int| 0 <= j < order.len() && order[j] == e;
            if j < front.len() {
                assert(front[j] == e);
                assert(front.contains(e));
                assert(rest.contains(e));
                let k = choose|k: int| 0 <= k < rest.len() && rest[k] == e;
                assert(sel[k] == e);
            } else {
                assert(e == last);
                assert(sel[sel.len() - 1] == e);
            }
        }
        if order.no_duplicates() {
            assert(front.no_duplicates());
            assert forall|i: int, j: int| 0 <= i < sel.len() && 0 <= j < sel.len() && i != j implies sel[i] != sel[j] by {
                if want(rows[last]) {
                    if i == sel.len() - 1 || j == sel.len() - 1 {
                        let k = if i == sel.len() - 1 {
                            j
                        } else {
                            i
                        };
                        assert(sel[k] == rest[k]);
                        assert(front.contains(rest[k]));
                        let m = choose|m: int| 0 <= m < front.len() && front[m] == rest[k];
                        assert(order[m] == rest[k]);
                        assert(order[order.len() - 1] == last);
                    } else {
                        assert(sel[i] == rest[i] && sel[j] == rest[j]);
                    }
                }
            }
        }
    }
}

/// What `gather` hands out: one item for each selected entity, in the order
/// of the selection, made from the entity and its row.
pub proof fn lemma_gather<T>(
    order: Seq<hecs::Entity>,
    rows: Map<hecs::Entity, Row>,
    want: spec_fn(Row) -> bool,
    take: spec_fn(hecs::Entity, Row) -> T,
)
    ensures
        gather(order, rows, want, take).len() == select(order, rows, want).len(),
        forall|i: int|
            0 <= i < select(order, rows, want).len() ==> #[trigger] gather(
                order,
                rows,
                want,
                take,
            )[i] == take(select(order, rows, want)[i], rows[select(order, rows, want)[i]]),
{
}

/// The live entities whose row is wanted, as a set.
pub open spec fn wanted(rows: Map<hecs::Entity, Row>, want: spec_fn(Row) -> bool) -> Set<
    hecs::Entity,
> {
    Set::new(|e: hecs::Entity| rows.dom().contains(e) && want(rows[e]))
}

/// In a well-formed world a query selects each wanted entity once: the
/// selection has as many items as the set of wanted entities has members.
pub proof fn lemma_select_counts(w: hecs::World, want: spec_fn(Row) -> bool)
    requires
        world_wf(w),
    ensures
        wanted(world_rows(w), want).finite(),
        wanted(world_rows(w), want).len() == select(world_order(w), world_rows(w), want).len(),
        select(world_order(w), world_rows(w), want).to_set() == wanted(world_rows(w), want),
{
    let sel = select(world_order(w), world_rows(w), want);
    lemma_select(world_order(w), world_rows(w), want);
    assert(world_order(w).no_duplicates());
    assert(sel.no_duplicates());
    sel.unique_seq_to_set();
    vstd::seq_lib::seq_to_set_is_finite(sel);
    assert forall|e: hecs::Entity| sel.to_set().contains(e) <==> wanted(
        world_rows(w),
        want,
    ).contains(e) by {
        if sel.to_set().contains(e) {
            let i = choose|i: int| 0 <= i < sel.len() && sel[i] == e;
            assert(world_order(w).contains(sel[i]));
        }
        if wanted(world_rows(w), want).contains(e) {
            assert(world_order(w).contains(e));
            assert(sel.contains(e));
        }
    }
    assert(sel.to_set() =~= wanted(world_rows(w), want));
}

/// A spawn keeps a well-formed world well formed.
pub proof fn lemma_spawned_wf(before: hecs::World, after: hecs::World, e: hecs::Entity, row: Row)
    requires
        world_wf(before),
        spawned(before, after, e, row),
    ensures
        world_wf(after),
        world_order(after).len() == world_order(before).len() + 1,
{
    let a = world_order(before);
    let b = world_order(after);
    let i = choose|i: int| 0 <= i <= a.len() && b == a.insert(i, e);
    assert(!a.contains(e));
    assert forall|x: hecs::Entity| b.contains(x) <==> world_rows(after).dom().contains(x) by {
        if b.contains(x) {
            let j = choose|j: int| 0 <= j < b.len() && b[j] == x;
            if j < i {
                assert(a[j] == x);
                assert(a.contains(x));
            } else if j > i {
                assert(a[j - 1] == x);
                assert(a.contains(x));
            }
        }
        if world_rows(after).dom().contains(x) {
            if x == e {
                assert(b[i] == e);
                assert(b.contains(x));
            } else {
                assert(world_rows(before).dom().contains(x));
                assert(a.contains(x));
                let j = choose|j: int| 0 <= j < a.len() && a[j] == x;
                if j < i {
                    assert(b[j] == x);
                } else {
                    assert(b[j + 1] == x);
                }
                assert(b.contains(x));
            }
        }
    }
    assert forall|j: int, k: int| 0 <= j < b.len() && 0 <= k < b.len() && j != k implies b[j]
        != b[k] by {
        let aj = if j < i {
            j
        } else {
            j - 1
        };
        let ak = if k < i {
            k
        } else {
            k - 1
        };
        if j == i {
            assert(b[k] == a[ak]);
            assert(a.contains(a[ak]));
        } else if k == i {
            assert(b[j] == a[aj]);
            assert(a.contains(a[aj]));
        } else {
            assert(b[j] == a[aj] && b[k] == a[ak]);
        }
    }
}

/// A despawn keeps a well-formed world well formed, and makes its walk one
/// shorter.
pub proof fn lemma_despawned_wf(before: hecs::World, after: hecs::World, e: hecs::Entity)
    requires
        world_wf(before),
        despawned(before, after, e),
    ensures
        world_wf(after),
        world_order(after).len() == world_order(before).len() - 1,
{
    let a = world_order(before);
    let b = world_order(after);
    let (i, j) = choose|i: int, j: int|
        0 <= i <= j < a.len() && a[i] == e && #[trigger] closed_up(a, i, j) == b;
    // where the entity at place k of the new walk stood in the old one
    let from = |k: int|
        if k == i && i < j {
            j
        } else if k < j {
            k
        } else {
            k + 1
        };
    assert forall|k: int| 0 <= k < b.len() implies 0 <= from(k) < a.len() && from(k) != i && b[k]
        == a[from(k)] by {}
    assert forall|k: int, l: int| 0 <= k < b.len() && 0 <= l < b.len() && k != l implies b[k]
        != b[l] by {
        assert(from(k) != from(l));
    }
    assert forall|x: hecs::Entity| b.contains(x) <==> world_rows(after).dom().contains(x) by {
        if b.contains(x) {
            let k = choose|k: int| 0 <= k < b.len() && b[k] == x;
            assert(a[from(k)] == x);
            assert(a.contains(x));
        }
        if world_rows(after).dom().contains(x) {
            assert(a.contains(x));
            let m = choose|m: int| 0 <= m < a.len() && a[m] == x;
            let k = if m == j && i < j {
                i
            } else if m < j {
                m
            } else {
                m - 1
            };
            assert(b[k] == x);
        }
    }
}

/// A write to a component of a live entity keeps a well-formed world well
/// formed.
pub proof fn lemma_rewritten_wf(before: hecs::World, after: hecs::World, e: hecs::Entity, row: Row)
    requires
        world_wf(before),
        world_rows(before).dom().contains(e),
        rewritten(before, after, e, row),
    ensures
        world_wf(after),
        world_rows(after).dom() == world_rows(before).dom(),
{
    assert(world_rows(after).dom() =~= world_rows(before).dom());
}

/// What `filter_map` makes of the first `i` items is the front of what it
/// makes of all of them.
pub proof fn lemma_filter_map_prefix<A, B>(s: Seq<A>, f: spec_fn(A) -> Option<B>, i: int)
    requires
        0 <= i <= s.len(),
    ensures
        s.take(i).filter_map(f).len() <= s.filter_map(f).len(),
        s.take(i).filter_map(f) == s.filter_map(f).take(s.take(i).filter_map(f).len() as int),
    decreases s.len() - i,
{
    if i == s.len() {
        assert(s.take(i) =~= s);
        assert(s.filter_map(f).take(s.filter_map(f).len() as int) =~= s.filter_map(f));
    } else {
        lemma_filter_map_prefix(s, f, i + 1);
        s.lemma_filter_map_take_succ(f, i);
        let shorter = s.take(i).filter_map(f);
        let longer = s.take(i + 1).filter_map(f);
        assert(shorter =~= longer.take(shorter.len() as int));
        assert(shorter =~= s.filter_map(f).take(shorter.len() as int));
    }
}

/// Where the items that `filter_map` makes come from: the i-th result is made
/// from the item at the i-th of the returned places, the places rise, and no
/// item that gives a result is left out.
pub proof fn lemma_filter_map_sources<A, B>(s: Seq<A>, f: spec_fn(A) -> Option<B>) -> (from: Seq<
    int,
>)
    ensures
        from.len() == s.filter_map(f).len(),
        from.len() <= s.len(),
        forall|k: int|
            0 <= k < from.len() ==> 0 <= #[trigger] from[k] < s.len() && f(s[from[k]]) == Some(
                s.filter_map(f)[k],
            ),
        forall|k: int, l: int| 0 <= k < l < from.len() ==> #[trigger] from[k] < #[trigger] from[l],
        forall|i: int|
            0 <= i < s.len() && f(#[trigger] s[i]) is Some ==> exists|k: int|
                0 <= k < from.len() && from[k] == i,
    decreases s.len(),
{
    if s.len() == 0 {
        Seq::empty()
    } else {
        let front = s.drop_last();
        let from0 = lemma_filter_map_sources(front, f);
        let from = if f(s.last()) is Some {
            from0.push(s.len() - 1)
        } else {
            from0
        };
        assert forall|k: int| 0 <= k < from.len() implies 0 <= #[trigger] from[k] < s.len() && f(
            s[from[k]],
        ) == Some(s.filter_map(f)[k]) by {
            if k < from0.len() {
                assert(from[k] == from0[k]);
                assert(front[from0[k]] == s[from0[k]]);
            }
        }
        assert forall|i: int| 0 <= i < s.len() && f(#[trigger] s[i]) is Some implies exists|k: int|
            0 <= k < from.len() && from[k] == i by {
            if i < front.len() {
                assert(front[i] == s[i]);
                let k = choose|k: int| 0 <= k < from0.len() && from0[k] == i;
                assert(from[k] == i);
            } else {
                assert(from[from.len() - 1] == i);
            }
        }
        from
    }
}

/// Keeping the entities of a set keeps a walk whole where all its entities
/// are in the set.
pub proof fn lemma_kept_all(order: Seq<hecs::Entity>, keep: Set<hecs::Entity>)
    requires
        forall|i: int| 0 <= i < order.len() ==> keep.contains(#[trigger] order[i]),
    ensures
        kept_of(order, keep) == order,
    decreases order.len(),
{
    if order.len() > 0 {
        let front = order.drop_last();
        assert forall|i: int| 0 <= i < front.len() implies keep.contains(#[trigger] front[i]) by {
            assert(front[i] == order[i]);
        }
        lemma_kept_all(front, keep);
        assert(keep.contains(order[order.len() - 1]));
        assert(front.push(order.last()) =~= order);
    } else {
        assert(order =~= Seq::empty());
    }
}

/// An entity outside the set makes no difference to what is kept of a walk,
/// wherever it is put in.
pub proof fn lemma_kept_insert(
    order: Seq<hecs::Entity>,
    keep: Set<hecs::Entity>,
    i: int,
    e: hecs::Entity,
)
    requires
        0 <= i <= order.len(),
        !keep.contains(e),
    ensures
        kept_of(order.insert(i, e), keep) == kept_of(order, keep),
    decreases order.len(),
{
    let longer = order.insert(i, e);
    if i == order.len() {
        assert(longer.drop_last() =~= order);
        assert(longer.last() == e);
    } else {
        let front = order.drop_last();
        assert(longer.drop_last() =~= front.insert(i, e));
        assert(longer.last() == order.last());
        lemma_kept_insert(front, keep, i, e);
    }
}

/// What is kept of a walk holds entities of the walk only, and of the set
/// only.
pub proof fn lemma_kept_members(order: Seq<hecs::Entity>, keep: Set<hecs::Entity>)
    ensures
        forall|k: int|
            0 <= k < kept_of(order, keep).len() ==> order.contains(
                #[trigger] kept_of(order, keep)[k],
            ) && keep.contains(kept_of(order, keep)[k]),
    decreases order.len(),
{
    let kept = kept_of(order, keep);
    if order.len() > 0 {
        let front = order.drop_last();
        lemma_kept_members(front, keep);
        assert forall|k: int| 0 <= k < kept.len() implies order.contains(#[trigger] kept[k])
            && keep.contains(kept[k]) by {
            let rest = kept_of(front, keep);
            if k < rest.len() {
                assert(kept[k] == rest[k]);
                assert(front.contains(rest[k]));
                let j = choose|j: int| 0 <= j < front.len() && front[j] == rest[k];
                assert(order[j] == rest[k]);
            } else {
                assert(order[order.len() - 1] == kept[k]);
            }
        }
    }
}

/// Keeping the entities of a set, and of what is left those of a smaller
/// set, is keeping those of the smaller set.
pub proof fn lemma_kept_twice(
    order: Seq<hecs::Entity>,
    wide: Set<hecs::Entity>,
    narrow: Set<hecs::Entity>,
)
    requires
        narrow.subset_of(wide),
    ensures
        kept_of(kept_of(order, wide), narrow) == kept_of(order, narrow),
    decreases order.len(),
{
    if order.len() > 0 {
        let front = order.drop_last();
        lemma_kept_twice(front, wide, narrow);
        let rest = kept_of(front, wide);
        if wide.contains(order.last()) {
            assert(rest.push(order.last()).drop_last() =~= rest);
        }
    }
}

/// A spawn puts the new entity into the walk and leaves the others in their
/// order.
pub proof fn lemma_spawned_extends(
    before: hecs::World,
    after: hecs::World,
    e: hecs::Entity,
    row: Row,
)
    requires
        world_wf(before),
        spawned(before, after, e, row),
    ensures
        walk_extends(world_order(before), world_order(after)),
{
    let a = world_order(before);
    let i = choose|i: int| 0 <= i <= a.len() && world_order(after) == a.insert(i, e);
    assert(!a.contains(e));
    lemma_kept_insert(a, a.to_set(), i, e);
    assert forall|k: int| 0 <= k < a.len() implies a.to_set().contains(#[trigger] a[k]) by {}
    lemma_kept_all(a, a.to_set());
}

/// A walk that extends a walk that extends a third extends the third.
pub proof fn lemma_extends_twice(
    a: Seq<hecs::Entity>,
    b: Seq<hecs::Entity>,
    c: Seq<hecs::Entity>,
)
    requires
        walk_extends(a, b),
        walk_extends(b, c),
    ensures
        walk_extends(a, c),
{
    lemma_kept_members(b, a.to_set());
    assert(a.to_set().subset_of(b.to_set())) by {
        assert forall|x: hecs::Entity| a.to_set().contains(x) implies b.to_set().contains(x) by {
            let k = choose|k: int| 0 <= k < a.len() && a[k] == x;
            assert(kept_of(b, a.to_set())[k] == x);
            assert(b.contains(kept_of(b, a.to_set())[k]));
        }
    }
    lemma_kept_twice(c, b.to_set(), a.to_set());
}

/// Every walk extends itself.
pub proof fn lemma_extends_itself(a: Seq<hecs::Entity>)
    ensures
        walk_extends(a, a),
{
    assert forall|k: int| 0 <= k < a.len() implies a.to_set().contains(#[trigger] a[k]) by {}
    lemma_kept_all(a, a.to_set());
}

} // verus!
