use vstd::prelude::*;

use crate::dungeon::{carved, center_of, on_link, room_fits, Dungeon};
use crate::grid::{on_h_tunnel, on_v_tunnel, Grid};

verus! {

/// The absolute value.
pub open spec fn abs(v: int) -> int {
    if v < 0 {
        -v
    } else {
        v
    }
}

/// The two cells are the same or share a side.
pub open spec fn adjacent(a: (int, int), b: (int, int)) -> bool {
    abs(a.0 - b.0) + abs(a.1 - b.1) <= 1
}

/// A non-empty sequence of passable cells, each next to the one before.
pub open spec fn is_walk(map: Grid, p: Seq<(int, int)>) -> bool {
    &&& p.len() > 0
    &&& forall|i: int| 0 <= i < p.len() ==> map.passable(#[trigger] p[i].0, p[i].1)
    &&& forall|i: int| 0 <= i < p.len() - 1 ==> #[trigger] adjacent(p[i], p[i + 1])
}

/// Some walk over passable cells leads from `a` to `b`.
pub open spec fn reachable(map: Grid, a: (int, int), b: (int, int)) -> bool {
    exists|p: Seq<(int, int)>| is_walk(map, p) && p[0] == a && p.last() == b
}

/// The cells from `(x1, y)` to `(x2, y)` in order.
pub open spec fn h_walk(x1: int, x2: int, y: int) -> Seq<(int, int)> {
    if x1 <= x2 {
        Seq::new((x2 - x1 + 1) as nat, |i: int| (x1 + i, y))
    } else {
        Seq::new((x1 - x2 + 1) as nat, |i: int| (x1 - i, y))
    }
}

/// The cells from `(x, y1)` to `(x, y2)` in order.
pub open spec fn v_walk(y1: int, y2: int, x: int) -> Seq<(int, int)> {
    if y1 <= y2 {
        Seq::new((y2 - y1 + 1) as nat, |i: int| (x, y1 + i))
    } else {
        Seq::new((y1 - y2 + 1) as nat, |i: int| (x, y1 - i))
    }
}

proof fn lemma_h_walk(map: Grid, x1: int, x2: int, y: int)
    requires
        forall|px: int, py: int| on_h_tunnel(x1, x2, y, px, py) ==> #[trigger] map.passable(px, py),
    ensures
        is_walk(map, h_walk(x1, x2, y)),
        h_walk(x1, x2, y)[0] == (x1, y),
        h_walk(x1, x2, y).last() == (x2, y),
{
    let p = h_walk(x1, x2, y);
    assert forall|i: int| 0 <= i < p.len() implies map.passable(#[trigger] p[i].0, p[i].1) by {
        assert(on_h_tunnel(x1, x2, y, p[i].0, p[i].1));
    }
    assert forall|i: int| 0 <= i < p.len() - 1 implies #[trigger] adjacent(p[i], p[i + 1]) by {}
}

proof fn lemma_v_walk(map: Grid, y1: int, y2: int, x: int)
    requires
        forall|px: int, py: int| on_v_tunnel(y1, y2, x, px, py) ==> #[trigger] map.passable(px, py),
    ensures
        is_walk(map, v_walk(y1, y2, x)),
        v_walk(y1, y2, x)[0] == (x, y1),
        v_walk(y1, y2, x).last() == (x, y2),
{
    let p = v_walk(y1, y2, x);
    assert forall|i: int| 0 <= i < p.len() implies map.passable(#[trigger] p[i].0, p[i].1) by {
        assert(on_v_tunnel(y1, y2, x, p[i].0, p[i].1));
    }
    assert forall|i: int| 0 <= i < p.len() - 1 implies #[trigger] adjacent(p[i], p[i + 1]) by {}
}

/// Two walks where the second starts at the end of the first make one walk.
pub proof fn lemma_walk_concat(map: Grid, p: Seq<(int, int)>, q: Seq<(int, int)>)
    requires
        is_walk(map, p),
        is_walk(map, q),
        p.last() == q[0],
    ensures
        is_walk(map, p + q),
        (p + q)[0] == p[0],
        (p + q).last() == q.last(),
{
    let r = p + q;
    assert forall|i: int| 0 <= i < r.len() implies map.passable(#[trigger] r[i].0, r[i].1) by {
        if i < p.len() {
            assert(r[i] == p[i]);
        } else {
            assert(r[i] == q[i - p.len()]);
        }
    }
    assert forall|i: int| 0 <= i < r.len() - 1 implies #[trigger] adjacent(r[i], r[i + 1]) by {
        if i < p.len() - 1 {
            assert(r[i] == p[i] && r[i + 1] == p[i + 1]);
        } else if i == p.len() - 1 {
            assert(r[i] == p.last() && r[i + 1] == q[0]);
        } else {
            let k = i - p.len();
            assert(r[i] == q[k] && r[i + 1] == q[k + 1]);
        }
    }
}

/// The tunnel that joins room `j` to room `j + 1` is a walk from one center to the other.
proof fn lemma_link_walk(d: Dungeon, j: int)
    requires
        d.wf(),
        0 <= j < d.bends@.len(),
    ensures
        reachable(d.map, center_of(d.rooms@[j]), center_of(d.rooms@[j + 1])),
{
    let a = center_of(d.rooms@[j]);
    let b = center_of(d.rooms@[j + 1]);
    let h = d.bends@[j];
    assert(room_fits(d.rooms@[j], d.map.spec_width(), d.map.spec_height()));
    assert(room_fits(d.rooms@[j + 1], d.map.spec_width(), d.map.spec_height()));
    assert forall|px: int, py: int| on_link(a, b, h, px, py) implies #[trigger] d.map.passable(px, py) by {
        assert(carved(d.rooms@, d.bends@, px, py));
        assert(d.map.in_bounds(px, py));
    }
    if h {
        assert forall|px: int, py: int| on_h_tunnel(a.0, b.0, a.1, px, py) implies #[trigger] d.map.passable(px, py) by {
            assert(on_link(a, b, h, px, py));
        }
        assert forall|px: int, py: int| on_v_tunnel(a.1, b.1, b.0, px, py) implies #[trigger] d.map.passable(px, py) by {
            assert(on_link(a, b, h, px, py));
        }
        lemma_h_walk(d.map, a.0, b.0, a.1);
        lemma_v_walk(d.map, a.1, b.1, b.0);
        lemma_walk_concat(d.map, h_walk(a.0, b.0, a.1), v_walk(a.1, b.1, b.0));
        assert(is_walk(d.map, h_walk(a.0, b.0, a.1) + v_walk(a.1, b.1, b.0)));
    } else {
        assert forall|px: int, py: int| on_v_tunnel(a.1, b.1, a.0, px, py) implies #[trigger] d.map.passable(px, py) by {
            assert(on_link(a, b, h, px, py));
        }
        assert forall|px: int, py: int| on_h_tunnel(a.0, b.0, b.1, px, py) implies #[trigger] d.map.passable(px, py) by {
            assert(on_link(a, b, h, px, py));
        }
        lemma_v_walk(d.map, a.1, b.1, a.0);
        lemma_h_walk(d.map, a.0, b.0, b.1);
        lemma_walk_concat(d.map, v_walk(a.1, b.1, a.0), h_walk(a.0, b.0, b.1));
        assert(is_walk(d.map, v_walk(a.1, b.1, a.0) + h_walk(a.0, b.0, b.1)));
    }
}

proof fn lemma_reach_room(d: Dungeon, k: int)
    requires
        d.wf(),
        0 <= k < d.rooms@.len(),
    ensures
        reachable(d.map, center_of(d.rooms@[0]), center_of(d.rooms@[k])),
    decreases k,
{
    if k == 0 {
        let c = center_of(d.rooms@[0]);
        assert(room_fits(d.rooms@[0], d.map.spec_width(), d.map.spec_height()));
        assert(d.rooms@[0].interior_contains(c.0, c.1));
        assert(carved(d.rooms@, d.bends@, c.0, c.1));
        assert(d.map.in_bounds(c.0, c.1));
        let p = seq![c];
        assert(is_walk(d.map, p) && p[0] == c && p.last() == c);
    } else {
        lemma_reach_room(d, k - 1);
        lemma_link_walk(d, k - 1);
        let p = choose|p: Seq<(int, int)>|
            is_walk(d.map, p) && p[0] == center_of(d.rooms@[0]) && p.last() == center_of(
                d.rooms@[k - 1],
            );
        let q = choose|q: Seq<(int, int)>|
            is_walk(d.map, q) && q[0] == center_of(d.rooms@[k - 1]) && q.last() == center_of(
                d.rooms@[k],
            );
        lemma_walk_concat(d.map, p, q);
        assert(is_walk(d.map, p + q) && (p + q)[0] == center_of(d.rooms@[0]) && (p + q).last()
            == center_of(d.rooms@[k]));
    }
}

/// A generated level is connected: from the spawn point a walk over passable
/// cells reaches the center of every room.
pub proof fn lemma_spawn_reaches_every_room(d: Dungeon)
    requires
        d.wf(),
    ensures
        forall|k: int|
            0 <= k < d.rooms@.len() ==> reachable(
                d.map,
                (d.start.0 as int, d.start.1 as int),
                #[trigger] center_of(d.rooms@[k]),
            ),
{
    assert forall|k: int| 0 <= k < d.rooms@.len() implies reachable(
        d.map,
        (d.start.0 as int, d.start.1 as int),
        #[trigger] center_of(d.rooms@[k]),
    ) by {
        lemma_reach_room(d, k);
    }
}

} // verus!
