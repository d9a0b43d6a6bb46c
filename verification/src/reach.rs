//! Walking the dungeon: which tiles can be reached from which.

use crate::map::{full_size, on_grid, on_link, open_tile, same_shape, Rect, Tile};
use vstd::prelude::*;

verus! {

/// Two tiles that are the same or share a side.
pub open spec fn near(a: (int, int), b: (int, int)) -> bool {
    ||| a == b
    ||| (a.0 == b.0 && (a.1 == b.1 + 1 || b.1 == a.1 + 1))
    ||| (a.1 == b.1 && (a.0 == b.0 + 1 || b.0 == a.0 + 1))
}

/// A walk: a run of open tiles, each one near the one before.
pub open spec fn walk(tiles: Seq<Seq<Tile>>, path: Seq<(int, int)>) -> bool {
    &&& path.len() > 0
    &&& forall|i: int| 0 <= i < path.len() ==> open_tile(tiles, (#[trigger] path[i]).0, path[i].1)
    &&& forall|i: int| #![trigger path[i]] 0 < i < path.len() ==> near(path[i - 1], path[i])
}

/// Whether a walk leads from `a` to `b`.
pub open spec fn connected(tiles: Seq<Seq<Tile>>, a: (int, int), b: (int, int)) -> bool {
    exists|path: Seq<(int, int)>| #[trigger] walk(tiles, path) && path.first() == a && path.last() == b
}

/// Whether every open tile can be reached from `start`.
pub open spec fn all_reachable(tiles: Seq<Seq<Tile>>, start: (int, int)) -> bool {
    forall|x: int, y: int| #[trigger] open_tile(tiles, x, y) ==> connected(tiles, start, (x, y))
}

/// Whether nothing that was open in `before` is closed in `after`.
pub open spec fn widened(before: Seq<Seq<Tile>>, after: Seq<Seq<Tile>>) -> bool {
    forall|x: int, y: int| #[trigger] open_tile(before, x, y) ==> open_tile(after, x, y)
}

/// An open tile is connected to itself.
pub proof fn lemma_connected_here(tiles: Seq<Seq<Tile>>, a: (int, int))
    requires
        open_tile(tiles, a.0, a.1),
    ensures
        connected(tiles, a, a),
{
    let path = seq![a];
    assert(walk(tiles, path));
    assert(path.first() == a && path.last() == a);
}

/// A walk can be taken one tile further.
pub proof fn lemma_connected_step(tiles: Seq<Seq<Tile>>, a: (int, int), b: (int, int), c: (int, int))
    requires
        connected(tiles, a, b),
        near(b, c),
        open_tile(tiles, c.0, c.1),
    ensures
        connected(tiles, a, c),
{
    let p = choose|path: Seq<(int, int)>| #[trigger]
        walk(tiles, path) && path.first() == a && path.last() == b;
    let q = p.push(c);
    assert forall|i: int| 0 <= i < q.len() implies open_tile(tiles, (#[trigger] q[i]).0, q[i].1) by {
        if i < p.len() {
            assert(q[i] == p[i]);
        }
    }
    assert forall|i: int| #![trigger q[i]] 0 < i < q.len() implies near(q[i - 1], q[i]) by {
        if i < p.len() {
            assert(q[i] == p[i]);
            assert(q[i - 1] == p[i - 1]);
        } else {
            assert(q[i - 1] == p[p.len() - 1]);
        }
    }
    assert(walk(tiles, q));
    assert(q.first() == p[0]);
    assert(q.last() == c);
}

/// Two walks that meet make one.
pub proof fn lemma_connected_join(tiles: Seq<Seq<Tile>>, a: (int, int), b: (int, int), c: (int, int))
    requires
        connected(tiles, a, b),
        connected(tiles, b, c),
    ensures
        connected(tiles, a, c),
{
    let p = choose|path: Seq<(int, int)>| #[trigger]
        walk(tiles, path) && path.first() == a && path.last() == b;
    let r = choose|path: Seq<(int, int)>| #[trigger]
        walk(tiles, path) && path.first() == b && path.last() == c;
    let q = p + r;
    assert forall|i: int| 0 <= i < q.len() implies open_tile(tiles, (#[trigger] q[i]).0, q[i].1) by {
        if i < p.len() {
            assert(q[i] == p[i]);
        } else {
            assert(q[i] == r[i - p.len()]);
        }
    }
    assert forall|i: int| #![trigger q[i]] 0 < i < q.len() implies near(q[i - 1], q[i]) by {
        if i < p.len() {
            assert(q[i] == p[i]);
            assert(q[i - 1] == p[i - 1]);
        } else if i == p.len() {
            assert(q[i] == r[0]);
            assert(q[i - 1] == p[p.len() - 1]);
        } else {
            assert(q[i] == r[i - p.len()]);
            assert(q[i - 1] == r[i - p.len() - 1]);
        }
    }
    assert(walk(tiles, q));
    assert(q.first() == p[0]);
    assert(q.last() == r[r.len() - 1]);
}

/// Opening more tiles breaks no walk.
pub proof fn lemma_connected_widened(
    before: Seq<Seq<Tile>>,
    after: Seq<Seq<Tile>>,
    a: (int, int),
    b: (int, int),
)
    requires
        widened(before, after),
        connected(before, a, b),
    ensures
        connected(after, a, b),
{
    let p = choose|path: Seq<(int, int)>| #[trigger]
        walk(before, path) && path.first() == a && path.last() == b;
    assert forall|i: int| 0 <= i < p.len() implies open_tile(after, (#[trigger] p[i]).0, p[i].1) by {
        assert(open_tile(before, p[i].0, p[i].1));
    }
    assert(walk(after, p));
}

/// The smaller of two integers.
pub open spec fn lower(a: int, b: int) -> int {
    if a <= b {
        a
    } else {
        b
    }
}

/// The larger of two integers.
pub open spec fn upper(a: int, b: int) -> int {
    if a <= b {
        b
    } else {
        a
    }
}

/// Whether `(x, y)` lies on the row `y0` between the columns `x1` and `x2`.
pub open spec fn on_row(x1: int, x2: int, y0: int, x: int, y: int) -> bool {
    y == y0 && lower(x1, x2) <= x <= upper(x1, x2)
}

/// Whether `(x, y)` lies on the column `x0` between the rows `y1` and `y2`.
pub open spec fn on_column(y1: int, y2: int, x0: int, x: int, y: int) -> bool {
    x == x0 && lower(y1, y2) <= y <= upper(y1, y2)
}

/// An open stretch of a row connects its ends.
pub proof fn lemma_row_connected(tiles: Seq<Seq<Tile>>, x1: int, x2: int, y: int)
    requires
        forall|x: int| lower(x1, x2) <= x <= upper(x1, x2) ==> #[trigger] open_tile(tiles, x, y),
    ensures
        connected(tiles, (x1, y), (x2, y)),
    decreases upper(x1, x2) - lower(x1, x2),
{
    if x1 == x2 {
        assert(open_tile(tiles, x1, y));
        lemma_connected_here(tiles, (x1, y));
    } else {
        let before = if x1 < x2 {
            x2 - 1
        } else {
            x2 + 1
        };
        lemma_row_connected(tiles, x1, before, y);
        assert(open_tile(tiles, x2, y));
        lemma_connected_step(tiles, (x1, y), (before, y), (x2, y));
    }
}

/// An open stretch of a column connects its ends.
pub proof fn lemma_column_connected(tiles: Seq<Seq<Tile>>, y1: int, y2: int, x: int)
    requires
        forall|y: int| lower(y1, y2) <= y <= upper(y1, y2) ==> #[trigger] open_tile(tiles, x, y),
    ensures
        connected(tiles, (x, y1), (x, y2)),
    decreases upper(y1, y2) - lower(y1, y2),
{
    if y1 == y2 {
        assert(open_tile(tiles, x, y1));
        lemma_connected_here(tiles, (x, y1));
    } else {
        let before = if y1 < y2 {
            y2 - 1
        } else {
            y2 + 1
        };
        lemma_column_connected(tiles, y1, before, x);
        assert(open_tile(tiles, x, y2));
        lemma_connected_step(tiles, (x, y1), (x, before), (x, y2));
    }
}

/// Whether the whole floor of `room` is open.
pub open spec fn floor_open(tiles: Seq<Seq<Tile>>, room: Rect) -> bool {
    forall|x: int, y: int| room.floor(x, y) ==> #[trigger] open_tile(tiles, x, y)
}

/// Within a room whose floor is open, every tile of the floor is connected
/// to every other.
pub proof fn lemma_room_connected(tiles: Seq<Seq<Tile>>, room: Rect, a: (int, int), b: (int, int))
    requires
        floor_open(tiles, room),
        room.floor(a.0, a.1),
        room.floor(b.0, b.1),
    ensures
        connected(tiles, a, b),
{
    assert forall|x: int| lower(a.0, b.0) <= x <= upper(a.0, b.0) implies #[trigger] open_tile(
        tiles,
        x,
        a.1,
    ) by {
        assert(room.floor(x, a.1));
    }
    lemma_row_connected(tiles, a.0, b.0, a.1);
    assert forall|y: int| lower(a.1, b.1) <= y <= upper(a.1, b.1) implies #[trigger] open_tile(
        tiles,
        b.0,
        y,
    ) by {
        assert(room.floor(b.0, y));
    }
    lemma_column_connected(tiles, a.1, b.1, b.0);
    lemma_connected_join(tiles, a, (b.0, a.1), b);
}

/// A first room carved out of solid rock: all that is open is its floor, and
/// all of it can be reached from any tile of the floor.
pub proof fn lemma_first_room(
    before: Seq<Seq<Tile>>,
    after: Seq<Seq<Tile>>,
    room: Rect,
    start: (int, int),
)
    requires
        same_shape(before, after),
        forall|x: int, y: int| !#[trigger] open_tile(before, x, y),
        forall|x: int, y: int| room.floor(x, y) ==> on_grid(before, x, y),
        forall|x: int, y: int|
            on_grid(before, x, y) ==> (#[trigger] open_tile(after, x, y) <==> room.floor(x, y)),
        room.floor(start.0, start.1),
    ensures
        all_reachable(after, start),
{
    assert(floor_open(after, room)) by {
        assert forall|x: int, y: int| room.floor(x, y) implies #[trigger] open_tile(after, x, y) by {
            assert(on_grid(before, x, y));
        }
    }
    assert forall|x: int, y: int| #[trigger] open_tile(after, x, y) implies connected(
        after,
        start,
        (x, y),
    ) by {
        assert(on_grid(before, x, y));
        lemma_room_connected(after, room, start, (x, y));
    }
}

/// A further room, carved and joined by a bent corridor to a tile that could
/// be reached already: all that could be reached still can, and so can the
/// corridor and the room.
pub proof fn lemma_room_linked(
    before: Seq<Seq<Tile>>,
    after: Seq<Seq<Tile>>,
    start: (int, int),
    from: (int, int),
    room: Rect,
    to: (int, int),
    row_first: bool,
)
    requires
        full_size(before),
        same_shape(before, after),
        all_reachable(before, start),
        open_tile(before, from.0, from.1),
        forall|x: int, y: int| room.floor(x, y) ==> on_grid(before, x, y),
        room.floor(to.0, to.1),
        forall|x: int, y: int|
            on_grid(before, x, y) ==> (#[trigger] open_tile(after, x, y) <==> open_tile(
                before,
                x,
                y,
            ) || room.floor(x, y) || on_link(from, to, row_first, x, y)),
    ensures
        all_reachable(after, start),
{
    assert(widened(before, after)) by {
        assert forall|x: int, y: int| #[trigger] open_tile(before, x, y) implies open_tile(
            after,
            x,
            y,
        ) by {
            assert(on_grid(before, x, y));
        }
    }
    assert(connected(before, start, from));
    lemma_connected_widened(before, after, start, from);
    assert(floor_open(after, room)) by {
        assert forall|x: int, y: int| room.floor(x, y) implies #[trigger] open_tile(after, x, y) by {
            assert(on_grid(before, x, y));
        }
    }
    assert(on_grid(before, to.0, to.1));
    assert(on_grid(before, from.0, from.1));
    let corner = if row_first {
        (to.0, from.1)
    } else {
        (from.0, to.1)
    };
    // first leg
    if row_first {
        assert forall|x: int| lower(from.0, to.0) <= x <= upper(from.0, to.0) implies #[trigger] open_tile(
            after,
            x,
            from.1,
        ) by {
            assert(on_grid(before, x, from.1));
            assert(on_link(from, to, row_first, x, from.1));
        }
        lemma_row_connected(after, from.0, to.0, from.1);
        assert forall|y: int| lower(from.1, to.1) <= y <= upper(from.1, to.1) implies #[trigger] open_tile(
            after,
            to.0,
            y,
        ) by {
            assert(on_grid(before, to.0, y));
            assert(on_link(from, to, row_first, to.0, y));
        }
        lemma_column_connected(after, from.1, to.1, to.0);
    } else {
        assert forall|y: int| lower(from.1, to.1) <= y <= upper(from.1, to.1) implies #[trigger] open_tile(
            after,
            from.0,
            y,
        ) by {
            assert(on_grid(before, from.0, y));
            assert(on_link(from, to, row_first, from.0, y));
        }
        lemma_column_connected(after, from.1, to.1, from.0);
        assert forall|x: int| lower(from.0, to.0) <= x <= upper(from.0, to.0) implies #[trigger] open_tile(
            after,
            x,
            to.1,
        ) by {
            assert(on_grid(before, x, to.1));
            assert(on_link(from, to, row_first, x, to.1));
        }
        lemma_row_connected(after, from.0, to.0, to.1);
    }
    assert(connected(after, from, corner));
    assert(connected(after, corner, to));
    lemma_connected_join(after, start, from, corner);
    lemma_connected_join(after, start, corner, to);
    assert forall|x: int, y: int| #[trigger] open_tile(after, x, y) implies connected(
        after,
        start,
        (x, y),
    ) by {
        assert(on_grid(before, x, y));
        if open_tile(before, x, y) {
            assert(connected(before, start, (x, y)));
            lemma_connected_widened(before, after, start, (x, y));
        } else if room.floor(x, y) {
            lemma_room_connected(after, room, to, (x, y));
            lemma_connected_join(after, start, to, (x, y));
        } else {
            assert(on_link(from, to, row_first, x, y));
            if row_first {
                if on_row(from.0, to.0, from.1, x, y) {
                    assert forall|a: int| lower(from.0, x) <= a <= upper(from.0, x) implies #[trigger] open_tile(
                        after,
                        a,
                        y,
                    ) by {
                        assert(on_grid(before, a, y));
                        assert(on_link(from, to, row_first, a, y));
                    }
                    lemma_row_connected(after, from.0, x, y);
                    lemma_connected_join(after, start, from, (x, y));
                } else {
                    assert forall|b: int| lower(from.1, y) <= b <= upper(from.1, y) implies #[trigger] open_tile(
                        after,
                        x,
                        b,
                    ) by {
                        assert(on_grid(before, x, b));
                        assert(on_link(from, to, row_first, x, b));
                    }
                    lemma_column_connected(after, from.1, y, x);
                    lemma_connected_join(after, start, corner, (x, y));
                }
            } else {
                if on_column(from.1, to.1, from.0, x, y) {
                    assert forall|b: int| lower(from.1, y) <= b <= upper(from.1, y) implies #[trigger] open_tile(
                        after,
                        x,
                        b,
                    ) by {
                        assert(on_grid(before, x, b));
                        assert(on_link(from, to, row_first, x, b));
                    }
                    lemma_column_connected(after, from.1, y, x);
                    lemma_connected_join(after, start, from, (x, y));
                } else {
                    assert forall|a: int| lower(from.0, x) <= a <= upper(from.0, x) implies #[trigger] open_tile(
                        after,
                        a,
                        y,
                    ) by {
                        assert(on_grid(before, a, y));
                        assert(on_link(from, to, row_first, a, y));
                    }
                    lemma_row_connected(after, from.0, x, y);
                    lemma_connected_join(after, start, corner, (x, y));
                }
            }
        }
    }
}

} // verus!
