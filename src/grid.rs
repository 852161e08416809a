use vstd::prelude::*;

use crate::rect::Rect;
use crate::tile::Tile;

verus! {

/// A rectangular map of tiles, stored column by column: `cols[x][y]`.
pub struct Grid {
    cols: Vec<Vec<Tile>>,
}

impl View for Grid {
    type V = Seq<Seq<Tile>>;

    closed spec fn view(&self) -> Seq<Seq<Tile>> {
        self.cols@.map_values(|c: Vec<Tile>| c@)
    }
}

impl Grid {
    pub open spec fn spec_width(&self) -> int {
        self@.len() as int
    }

    pub open spec fn spec_height(&self) -> int {
        if self@.len() == 0 {
            0
        } else {
            self@[0].len() as int
        }
    }

    /// Every column has the same length, and both sides fit an `i32`.
    pub open spec fn wf(&self) -> bool {
        &&& 0 < self.spec_width() <= i32::MAX
        &&& 0 < self.spec_height() <= i32::MAX
        &&& forall|x: int| 0 <= x < self.spec_width() ==> #[trigger] self@[x].len() == self.spec_height()
    }

    pub open spec fn in_bounds(&self, x: int, y: int) -> bool {
        0 <= x < self.spec_width() && 0 <= y < self.spec_height()
    }

    pub open spec fn at(&self, x: int, y: int) -> Tile {
        self@[x][y]
    }

    /// The cell is inside the map and does not stop movement.
    pub open spec fn passable(&self, x: int, y: int) -> bool {
        self.in_bounds(x, y) && !self.at(x, y).blocked
    }

    /// A map of the given size made of walls only.
    pub fn new(width: i32, height: i32) -> (g: Grid)
        requires
            width > 0,
            height > 0,
        ensures
            g.wf(),
            g.spec_width() == width,
            g.spec_height() == height,
            forall|x: int, y: int| g.in_bounds(x, y) ==> #[trigger] g.at(x, y) == Tile::spec_wall(),
    {
        let mut cols: Vec<Vec<Tile>> = Vec::new();
        let mut i: i32 = 0;
        while i < width
            invariant
                0 <= i <= width,
                height > 0,
                cols@.len() == i,
                forall|a: int| 0 <= a < i ==> #[trigger] cols@[a]@.len() == height,
                forall|a: int, b: int|
                    0 <= a < i && 0 <= b < height ==> #[trigger] cols@[a]@[b] == Tile::spec_wall(),
            decreases width - i,
        {
            let mut col: Vec<Tile> = Vec::new();
            let mut j: i32 = 0;
            while j < height
                invariant
                    0 <= j <= height,
                    col@.len() == j,
                    forall|b: int| 0 <= b < j ==> #[trigger] col@[b] == Tile::spec_wall(),
                decreases height - j,
            {
                col.push(Tile::wall());
                j = j + 1;
            }
            cols.push(col);
            i = i + 1;
        }
        let g = Grid { cols };
        assert(g@.len() == width);
        assert(g@[0] == cols@[0]@);
        g
    }

    pub fn width(&self) -> (w: i32)
        requires
            self.wf(),
        ensures
            w == self.spec_width(),
    {
        self.cols.len() as i32
    }

    pub fn height(&self) -> (h: i32)
        requires
            self.wf(),
        ensures
            h == self.spec_height(),
    {
        assert(self.cols@[0]@ == self@[0]);
        self.cols[0].len() as i32
    }

    pub fn tile(&self, x: i32, y: i32) -> (t: Tile)
        requires
            self.wf(),
            self.in_bounds(x as int, y as int),
        ensures
            t == self.at(x as int, y as int),
    {
        assert(self.cols@[x as int]@ == self@[x as int]);
        self.cols[x as usize][y as usize]
    }

    /// Turns one cell into floor and leaves every other cell as it was.
    fn set_empty(&mut self, x: i32, y: i32)
        requires
            old(self).wf(),
            old(self).in_bounds(x as int, y as int),
        ensures
            final(self).wf(),
            final(self).spec_width() == old(self).spec_width(),
            final(self).spec_height() == old(self).spec_height(),
            forall|a: int, b: int|
                final(self).in_bounds(a, b) ==> #[trigger] final(self).at(a, b) == if a == x && b
                    == y {
                    Tile::spec_empty()
                } else {
                    old(self).at(a, b)
                },
    {
        let ghost before = self@;
        assert(self.cols@[x as int]@ == self@[x as int]);
        self.cols[x as usize][y as usize] = Tile::empty();
        assert(self@ =~= before.update(x as int, before[x as int].update(y as int, Tile::spec_empty())));
    }
}

/// The cell lies on the horizontal segment from `x1` to `x2` at row `y`, ends included.
pub open spec fn on_h_tunnel(x1: int, x2: int, y: int, px: int, py: int) -> bool {
    py == y && (if x1 <= x2 { x1 <= px <= x2 } else { x2 <= px <= x1 })
}

/// The cell lies on the vertical segment from `y1` to `y2` at column `x`, ends included.
pub open spec fn on_v_tunnel(y1: int, y2: int, x: int, px: int, py: int) -> bool {
    px == x && (if y1 <= y2 { y1 <= py <= y2 } else { y2 <= py <= y1 })
}

/// Carves the interior of `room` to floor; the rectangle's own edges stay as they were.
pub fn create_room(room: Rect, map: &mut Grid)
    requires
        old(map).wf(),
        0 <= room.x1 < room.x2 <= old(map).spec_width(),
        0 <= room.y1 < room.y2 <= old(map).spec_height(),
    ensures
        final(map).wf(),
        final(map).spec_width() == old(map).spec_width(),
        final(map).spec_height() == old(map).spec_height(),
        forall|a: int, b: int|
            final(map).in_bounds(a, b) ==> #[trigger] final(map).at(a, b) == if room.interior_contains(
                a,
                b,
            ) {
                Tile::spec_empty()
            } else {
                old(map).at(a, b)
            },
{
    let ghost start = *map;
    let mut x: i32 = room.x1 + 1;
    while x < room.x2
        invariant
            map.wf(),
            map.spec_width() == start.spec_width(),
            map.spec_height() == start.spec_height(),
            0 <= room.x1 < room.x2 <= start.spec_width(),
            0 <= room.y1 < room.y2 <= start.spec_height(),
            room.x1 + 1 <= x,
            x <= room.x2,
            forall|a: int, b: int|
                map.in_bounds(a, b) ==> #[trigger] map.at(a, b) == if room.interior_contains(a, b)
                    && a < x {
                    Tile::spec_empty()
                } else {
                    start.at(a, b)
                },
        decreases room.x2 - x,
    {
        let mut y: i32 = room.y1 + 1;
        while y < room.y2
            invariant
                map.wf(),
                map.spec_width() == start.spec_width(),
                map.spec_height() == start.spec_height(),
                0 <= room.x1 < x < room.x2,
                0 <= room.y1 < room.y2 <= start.spec_height(),
                x < start.spec_width(),
                room.y1 + 1 <= y,
                y <= room.y2,
                forall|a: int, b: int|
                    map.in_bounds(a, b) ==> #[trigger] map.at(a, b) == if room.interior_contains(
                        a,
                        b,
                    ) && (a < x || (a == x && b < y)) {
                        Tile::spec_empty()
                    } else {
                        start.at(a, b)
                    },
            decreases room.y2 - y,
        {
            map.set_empty(x, y);
            y = y + 1;
        }
        x = x + 1;
    }
}

/// Carves the row `y` from `x1` to `x2`, both ends included.
pub fn create_h_tunnel(x1: i32, x2: i32, y: i32, map: &mut Grid)
    requires
        old(map).wf(),
        old(map).in_bounds(x1 as int, y as int),
        old(map).in_bounds(x2 as int, y as int),
    ensures
        final(map).wf(),
        final(map).spec_width() == old(map).spec_width(),
        final(map).spec_height() == old(map).spec_height(),
        forall|a: int, b: int|
            final(map).in_bounds(a, b) ==> #[trigger] final(map).at(a, b) == if on_h_tunnel(
                x1 as int,
                x2 as int,
                y as int,
                a,
                b,
            ) {
                Tile::spec_empty()
            } else {
                old(map).at(a, b)
            },
{
    let ghost start = *map;
    let lo: i32 = if x1 <= x2 { x1 } else { x2 };
    let hi: i32 = if x1 <= x2 { x2 } else { x1 };
    let mut x: i32 = lo;
    while x <= hi
        invariant
            map.wf(),
            map.spec_width() == start.spec_width(),
            map.spec_height() == start.spec_height(),
            start.in_bounds(lo as int, y as int),
            start.in_bounds(hi as int, y as int),
            lo <= x <= hi + 1,
            lo == if x1 <= x2 { x1 } else { x2 },
            hi == if x1 <= x2 { x2 } else { x1 },
            forall|a: int, b: int|
                map.in_bounds(a, b) ==> #[trigger] map.at(a, b) == if on_h_tunnel(
                    x1 as int,
                    x2 as int,
                    y as int,
                    a,
                    b,
                ) && a < x {
                    Tile::spec_empty()
                } else {
                    start.at(a, b)
                },
        decreases hi + 1 - x,
    {
        map.set_empty(x, y);
        x = x + 1;
    }
}

/// Carves the column `x` from `y1` to `y2`, both ends included.
pub fn create_v_tunnel(y1: i32, y2: i32, x: i32, map: &mut Grid)
    requires
        old(map).wf(),
        old(map).in_bounds(x as int, y1 as int),
        old(map).in_bounds(x as int, y2 as int),
    ensures
        final(map).wf(),
        final(map).spec_width() == old(map).spec_width(),
        final(map).spec_height() == old(map).spec_height(),
        forall|a: int, b: int|
            final(map).in_bounds(a, b) ==> #[trigger] final(map).at(a, b) == if on_v_tunnel(
                y1 as int,
                y2 as int,
                x as int,
                a,
                b,
            ) {
                Tile::spec_empty()
            } else {
                old(map).at(a, b)
            },
{
    let ghost start = *map;
    let lo: i32 = if y1 <= y2 { y1 } else { y2 };
    let hi: i32 = if y1 <= y2 { y2 } else { y1 };
    let mut y: i32 = lo;
    while y <= hi
        invariant
            map.wf(),
            map.spec_width() == start.spec_width(),
            map.spec_height() == start.spec_height(),
            start.in_bounds(x as int, lo as int),
            start.in_bounds(x as int, hi as int),
            lo <= y <= hi + 1,
            lo == if y1 <= y2 { y1 } else { y2 },
            hi == if y1 <= y2 { y2 } else { y1 },
            forall|a: int, b: int|
                map.in_bounds(a, b) ==> #[trigger] map.at(a, b) == if on_v_tunnel(
                    y1 as int,
                    y2 as int,
                    x as int,
                    a,
                    b,
                ) && b < y {
                    Tile::spec_empty()
                } else {
                    start.at(a, b)
                },
        decreases hi + 1 - y,
    {
        map.set_empty(x, y);
        y = y + 1;
    }
}

} // verus!
