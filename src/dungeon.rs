use vstd::prelude::*;

use rand::rngs::StdRng;

use crate::grid::{create_h_tunnel, create_room, create_v_tunnel, on_h_tunnel, on_v_tunnel, Grid};
use crate::random::{random_coin, random_range};
use crate::rect::Rect;
use crate::tile::Tile;

verus! {

/// Largest side a map may have: the sum of two coordinates then fits an `i32`.
pub const MAX_SIDE: i32 = 1073741823;

/// The parameters of one generation run.
#[derive(Clone, Copy, Debug, PartialEq, Eq, Structural)]
pub struct MapConfig {
    pub width: i32,
    pub height: i32,
    pub max_rooms: i32,
    pub room_min_size: i32,
    pub room_max_size: i32,
}

impl MapConfig {
    /// Sizes are consistent and every room fits inside the map with a wall on each side.
    pub open spec fn valid(&self) -> bool {
        &&& 2 <= self.room_min_size <= self.room_max_size
        &&& self.room_max_size < self.width <= MAX_SIDE
        &&& self.room_max_size < self.height <= MAX_SIDE
        &&& 0 <= self.max_rooms
    }

    /// A configuration, or `None` where the parameters are inconsistent.
    pub fn new(width: i32, height: i32, max_rooms: i32, room_min_size: i32, room_max_size: i32) -> (r:
        Option<MapConfig>)
        ensures
            r is Some <==> (MapConfig { width, height, max_rooms, room_min_size, room_max_size }).valid(),
            r is Some ==> r->0 == (MapConfig { width, height, max_rooms, room_min_size, room_max_size }),
    {
        if 2 <= room_min_size && room_min_size <= room_max_size && room_max_size < width && width
            <= MAX_SIDE && room_max_size < height && height <= MAX_SIDE && 0 <= max_rooms {
            Some(MapConfig { width, height, max_rooms, room_min_size, room_max_size })
        } else {
            None
        }
    }

    /// An 80 by 45 map with up to 30 rooms of sides 6 to 10.
    pub fn standard() -> (c: MapConfig)
        ensures
            c.valid(),
            c == (MapConfig {
                width: 80,
                height: 45,
                max_rooms: 30,
                room_min_size: 6,
                room_max_size: 10,
            }),
    {
        MapConfig { width: 80, height: 45, max_rooms: 30, room_min_size: 6, room_max_size: 10 }
    }
}

/// The room lies inside a map of the given size, leaves the last column and row
/// free, and has at least one interior cell on each axis.
pub open spec fn room_fits(r: Rect, width: int, height: int) -> bool {
    &&& 0 <= r.x1
    &&& r.x1 + 2 <= r.x2
    &&& r.x2 < width
    &&& 0 <= r.y1
    &&& r.y1 + 2 <= r.y2
    &&& r.y2 < height
}

/// The room's center as a pair of mathematical integers.
pub open spec fn center_of(r: Rect) -> (int, int) {
    (r.spec_center().0 as int, r.spec_center().1 as int)
}

/// The cell lies on the L-shaped tunnel from `a` to `b`: along the row of `a` then
/// the column of `b` when `horizontal_first`, else along the column of `a` then the row of `b`.
pub open spec fn on_link(a: (int, int), b: (int, int), horizontal_first: bool, x: int, y: int) -> bool {
    if horizontal_first {
        on_h_tunnel(a.0, b.0, a.1, x, y) || on_v_tunnel(a.1, b.1, b.0, x, y)
    } else {
        on_v_tunnel(a.1, b.1, a.0, x, y) || on_h_tunnel(a.0, b.0, b.1, x, y)
    }
}

pub open spec fn in_some_room(rooms: Seq<Rect>, x: int, y: int) -> bool {
    exists|i: int| 0 <= i < rooms.len() && #[trigger] rooms[i].interior_contains(x, y)
}

/// The cell lies on the tunnel that joins room `j` to room `j + 1`, for some `j`.
pub open spec fn on_some_link(rooms: Seq<Rect>, bends: Seq<bool>, x: int, y: int) -> bool {
    exists|j: int|
        0 <= j < bends.len() && j + 1 < rooms.len() && #[trigger] on_link(
            center_of(rooms[j]),
            center_of(rooms[j + 1]),
            bends[j],
            x,
            y,
        )
}

/// The cell was turned into floor: it is inside a room or on a tunnel.
pub open spec fn carved(rooms: Seq<Rect>, bends: Seq<bool>, x: int, y: int) -> bool {
    in_some_room(rooms, x, y) || on_some_link(rooms, bends, x, y)
}

/// A generated level: the map, the rooms in the order they were placed, for each
/// room after the first the shape of the tunnel that joins it to the one before
/// (`true`: horizontal leg first), and the spawn point.
pub struct Dungeon {
    pub map: Grid,
    pub rooms: Vec<Rect>,
    pub bends: Vec<bool>,
    pub start: (i32, i32),
}

impl Dungeon {
    pub open spec fn wf(&self) -> bool {
        &&& self.map.wf()
        &&& self.map.spec_width() <= MAX_SIDE
        &&& self.map.spec_height() <= MAX_SIDE
        &&& if self.rooms@.len() == 0 {
            self.bends@.len() == 0
        } else {
            self.bends@.len() + 1 == self.rooms@.len()
        }
        &&& forall|i: int|
            0 <= i < self.rooms@.len() ==> room_fits(
                #[trigger] self.rooms@[i],
                self.map.spec_width(),
                self.map.spec_height(),
            )
        &&& forall|i: int, j: int|
            0 <= i < self.rooms@.len() && 0 <= j < self.rooms@.len() && i != j
                ==> !#[trigger] self.rooms@[i].spec_intersects(self.rooms@[j])
        &&& self.rooms@.len() > 0 ==> self.start == self.rooms@[0].spec_center()
        &&& forall|x: int, y: int|
            self.map.in_bounds(x, y) ==> #[trigger] self.map.at(x, y) == if carved(
                self.rooms@,
                self.bends@,
                x,
                y,
            ) {
                Tile::spec_empty()
            } else {
                Tile::spec_wall()
            }
    }

    /// A level of the given size with no room yet: walls everywhere.
    pub fn new(width: i32, height: i32) -> (d: Dungeon)
        requires
            0 < width <= MAX_SIDE,
            0 < height <= MAX_SIDE,
        ensures
            d.wf(),
            d.map.spec_width() == width,
            d.map.spec_height() == height,
            d.rooms@.len() == 0,
    {
        let map = Grid::new(width, height);
        let d = Dungeon { map, rooms: Vec::new(), bends: Vec::new(), start: (0, 0) };
        assert forall|x: int, y: int| d.map.in_bounds(x, y) implies #[trigger] d.map.at(x, y)
            == Tile::spec_wall() && !carved(d.rooms@, d.bends@, x, y) by {}
        d
    }

    /// Places `room` unless it touches or overlaps a room already placed. A placed
    /// room has its interior carved; the first one sets the spawn point at its
    /// center, each later one is joined to the one before by an L-shaped tunnel
    /// between the two centers, horizontal leg first when `horizontal_first`.
    /// Returns whether the room was placed; otherwise nothing changes.
    pub fn try_add_room(&mut self, room: Rect, horizontal_first: bool) -> (placed: bool)
        requires
            old(self).wf(),
            room_fits(room, old(self).map.spec_width(), old(self).map.spec_height()),
        ensures
            final(self).wf(),
            placed <==> forall|k: int|
                0 <= k < old(self).rooms@.len() ==> !room.spec_intersects(
                    #[trigger] old(self).rooms@[k],
                ),
            !placed ==> *final(self) == *old(self),
            placed ==> final(self).rooms@ == old(self).rooms@.push(room),
            placed ==> final(self).bends@ == if old(self).rooms@.len() == 0 {
                old(self).bends@
            } else {
                old(self).bends@.push(horizontal_first)
            },
            final(self).map.spec_width() == old(self).map.spec_width(),
            final(self).map.spec_height() == old(self).map.spec_height(),
    {
        let mut failed = false;
        let mut i: usize = 0;
        while i < self.rooms.len()
            invariant
                i <= self.rooms@.len(),
                failed <==> exists|k: int| 0 <= k < i && #[trigger] room.spec_intersects(self.rooms@[k]),
            decreases self.rooms@.len() - i,
        {
            if room.intersects_with(&self.rooms[i]) {
                failed = true;
            }
            i = i + 1;
        }
        if failed {
            return false;
        }
        let ghost old_rooms = self.rooms@;
        let ghost old_bends = self.bends@;
        let ghost old_map = self.map;
        create_room(room, &mut self.map);
        let (new_x, new_y) = room.center();
        let ghost m1 = self.map;
        if self.rooms.len() == 0 {
            self.start = (new_x, new_y);
        } else {
            let last = self.rooms.len() - 1;
            let prev = self.rooms[last];
            assert(room_fits(prev, self.map.spec_width(), self.map.spec_height()));
            let (prev_x, prev_y) = prev.center();
            if horizontal_first {
                create_h_tunnel(prev_x, new_x, prev_y, &mut self.map);
                create_v_tunnel(prev_y, new_y, new_x, &mut self.map);
            } else {
                create_v_tunnel(prev_y, new_y, prev_x, &mut self.map);
                create_h_tunnel(prev_x, new_x, new_y, &mut self.map);
            }
            self.bends.push(horizontal_first);
        }
        self.rooms.push(room);
        proof {
            assert forall|x: int, y: int| self.map.in_bounds(x, y) implies #[trigger] self.map.at(x, y)
                == if carved(self.rooms@, self.bends@, x, y) {
                Tile::spec_empty()
            } else {
                Tile::spec_wall()
            } by {
                lemma_carved_push(old_rooms, old_bends, room, horizontal_first, x, y);
                assert(old_map.in_bounds(x, y));
                assert(m1.in_bounds(x, y));
            }
            assert forall|a: int, b: int|
                0 <= a < self.rooms@.len() && 0 <= b < self.rooms@.len() && a != b implies !#[trigger] self.rooms@[a].spec_intersects(self.rooms@[b]) by {
                if a == old_rooms.len() {
                    assert(!room.spec_intersects(old_rooms[b]));
                } else if b == old_rooms.len() {
                    assert(!room.spec_intersects(old_rooms[a]));
                } else {
                    assert(self.rooms@[a] == old_rooms[a]);
                    assert(self.rooms@[b] == old_rooms[b]);
                }
            }
            assert forall|k: int| 0 <= k < self.rooms@.len() implies room_fits(
                #[trigger] self.rooms@[k],
                self.map.spec_width(),
                self.map.spec_height(),
            ) by {
                if k < old_rooms.len() {
                    assert(self.rooms@[k] == old_rooms[k]);
                }
            }
            if old_rooms.len() > 0 {
                assert(self.rooms@[0] == old_rooms[0]);
            }
        }
        true
    }
}

/// What placing one more room (and, after the first, one more tunnel) adds to the carved cells.
proof fn lemma_carved_push(
    rooms: Seq<Rect>,
    bends: Seq<bool>,
    room: Rect,
    horizontal_first: bool,
    x: int,
    y: int,
)
    requires
        if rooms.len() == 0 {
            bends.len() == 0
        } else {
            bends.len() + 1 == rooms.len()
        },
    ensures
        carved(
            rooms.push(room),
            if rooms.len() == 0 {
                bends
            } else {
                bends.push(horizontal_first)
            },
            x,
            y,
        ) == (carved(rooms, bends, x, y) || room.interior_contains(x, y) || (rooms.len() > 0
            && on_link(center_of(rooms.last()), center_of(room), horizontal_first, x, y))),
{
    let rs = rooms.push(room);
    let bs = if rooms.len() == 0 {
        bends
    } else {
        bends.push(horizontal_first)
    };
    if in_some_room(rs, x, y) {
        let i = choose|i: int| 0 <= i < rs.len() && #[trigger] rs[i].interior_contains(x, y);
        if i < rooms.len() {
            assert(rooms[i].interior_contains(x, y));
        }
    }
    if in_some_room(rooms, x, y) {
        let i = choose|i: int| 0 <= i < rooms.len() && #[trigger] rooms[i].interior_contains(x, y);
        assert(rs[i].interior_contains(x, y));
    }
    if room.interior_contains(x, y) {
        assert(rs[rooms.len() as int].interior_contains(x, y));
    }
    if on_some_link(rs, bs, x, y) {
        let j = choose|j: int|
            0 <= j < bs.len() && j + 1 < rs.len() && #[trigger] on_link(
                center_of(rs[j]),
                center_of(rs[j + 1]),
                bs[j],
                x,
                y,
            );
        if j < bends.len() {
            assert(rs[j] == rooms[j]);
            assert(rs[j + 1] == rooms[j + 1]);
            assert(on_link(center_of(rooms[j]), center_of(rooms[j + 1]), bends[j], x, y));
        }
    }
    if on_some_link(rooms, bends, x, y) {
        let j = choose|j: int|
            0 <= j < bends.len() && j + 1 < rooms.len() && #[trigger] on_link(
                center_of(rooms[j]),
                center_of(rooms[j + 1]),
                bends[j],
                x,
                y,
            );
        assert(rs[j] == rooms[j]);
        assert(rs[j + 1] == rooms[j + 1]);
        assert(bs[j] == bends[j]);
        assert(on_link(center_of(rs[j]), center_of(rs[j + 1]), bs[j], x, y));
    }
    if rooms.len() > 0 && on_link(center_of(rooms.last()), center_of(room), horizontal_first, x, y) {
        let j = bends.len() as int;
        assert(rs[j] == rooms.last());
        assert(rs[j + 1] == room);
        assert(on_link(center_of(rs[j]), center_of(rs[j + 1]), bs[j], x, y));
    }
}

/// The room's sides lie between the two bounds.
pub open spec fn room_sized(r: Rect, min_size: int, max_size: int) -> bool {
    min_size <= r.x2 - r.x1 <= max_size && min_size <= r.y2 - r.y1 <= max_size
}

/// Generates a level: `config.max_rooms` candidate rooms with random sides in
/// `[room_min_size, room_max_size]` and random positions that keep them inside the
/// map with a free last column and row, each placed by `try_add_room` with a
/// random tunnel shape. Fewer rooms than candidates is a normal outcome; the first
/// candidate always meets no earlier room, so with a positive `max_rooms` at least
/// one room is placed, and the spawn point is its center.
pub fn make_map(config: &MapConfig, rng: &mut StdRng) -> (d: Dungeon)
    requires
        config.valid(),
    ensures
        d.wf(),
        d.map.spec_width() == config.width,
        d.map.spec_height() == config.height,
        d.rooms@.len() <= config.max_rooms,
        config.max_rooms > 0 ==> d.rooms@.len() >= 1,
        forall|i: int|
            0 <= i < d.rooms@.len() ==> room_sized(
                #[trigger] d.rooms@[i],
                config.room_min_size as int,
                config.room_max_size as int,
            ),
{
    let mut d = Dungeon::new(config.width, config.height);
    let mut n: i32 = 0;
    while n < config.max_rooms
        invariant
            config.valid(),
            0 <= n <= config.max_rooms,
            d.wf(),
            d.map.spec_width() == config.width,
            d.map.spec_height() == config.height,
            d.rooms@.len() <= n,
            n > 0 ==> d.rooms@.len() >= 1,
            forall|i: int|
                0 <= i < d.rooms@.len() ==> room_sized(
                    #[trigger] d.rooms@[i],
                    config.room_min_size as int,
                    config.room_max_size as int,
                ),
        decreases config.max_rooms - n,
    {
        let w = random_range(rng, config.room_min_size, config.room_max_size + 1);
        let h = random_range(rng, config.room_min_size, config.room_max_size + 1);
        let x = random_range(rng, 0, config.width - w);
        let y = random_range(rng, 0, config.height - h);
        let room = Rect::new(x, y, w, h);
        let horizontal_first = random_coin(rng);
        let ghost before = d.rooms@;
        let placed = d.try_add_room(room, horizontal_first);
        proof {
            if placed {
                assert forall|i: int| 0 <= i < d.rooms@.len() implies room_sized(
                    #[trigger] d.rooms@[i],
                    config.room_min_size as int,
                    config.room_max_size as int,
                ) by {
                    if i < before.len() {
                        assert(d.rooms@[i] == before[i]);
                    }
                }
            }
        }
        n = n + 1;
    }
    d
}

/// In a generated level every cell inside a room is floor, passable and
/// transparent, and every cell that is neither inside a room nor on a tunnel is
/// still wall, blocking movement and sight.
pub proof fn lemma_rooms_open_rest_walled(d: Dungeon)
    requires
        d.wf(),
    ensures
        forall|i: int, x: int, y: int|
            0 <= i < d.rooms@.len() && #[trigger] d.rooms@[i].interior_contains(x, y) ==> {
                &&& d.map.in_bounds(x, y)
                &&& !d.map.at(x, y).blocked
                &&& !d.map.at(x, y).block_sight
            },
        forall|x: int, y: int|
            d.map.in_bounds(x, y) && !carved(d.rooms@, d.bends@, x, y) ==> {
                &&& (#[trigger] d.map.at(x, y)).blocked
                &&& d.map.at(x, y).block_sight
            },
{
    assert forall|i: int, x: int, y: int|
        0 <= i < d.rooms@.len() && #[trigger] d.rooms@[i].interior_contains(x, y) implies {
        &&& d.map.in_bounds(x, y)
        &&& !d.map.at(x, y).blocked
        &&& !d.map.at(x, y).block_sight
    } by {
        assert(room_fits(d.rooms@[i], d.map.spec_width(), d.map.spec_height()));
        assert(in_some_room(d.rooms@, x, y));
    }
}

/// No two rooms of a generated level intersect, touching edges included.
pub proof fn lemma_rooms_disjoint(d: Dungeon)
    requires
        d.wf(),
    ensures
        forall|i: int, j: int|
            0 <= i < d.rooms@.len() && 0 <= j < d.rooms@.len() && i != j
                ==> !#[trigger] d.rooms@[i].spec_intersects(d.rooms@[j]),
{
}

/// The spawn point of a level with at least one room is the first room's center,
/// and it stands on floor.
pub proof fn lemma_spawn_on_floor(d: Dungeon)
    requires
        d.wf(),
        d.rooms@.len() >= 1,
    ensures
        d.start == d.rooms@[0].spec_center(),
        d.map.passable(d.start.0 as int, d.start.1 as int),
        d.map.at(d.start.0 as int, d.start.1 as int) == Tile::spec_empty(),
{
    let c = center_of(d.rooms@[0]);
    assert(room_fits(d.rooms@[0], d.map.spec_width(), d.map.spec_height()));
    assert(d.rooms@[0].interior_contains(c.0, c.1));
    assert(in_some_room(d.rooms@, c.0, c.1));
}

} // verus!
