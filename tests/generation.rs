use std::collections::VecDeque;

use rand::rngs::StdRng;
use rand::SeedableRng;
use roguelike::dungeon::{make_map, Dungeon, MapConfig};
use roguelike::grid::Grid;
use roguelike::rect::Rect;
use roguelike::tile::Tile;

fn flood(g: &Grid, from: (i32, i32)) -> Vec<Vec<bool>> {
    let (w, h) = (g.width(), g.height());
    let mut seen = vec![vec![false; h as usize]; w as usize];
    let mut queue = VecDeque::new();
    if !g.tile(from.0, from.1).blocked {
        seen[from.0 as usize][from.1 as usize] = true;
        queue.push_back(from);
    }
    while let Some((x, y)) = queue.pop_front() {
        for (dx, dy) in [(1, 0), (-1, 0), (0, 1), (0, -1)] {
            let (nx, ny) = (x + dx, y + dy);
            if nx >= 0 && ny >= 0 && nx < w && ny < h && !seen[nx as usize][ny as usize]
                && !g.tile(nx, ny).blocked
            {
                seen[nx as usize][ny as usize] = true;
                queue.push_back((nx, ny));
            }
        }
    }
    seen
}

fn in_interior(r: &Rect, x: i32, y: i32) -> bool {
    r.x1 < x && x < r.x2 && r.y1 < y && y < r.y2
}

fn on_segment(a: (i32, i32), b: (i32, i32), x: i32, y: i32) -> bool {
    let (lx, hx) = (a.0.min(b.0), a.0.max(b.0));
    let (ly, hy) = (a.1.min(b.1), a.1.max(b.1));
    lx <= x && x <= hx && ly <= y && y <= hy
}

fn on_tunnel(d: &Dungeon, x: i32, y: i32) -> bool {
    (0..d.bends.len()).any(|j| {
        let a = d.rooms[j].center();
        let b = d.rooms[j + 1].center();
        let corner = if d.bends[j] { (b.0, a.1) } else { (a.0, b.1) };
        on_segment(a, corner, x, y) || on_segment(corner, b, x, y)
    })
}

fn check_level(d: &Dungeon, config: &MapConfig) {
    let g = &d.map;
    assert_eq!(g.width(), config.width);
    assert_eq!(g.height(), config.height);
    assert!(d.rooms.len() <= config.max_rooms as usize);
    assert!(!d.rooms.is_empty());
    assert_eq!(d.start, d.rooms[0].center());
    assert_eq!(d.bends.len() + 1, d.rooms.len());
    for r in &d.rooms {
        let (w, h) = (r.x2 - r.x1, r.y2 - r.y1);
        assert!(w >= config.room_min_size && w <= config.room_max_size);
        assert!(h >= config.room_min_size && h <= config.room_max_size);
        assert!(r.x1 >= 0 && r.y1 >= 0 && r.x2 < config.width && r.y2 < config.height);
    }
    for i in 0..d.rooms.len() {
        for j in 0..d.rooms.len() {
            if i != j {
                assert!(!d.rooms[i].intersects_with(&d.rooms[j]));
            }
        }
    }
    for x in 0..g.width() {
        for y in 0..g.height() {
            let in_room = d.rooms.iter().any(|r| in_interior(r, x, y));
            let t = g.tile(x, y);
            if in_room {
                assert_eq!(t, Tile::empty());
            } else if !on_tunnel(d, x, y) {
                assert_eq!(t, Tile::wall());
            }
        }
    }
    let seen = flood(g, d.start);
    for r in &d.rooms {
        let (cx, cy) = r.center();
        assert!(seen[cx as usize][cy as usize]);
    }
}

#[test]
fn standard_config_values() {
    let c = MapConfig::standard();
    assert_eq!(c, MapConfig { width: 80, height: 45, max_rooms: 30, room_min_size: 6, room_max_size: 10 });
    assert_eq!(MapConfig::new(80, 45, 30, 6, 10), Some(c));
}

#[test]
fn config_rejects_inconsistent_sizes() {
    assert_eq!(MapConfig::new(80, 45, 30, 10, 6), None);
    assert_eq!(MapConfig::new(80, 45, 30, 1, 6), None);
    assert_eq!(MapConfig::new(10, 45, 30, 6, 10), None);
    assert_eq!(MapConfig::new(80, 10, 30, 6, 10), None);
    assert_eq!(MapConfig::new(80, 45, -1, 6, 10), None);
    assert!(MapConfig::new(11, 11, 0, 10, 10).is_some());
}

#[test]
fn generated_levels_keep_their_rules() {
    let config = MapConfig::standard();
    for seed in 0..20u64 {
        let mut rng = StdRng::seed_from_u64(seed);
        let d = make_map(&config, &mut rng);
        check_level(&d, &config);
    }
}

#[test]
fn small_levels_keep_their_rules() {
    let config = MapConfig::new(20, 15, 12, 3, 5).unwrap();
    for seed in 100..130u64 {
        let mut rng = StdRng::seed_from_u64(seed);
        let d = make_map(&config, &mut rng);
        check_level(&d, &config);
    }
}

#[test]
fn generation_places_several_varied_rooms() {
    let config = MapConfig::standard();
    let mut rng = StdRng::seed_from_u64(7);
    let d = make_map(&config, &mut rng);
    assert!(d.rooms.len() >= 2);
    assert!(d.rooms.iter().any(|r| r.x1 != d.rooms[0].x1 || r.y1 != d.rooms[0].y1));
}

#[test]
fn same_seed_same_level() {
    let config = MapConfig::standard();
    let a = make_map(&config, &mut StdRng::seed_from_u64(42));
    let b = make_map(&config, &mut StdRng::seed_from_u64(42));
    assert_eq!(a.rooms, b.rooms);
    assert_eq!(a.bends, b.bends);
    assert_eq!(a.start, b.start);
}

#[test]
fn zero_candidates_leave_all_wall() {
    let config = MapConfig::new(12, 12, 0, 3, 5).unwrap();
    let d = make_map(&config, &mut StdRng::seed_from_u64(1));
    assert!(d.rooms.is_empty());
    for x in 0..12 {
        for y in 0..12 {
            assert_eq!(d.map.tile(x, y), Tile::wall());
        }
    }
}

#[test]
fn first_room_sets_spawn() {
    let mut d = Dungeon::new(20, 20);
    assert!(d.try_add_room(Rect::new(2, 3, 5, 4), true));
    assert_eq!(d.start, (4, 5));
    assert!(d.bends.is_empty());
    assert_eq!(d.map.tile(4, 5), Tile::empty());
    assert_eq!(d.map.tile(2, 3), Tile::wall());
}

#[test]
fn overlapping_room_is_rejected() {
    let mut d = Dungeon::new(20, 20);
    assert!(d.try_add_room(Rect::new(2, 2, 5, 5), true));
    assert!(!d.try_add_room(Rect::new(7, 2, 4, 4), false));
    assert!(!d.try_add_room(Rect::new(4, 4, 3, 3), false));
    assert_eq!(d.rooms.len(), 1);
    assert_eq!(d.map.tile(9, 4), Tile::wall());
}

#[test]
fn second_room_gets_tunnel_horizontal_first() {
    let mut d = Dungeon::new(20, 20);
    assert!(d.try_add_room(Rect::new(1, 1, 4, 4), true));
    assert!(d.try_add_room(Rect::new(10, 10, 4, 4), true));
    assert_eq!(d.bends, vec![true]);
    // from (3, 3) along row 3 to (12, 3), then down column 12 to (12, 12)
    assert_eq!(d.map.tile(8, 3), Tile::empty());
    assert_eq!(d.map.tile(12, 7), Tile::empty());
    assert_eq!(d.map.tile(3, 8), Tile::wall());
    assert_eq!(d.start, (3, 3));
}

#[test]
fn second_room_gets_tunnel_vertical_first() {
    let mut d = Dungeon::new(20, 20);
    assert!(d.try_add_room(Rect::new(1, 1, 4, 4), true));
    assert!(d.try_add_room(Rect::new(10, 10, 4, 4), false));
    assert_eq!(d.bends, vec![false]);
    // from (3, 3) down column 3 to (3, 12), then along row 12 to (12, 12)
    assert_eq!(d.map.tile(3, 8), Tile::empty());
    assert_eq!(d.map.tile(7, 12), Tile::empty());
    assert_eq!(d.map.tile(8, 3), Tile::wall());
}

#[test]
fn two_rooms_joined_reach_each_other() {
    let mut g = Grid::new(10, 10);
    roguelike::grid::create_room(Rect::new(1, 1, 4, 4), &mut g);
    roguelike::grid::create_room(Rect::new(5, 5, 4, 4), &mut g);
    let a = Rect::new(1, 1, 4, 4).center();
    let b = Rect::new(5, 5, 4, 4).center();
    roguelike::grid::create_h_tunnel(a.0, b.0, a.1, &mut g);
    roguelike::grid::create_v_tunnel(a.1, b.1, b.0, &mut g);
    assert!(flood(&g, a)[b.0 as usize][b.1 as usize]);
    assert!(flood(&g, b)[a.0 as usize][a.1 as usize]);
}

#[test]
fn one_candidate_always_gives_one_room() {
    let config = MapConfig::new(20, 15, 1, 3, 5).unwrap();
    for seed in 0..10u64 {
        let d = make_map(&config, &mut StdRng::seed_from_u64(seed));
        assert_eq!(d.rooms.len(), 1);
        assert_eq!(d.start, d.rooms[0].center());
        assert!(!d.map.tile(d.start.0, d.start.1).blocked);
    }
}
