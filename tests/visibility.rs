use rand::rngs::StdRng;
use rand::SeedableRng;
use roguelike::dungeon::{make_map, MapConfig};
use roguelike::fov::{compute_visible, needs_recompute};
use roguelike::grid::{create_h_tunnel, create_room, create_v_tunnel, Grid};
use roguelike::rect::Rect;

fn open_grid(w: i32, h: i32) -> Grid {
    let mut g = Grid::new(w, h);
    create_room(Rect::new(0, 0, w - 1, h - 1), &mut g);
    g
}

fn visible_cells(f: &[Vec<bool>]) -> Vec<(i32, i32)> {
    let mut v = Vec::new();
    for (x, col) in f.iter().enumerate() {
        for (y, &seen) in col.iter().enumerate() {
            if seen {
                v.push((x as i32, y as i32));
            }
        }
    }
    v
}

#[test]
fn wall_hides_cell_behind_it() {
    // floor on 1..=10 on both axes, except a single wall at (5, 7)
    let mut g = Grid::new(12, 12);
    for x in 1..11 {
        for y in 1..11 {
            if (x, y) != (5, 7) {
                create_h_tunnel(x, x, y, &mut g);
            }
        }
    }
    assert!(g.tile(5, 7).block_sight);
    assert!(!g.tile(5, 6).block_sight);
    let f = compute_visible(&g, 5, 5, 3);
    assert!(f[5][6]);
    assert!(f[5][7]);
    assert!(!f[5][8]);
    assert!(!f[5][9]);
    let far = compute_visible(&g, 5, 5, 5);
    assert!(far[5][6]);
    assert!(!far[5][9]);
    assert!(far[6][9]);
}

#[test]
fn radius_bounds_the_field() {
    let g = open_grid(20, 20);
    let f = compute_visible(&g, 10, 10, 3);
    for (x, y) in visible_cells(&f) {
        let (dx, dy) = (x - 10, y - 10);
        assert!(dx * dx + dy * dy <= 9);
    }
    assert!(f[13][10]);
    assert!(f[10][7]);
    assert!(f[12][12]);
    assert!(!f[13][11]);
    assert!(!f[14][10]);
}

#[test]
fn zero_radius_shows_only_observer() {
    let g = open_grid(8, 8);
    assert_eq!(visible_cells(&compute_visible(&g, 3, 4, 0)), vec![(3, 4)]);
    assert_eq!(visible_cells(&compute_visible(&g, 3, 4, -2)), vec![(3, 4)]);
}

#[test]
fn observer_inside_wall_still_sees_itself() {
    let g = Grid::new(5, 5);
    let f = compute_visible(&g, 2, 2, 4);
    assert!(f[2][2]);
    assert!(f[1][1]);
    assert!(f[2][3]);
    assert!(!f[2][4]);
}

#[test]
fn walls_at_the_end_of_a_clear_line_are_seen() {
    let mut g = Grid::new(7, 7);
    create_room(Rect::new(0, 0, 6, 6), &mut g);
    let f = compute_visible(&g, 3, 3, 10);
    assert!(f[0][3]);
    assert!(f[6][6]);
    assert!(f[0][0]);
}

#[test]
fn field_holds_observer_and_respects_radius_on_levels() {
    let config = MapConfig::standard();
    for seed in 0..5u64 {
        let d = make_map(&config, &mut StdRng::seed_from_u64(seed));
        let (sx, sy) = d.start;
        let f = compute_visible(&d.map, sx, sy, 10);
        assert_eq!(f.len(), 80);
        assert!(f.iter().all(|c| c.len() == 45));
        assert!(f[sx as usize][sy as usize]);
        for (x, y) in visible_cells(&f) {
            let (dx, dy) = (x - sx, y - sy);
            assert!(dx * dx + dy * dy <= 100);
        }
    }
}

#[test]
fn recomputing_gives_the_same_field() {
    let config = MapConfig::standard();
    let d = make_map(&config, &mut StdRng::seed_from_u64(3));
    let (sx, sy) = d.start;
    assert_eq!(compute_visible(&d.map, sx, sy, 10), compute_visible(&d.map, sx, sy, 10));
    assert_eq!(compute_visible(&d.map, sx, sy, 4), compute_visible(&d.map, sx, sy, 4));
}

#[test]
fn corner_wall_never_seen_from_the_two_rooms() {
    let mut g = Grid::new(10, 10);
    create_room(Rect::new(1, 1, 4, 4), &mut g);
    create_room(Rect::new(5, 5, 4, 4), &mut g);
    let a = Rect::new(1, 1, 4, 4).center();
    let b = Rect::new(5, 5, 4, 4).center();
    create_h_tunnel(a.0, b.0, a.1, &mut g);
    create_v_tunnel(a.1, b.1, b.0, &mut g);
    for x in 0..10 {
        for y in 0..10 {
            if !g.tile(x, y).blocked {
                for radius in -1..=20 {
                    let f = compute_visible(&g, x, y, radius);
                    assert!(!f[0][0], "seen from ({}, {}) radius {}", x, y, radius);
                }
            }
        }
    }
}

#[test]
fn recompute_only_after_moving() {
    assert!(!needs_recompute((3, 4), (3, 4)));
    assert!(needs_recompute((3, 4), (4, 4)));
    assert!(needs_recompute((3, 4), (3, 5)));
    assert!(needs_recompute((-1, -1), (0, 0)));
}
