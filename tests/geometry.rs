use roguelike::grid::{create_h_tunnel, create_room, create_v_tunnel, Grid};
use roguelike::rect::Rect;
use roguelike::tile::Tile;

#[test]
fn tile_presets() {
    assert_eq!(Tile::empty(), Tile { blocked: false, block_sight: false });
    assert_eq!(Tile::wall(), Tile { blocked: true, block_sight: true });
}

#[test]
fn rect_new_sets_corners() {
    let r = Rect::new(3, 4, 6, 7);
    assert_eq!(r, Rect { x1: 3, y1: 4, x2: 9, y2: 11 });
}

#[test]
fn rect_center_truncates() {
    assert_eq!(Rect::new(3, 4, 6, 7).center(), (6, 7));
    assert_eq!(Rect::new(0, 0, 5, 3).center(), (2, 1));
    assert_eq!(Rect { x1: -3, y1: -5, x2: 0, y2: 0 }.center(), (-1, -2));
}

#[test]
fn rect_touching_edges_intersect() {
    let a = Rect::new(1, 1, 4, 4);
    let b = Rect::new(5, 5, 4, 4);
    assert!(a.intersects_with(&b));
    assert!(b.intersects_with(&a));
}

#[test]
fn rect_separated_do_not_intersect() {
    let a = Rect::new(1, 1, 4, 4);
    let b = Rect::new(6, 1, 4, 4);
    let c = Rect::new(1, 6, 4, 4);
    assert!(!a.intersects_with(&b));
    assert!(!a.intersects_with(&c));
    assert!(Rect::new(0, 0, 10, 10).intersects_with(&Rect::new(2, 2, 1, 1)));
}

#[test]
fn new_grid_is_all_wall() {
    let g = Grid::new(7, 5);
    assert_eq!(g.width(), 7);
    assert_eq!(g.height(), 5);
    for x in 0..7 {
        for y in 0..5 {
            assert_eq!(g.tile(x, y), Tile::wall());
        }
    }
}

#[test]
fn room_carves_interior_only() {
    let mut g = Grid::new(10, 10);
    create_room(Rect::new(1, 2, 4, 3), &mut g);
    for x in 0..10 {
        for y in 0..10 {
            let inside = x >= 2 && x <= 4 && y >= 3 && y <= 4;
            let expected = if inside { Tile::empty() } else { Tile::wall() };
            assert_eq!(g.tile(x, y), expected, "cell ({}, {})", x, y);
        }
    }
}

#[test]
fn tunnels_include_both_ends_in_either_order() {
    let mut g = Grid::new(10, 10);
    create_h_tunnel(7, 2, 5, &mut g);
    create_v_tunnel(8, 6, 1, &mut g);
    for x in 0..10 {
        for y in 0..10 {
            let on_h = y == 5 && x >= 2 && x <= 7;
            let on_v = x == 1 && y >= 6 && y <= 8;
            let expected = if on_h || on_v { Tile::empty() } else { Tile::wall() };
            assert_eq!(g.tile(x, y), expected, "cell ({}, {})", x, y);
        }
    }
}

#[test]
fn single_cell_tunnel() {
    let mut g = Grid::new(3, 3);
    create_h_tunnel(1, 1, 1, &mut g);
    assert_eq!(g.tile(1, 1), Tile::empty());
    assert_eq!(g.tile(0, 1), Tile::wall());
    assert_eq!(g.tile(2, 1), Tile::wall());
}
