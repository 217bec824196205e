use rogue_core::grid::{tile_for_roll, TileGrid, TileType};
use rogue_core::rect::Rect;

#[test]
fn rect_new_and_center() {
    let r = Rect::new(5, 5, 10, 6);
    assert_eq!(r.x, 5);
    assert_eq!(r.y, 5);
    assert_eq!(r.w, 10);
    assert_eq!(r.h, 6);
    assert_eq!(r.center(), (10, 8));
}

#[test]
fn rect_intersects_overlap_and_touch() {
    let a = Rect::new(0, 0, 4, 4);
    let b = Rect::new(2, 2, 4, 4);
    assert!(a.intersects(&b));
    assert!(b.intersects(&a));
    // touching edges count as intersecting under the exact overlap test
    let c = Rect::new(4, 0, 4, 4);
    assert!(a.intersects(&c));
    let d = Rect::new(9, 9, 3, 3);
    assert!(!a.intersects(&d));
    assert!(!d.intersects(&a));
}

#[test]
fn blank_grid_is_all_wall() {
    let g = TileGrid::blank(80, 80);
    assert_eq!(g.width, 80);
    assert_eq!(g.height, 80);
    assert_eq!(g.tiles.len(), 6400);
    for t in g.tiles.iter() {
        assert!(*t == TileType::Wall);
    }
    for v in g.visible_tiles.iter() {
        assert!(!*v);
    }
    for v in g.revealed_tiles.iter() {
        assert!(!*v);
    }
    assert!(g.rooms.is_empty());
}

#[test]
fn idx_is_row_major_and_unique() {
    let g = TileGrid::blank(7, 5);
    assert_eq!(g.xy_idx(0, 0), 0);
    assert_eq!(g.xy_idx(1, 0), 1);
    assert_eq!(g.xy_idx(0, 1), 7);
    assert_eq!(g.xy_idx(6, 4), 34);
    let mut seen = vec![false; 35];
    for y in 0..5 {
        for x in 0..7 {
            let i = g.xy_idx(x, y);
            assert!(i < 35);
            assert!(!seen[i]);
            seen[i] = true;
        }
    }
}

#[test]
fn in_bounds_edges() {
    let g = TileGrid::blank(10, 8);
    assert!(g.in_bounds(0, 0));
    assert!(g.in_bounds(9, 7));
    assert!(!g.in_bounds(10, 0));
    assert!(!g.in_bounds(0, 8));
    assert!(!g.in_bounds(-1, 3));
}

#[test]
fn opacity_by_tile_type() {
    let mut g = TileGrid::blank(4, 4);
    let i = g.xy_idx(1, 1);
    assert!(g.is_opaque(i)); // Wall
    g.tiles[i] = TileType::Floor;
    assert!(!g.is_opaque(i));
    g.tiles[i] = TileType::Grass;
    assert!(!g.is_opaque(i));
    g.tiles[i] = TileType::Foliage;
    assert!(g.is_opaque(i));
}

#[test]
fn horizontal_tunnel_carves_row_and_skips_index_zero() {
    let mut g = TileGrid::blank(80, 80);
    g.apply_horizontal_tunnel(0, 5, 0);
    // flat index 0 is skipped by the defensive bound
    assert!(g.tiles[0] == TileType::Wall);
    for x in 1..=5 {
        let i = g.xy_idx(x, 0);
        assert!(g.tiles[i] == TileType::Floor);
    }
    let untouched = g.xy_idx(6, 0);
    assert!(g.tiles[untouched] == TileType::Wall);
}

#[test]
fn l_tunnel_between_room_centers() {
    // two rooms whose centers are (8, 8) and (40, 8), horizontal-first
    let mut g = TileGrid::blank(80, 80);
    g.apply_horizontal_tunnel(8, 40, 8);
    g.apply_vertical_tunnel(8, 8, 40);
    for x in 8..=40 {
        let i = g.xy_idx(x, 8);
        assert!(g.tiles[i] == TileType::Floor);
    }
    // a cell off the tunnel row stays Wall
    let off = g.xy_idx(20, 9);
    assert!(g.tiles[off] == TileType::Wall);
}

#[test]
fn vertical_tunnel_carves_column() {
    let mut g = TileGrid::blank(30, 30);
    g.apply_vertical_tunnel(3, 12, 7);
    for y in 3..=12 {
        let i = g.xy_idx(7, y);
        assert!(g.tiles[i] == TileType::Floor);
    }
    let off = g.xy_idx(8, 5);
    assert!(g.tiles[off] == TileType::Wall);
}

#[test]
fn apply_room_carves_interior_only() {
    let mut g = TileGrid::blank(80, 80);
    let mut rng = rltk::RandomNumberGenerator::seeded(7);
    let room = Rect::new(5, 5, 10, 6);
    g.apply_room(&room, &mut rng);
    for y in 6..=11 {
        for x in 6..=15 {
            let i = g.xy_idx(x, y);
            let t = g.tiles[i];
            assert!(t == TileType::Floor || t == TileType::Grass || t == TileType::Foliage);
        }
    }
    // the one-tile frame around the interior stays Wall
    for x in 5..=16 {
        assert!(g.tiles[g.xy_idx(x, 5)] == TileType::Wall);
        assert!(g.tiles[g.xy_idx(x, 12)] == TileType::Wall);
    }
    for y in 5..=12 {
        assert!(g.tiles[g.xy_idx(5, y)] == TileType::Wall);
        assert!(g.tiles[g.xy_idx(16, y)] == TileType::Wall);
    }
}

#[test]
fn generate_yields_valid_layout() {
    let mut rng = rltk::RandomNumberGenerator::seeded(42);
    let g = TileGrid::generate(80, 80, 10, 30, 5, 20, &mut rng);
    assert_eq!(g.width, 80);
    assert_eq!(g.height, 80);
    assert!(g.rooms.len() >= 1);
    for r in g.rooms.iter() {
        assert!(r.x >= 1 && r.y >= 1);
        assert!(r.w >= 5 && r.w < 20);
        assert!(r.h >= 5 && r.h < 20);
        assert!(r.x + r.w <= 78);
        assert!(r.y + r.h <= 78);
    }
    for i in 0..g.rooms.len() {
        for j in 0..g.rooms.len() {
            if i != j {
                assert!(!g.rooms[i].intersects(&g.rooms[j]));
            }
        }
    }
    for r in g.rooms.iter() {
        for y in (r.y + 1)..=(r.y + r.h) {
            for x in (r.x + 1)..=(r.x + r.w) {
                let t = g.tiles[g.xy_idx(x, y)];
                assert!(t == TileType::Floor || t == TileType::Grass || t == TileType::Foliage);
            }
        }
    }
    // nothing is revealed or visible before the first pass
    for k in 0..g.revealed_tiles.len() {
        assert!(!g.revealed_tiles[k]);
        assert!(!g.visible_tiles[k]);
    }
}

#[test]
fn roll_table_matches_the_d10_split() {
    assert!(tile_for_roll(1) == TileType::Foliage);
    assert!(tile_for_roll(2) == TileType::Grass);
    assert!(tile_for_roll(3) == TileType::Grass);
    assert!(tile_for_roll(4) == TileType::Grass);
    assert!(tile_for_roll(0) == TileType::Floor);
    for roll in 5..10 {
        assert!(tile_for_roll(roll) == TileType::Floor);
    }
}

fn row_open(g: &TileGrid, x1: i16, x2: i16, y: i16) -> bool {
    let (lo, hi) = if x1 <= x2 { (x1, x2) } else { (x2, x1) };
    (lo..=hi).all(|x| {
        let i = g.xy_idx(x, y);
        i == 0 || g.tiles[i] != TileType::Wall
    })
}

fn col_open(g: &TileGrid, y1: i16, y2: i16, x: i16) -> bool {
    let (lo, hi) = if y1 <= y2 { (y1, y2) } else { (y2, y1) };
    (lo..=hi).all(|y| {
        let i = g.xy_idx(x, y);
        i == 0 || g.tiles[i] != TileType::Wall
    })
}

#[test]
fn generate_bounds_sizes_count_and_connects_rooms() {
    let mut rng = rltk::RandomNumberGenerator::seeded(99);
    let g = TileGrid::generate(80, 80, 10, 30, 5, 20, &mut rng);
    // at most the attempt budget of rooms, each with a drawn extent
    assert!(g.rooms.len() <= 20);
    for r in g.rooms.iter() {
        assert!(r.w >= 5 && r.w < 20);
        assert!(r.h >= 5 && r.h < 20);
        // the center tile was carved
        let (cx, cy) = r.center();
        assert!(g.tiles[g.xy_idx(cx, cy)] != TileType::Wall);
    }
    // each room is L-connected to the previously accepted one
    for i in 1..g.rooms.len() {
        let (ax, ay) = g.rooms[i - 1].center();
        let (bx, by) = g.rooms[i].center();
        let bend_one = row_open(&g, ax, bx, ay) && col_open(&g, ay, by, bx);
        let bend_two = row_open(&g, ax, bx, by) && col_open(&g, ay, by, ax);
        assert!(bend_one || bend_two);
    }
    // every non-Wall tile lies in a room interior or on a tunnel leg
    for y in 0..80i16 {
        for x in 0..80i16 {
            if g.tiles[g.xy_idx(x, y)] != TileType::Wall {
                let in_room = g.rooms.iter().any(|r| {
                    r.x + 1 <= x && x <= r.x + r.w && r.y + 1 <= y && y <= r.y + r.h
                });
                let on_leg = (1..g.rooms.len()).any(|i| {
                    let (ax, ay) = g.rooms[i - 1].center();
                    let (bx, by) = g.rooms[i].center();
                    let between_x = x >= ax.min(bx) && x <= ax.max(bx);
                    let between_y = y >= ay.min(by) && y <= ay.max(by);
                    ((y == ay || y == by) && between_x) || ((x == ax || x == bx) && between_y)
                });
                assert!(in_room || on_leg);
            }
        }
    }
}

#[test]
fn default_dungeon_has_a_spawn_room() {
    let g = TileGrid::new();
    assert_eq!(g.width, 80);
    assert_eq!(g.height, 80);
    assert!(g.rooms.len() >= 1);
    let (cx, cy) = g.rooms[0].center();
    assert!(g.in_bounds(cx, cy));
    assert_eq!(g.dimensions(), (80, 80));
}
