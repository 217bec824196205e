use rogue_core::components::{Color, Player, Position, Renderable, Viewshed};
use rogue_core::fov::{field_of_view, line_clear, Point};
use rogue_core::grid::{TileGrid, TileType};
use rogue_core::player::{try_move_entity, try_move_player};
use rogue_core::rect::Rect;
use rogue_core::state::State;
use rogue_core::store::EntityStore;
use rogue_core::visibility::VisibilitySystem;

fn floor_corridor(g: &mut TileGrid, x1: i16, x2: i16, y: i16) {
    g.apply_horizontal_tunnel(x1, x2, y);
}

fn white() -> Color {
    Color { r: 255, g: 255, b: 255 }
}

fn player_store(x: i16, y: i16, range: u32) -> EntityStore {
    let mut store = EntityStore::new();
    store.create_entity(
        Some(Position { x, y }),
        Some(Renderable { glyph: 64, fg: white(), bg: Color { r: 0, g: 0, b: 0 } }),
        Some(Player {}),
        Some(Viewshed { visible_tiles: Vec::new(), range, dirty: true }),
    );
    store
}

#[test]
fn fov_includes_viewer_and_respects_walls() {
    // an all-Wall grid: the viewer sees itself and the adjacent wall faces,
    // but nothing beyond them
    let g = TileGrid::blank(20, 20);
    let pts = field_of_view(&g, 5, 5, 3);
    assert!(pts.contains(&Point { x: 5, y: 5 }));
    assert!(pts.contains(&Point { x: 6, y: 5 }));
    assert!(pts.contains(&Point { x: 6, y: 6 }));
    assert!(!pts.contains(&Point { x: 7, y: 5 }));
    assert!(!pts.contains(&Point { x: 5, y: 8 }));
}

#[test]
fn fov_travels_along_open_floor() {
    let mut g = TileGrid::blank(30, 30);
    floor_corridor(&mut g, 2, 20, 8);
    let pts = field_of_view(&g, 5, 8, 8);
    assert!(pts.contains(&Point { x: 13, y: 8 }));
    assert!(!pts.contains(&Point { x: 14, y: 8 })); // out of range
    assert!(pts.contains(&Point { x: 2, y: 8 }));
}

#[test]
fn fov_never_leaves_the_grid() {
    let g = TileGrid::blank(10, 10);
    let pts = field_of_view(&g, 0, 0, 5);
    for p in pts.iter() {
        assert!(p.x >= 0 && p.x < 10);
        assert!(p.y >= 0 && p.y < 10);
    }
}

#[test]
fn line_clear_blocked_by_wall() {
    let mut g = TileGrid::blank(30, 30);
    floor_corridor(&mut g, 2, 20, 8);
    assert!(line_clear(&g, 4, 8, 10, 8));
    // drop a wall between them
    let block = g.xy_idx(7, 8);
    g.tiles[block] = TileType::Wall;
    assert!(!line_clear(&g, 4, 8, 10, 8));
    // the wall itself is still visible from next door
    assert!(line_clear(&g, 6, 8, 7, 8));
}

#[test]
fn movement_into_wall_is_a_no_op() {
    let mut g = TileGrid::blank(80, 80);
    floor_corridor(&mut g, 5, 10, 8);
    let mut pos = Position { x: 10, y: 8 };
    let mut vs = Viewshed { visible_tiles: Vec::new(), range: 8, dirty: false };
    // (11, 8) is Wall: nothing changes, dirty keeps its value
    try_move_entity(&mut g, &mut pos, &mut vs, 1, 0);
    assert_eq!(pos, Position { x: 10, y: 8 });
    assert!(!vs.dirty);
}

#[test]
fn movement_onto_floor_updates_and_dirties() {
    let mut g = TileGrid::blank(80, 80);
    floor_corridor(&mut g, 5, 10, 8);
    let mut pos = Position { x: 6, y: 8 };
    let mut vs = Viewshed { visible_tiles: Vec::new(), range: 8, dirty: false };
    try_move_entity(&mut g, &mut pos, &mut vs, 1, 0);
    assert_eq!(pos, Position { x: 7, y: 8 });
    assert!(vs.dirty);
}

#[test]
fn movement_tramples_foliage_to_floor() {
    let mut g = TileGrid::blank(80, 80);
    floor_corridor(&mut g, 5, 10, 8);
    let dest = g.xy_idx(7, 8);
    g.tiles[dest] = TileType::Foliage;
    let mut pos = Position { x: 6, y: 8 };
    let mut vs = Viewshed { visible_tiles: Vec::new(), range: 8, dirty: false };
    try_move_entity(&mut g, &mut pos, &mut vs, 1, 0);
    assert_eq!(pos, Position { x: 7, y: 8 });
    assert!(vs.dirty);
    assert!(g.tiles[dest] == TileType::Floor);
}

#[test]
fn try_move_player_moves_only_the_player() {
    let mut g = TileGrid::blank(80, 80);
    floor_corridor(&mut g, 5, 10, 8);
    let mut store = player_store(6, 8, 8);
    // a goblin with no Player tag shares the corridor
    store.create_entity(
        Some(Position { x: 9, y: 8 }),
        None,
        None,
        Some(Viewshed { visible_tiles: Vec::new(), range: 8, dirty: false }),
    );
    try_move_player(1, 0, &mut g, &mut store);
    assert_eq!(store.positions[0], Some(Position { x: 7, y: 8 }));
    assert_eq!(store.positions[1], Some(Position { x: 9, y: 8 }));
    assert!(!store.viewsheds[1].as_ref().unwrap().dirty);
}

#[test]
fn visibility_pass_cleans_viewsheds_and_projects_player_view() {
    let mut g = TileGrid::blank(80, 80);
    floor_corridor(&mut g, 2, 20, 8);
    let mut store = player_store(5, 8, 8);
    let vis = VisibilitySystem {};
    vis.run(&mut g, &mut store);
    let vs = store.viewsheds[0].as_ref().unwrap();
    assert!(!vs.dirty);
    assert!(vs.visible_tiles.contains(&Point { x: 5, y: 8 }));
    let own = g.xy_idx(5, 8);
    assert!(g.visible_tiles[own]);
    assert!(g.revealed_tiles[own]);
    let seen = g.xy_idx(13, 8);
    assert!(g.visible_tiles[seen]);
    assert!(g.revealed_tiles[seen]);
    let unseen = g.xy_idx(40, 40);
    assert!(!g.visible_tiles[unseen]);
    assert!(!g.revealed_tiles[unseen]);
}

#[test]
fn visible_is_recomputed_revealed_is_monotonic() {
    let mut g = TileGrid::blank(80, 80);
    floor_corridor(&mut g, 2, 20, 8);
    let store = player_store(5, 8, 2);
    let mut state = State { grid: g, store };
    state.advance(None);
    let behind = state.grid.xy_idx(3, 8);
    assert!(state.grid.visible_tiles[behind]);
    assert!(state.grid.revealed_tiles[behind]);
    // step right: (3, 8) leaves the radius-2 view but stays revealed
    state.advance(Some((1, 0)));
    assert_eq!(state.store.positions[0], Some(Position { x: 6, y: 8 }));
    assert!(!state.grid.visible_tiles[behind]);
    assert!(state.grid.revealed_tiles[behind]);
    let ahead = state.grid.xy_idx(8, 8);
    assert!(state.grid.visible_tiles[ahead]);
}

#[test]
fn end_to_end_room_walk() {
    // 80 x 80, all Wall, one room at (5, 5, 10, 6); the player spawns at its
    // center (10, 8) and steps east onto Floor
    let mut g = TileGrid::blank(80, 80);
    let mut rng = rltk::RandomNumberGenerator::seeded(3);
    let room = Rect::new(5, 5, 10, 6);
    g.apply_room(&room, &mut rng);
    assert_eq!(room.center(), (10, 8));
    // make sure the walked stretch of the room is Floor
    g.apply_horizontal_tunnel(9, 11, 8);
    let store = player_store(10, 8, 8);
    let mut state = State { grid: g, store };
    state.advance(Some((1, 0)));
    assert_eq!(state.store.positions[0], Some(Position { x: 11, y: 8 }));
    let vs = state.store.viewsheds[0].as_ref().unwrap();
    assert!(!vs.dirty);
    let dest = state.grid.xy_idx(11, 8);
    assert!(state.grid.visible_tiles[dest]);
    assert!(state.grid.revealed_tiles[dest]);
    // in-range unobstructed neighborhood inside the room is visible too
    let near = state.grid.xy_idx(9, 8);
    assert!(state.grid.visible_tiles[near]);
}

#[test]
fn store_creates_aligned_entities_and_drawables() {
    let mut store = EntityStore::new();
    let a = store.create_entity(
        Some(Position { x: 1, y: 2 }),
        Some(Renderable { glyph: 64, fg: white(), bg: white() }),
        Some(Player {}),
        None,
    );
    let b = store.create_entity(Some(Position { x: 3, y: 4 }), None, None, None);
    let c = store.create_entity(
        Some(Position { x: 5, y: 6 }),
        Some(Renderable { glyph: 103, fg: white(), bg: white() }),
        None,
        None,
    );
    assert_eq!((a, b, c), (0, 1, 2));
    assert_eq!(store.count(), 3);
    let d = store.drawables();
    assert_eq!(d.len(), 2);
    assert_eq!(d[0], (Position { x: 1, y: 2 }, Renderable { glyph: 64, fg: white(), bg: white() }));
    assert_eq!(
        d[1],
        (Position { x: 5, y: 6 }, Renderable { glyph: 103, fg: white(), bg: white() })
    );
}
