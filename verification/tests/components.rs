use mapgen::cellular_automata::automata_sweep;
use mapgen::connectivity::remove_unreachable_areas_returning_most_distant;
use mapgen::glyphs::wall_glyph;
use mapgen::grid::{Grid, Position, TileType};
use mapgen::prefab_builder::read_ascii_to_vec;
use mapgen::raws::{Item, Mob, Raws};
use mapgen::regions::generate_voronoi_spawn_regions;
use mapgen::rng::Rng;

#[test]
fn seeded_rolls_are_reproducible_and_in_range() {
    let mut a = Rng::seeded(7);
    let mut b = Rng::seeded(7);
    for _ in 0..100 {
        let ra = a.roll_dice(20);
        let rb = b.roll_dice(20);
        assert_eq!(ra, rb);
        assert!((1..=20).contains(&ra));
    }
}

#[test]
fn zero_seed_still_rolls() {
    let mut r = Rng::seeded(0);
    let roll = r.roll_dice(6);
    assert!((1..=6).contains(&roll));
}

#[test]
fn fixed_rolls_clamp_to_the_die() {
    let mut r = Rng::fixed(56);
    assert_eq!(r.roll_dice(100), 56);
    assert_eq!(r.roll_dice(9), 9);
    let mut low = Rng::fixed(0);
    assert_eq!(low.roll_dice(6), 1);
    let mut mid = Rng::fixed(3);
    assert_eq!(mid.roll_dice(6), 3);
}

#[test]
fn grid_indexing_round_trips() {
    let map = Grid::new(1);
    assert_eq!(map.width, 80);
    assert_eq!(map.height, 43);
    assert_eq!(map.tiles.len(), 80 * 43);
    let idx = map.xy_idx(17, 29);
    assert_eq!(idx, 29 * 80 + 17);
    let pt = map.index_to_point2d(idx);
    assert_eq!((pt.x, pt.y), (17, 29));
    assert_eq!(map.point2d_to_index(Position { x: 17, y: 29 }), idx);
}

#[test]
fn populate_blocked_marks_exactly_the_walls() {
    let mut map = Grid::with_dimensions(5, 5, 1);
    let open = map.xy_idx(2, 2);
    map.tiles[open] = TileType::Floor;
    let stairs = map.xy_idx(3, 2);
    map.tiles[stairs] = TileType::DownStairs;
    map.populate_blocked();
    for (i, t) in map.tiles.iter().enumerate() {
        assert_eq!(map.blocked[i], *t == TileType::Wall);
    }
    assert!(!map.blocked[open]);
    assert!(!map.blocked[stairs]);
    assert!(map.is_exit_valid(2, 2));
    assert!(!map.is_exit_valid(1, 1));
    assert!(!map.is_exit_valid(0, 2));
}

#[test]
fn opacity_follows_walls_and_markers() {
    let mut map = Grid::with_dimensions(4, 4, 1);
    let idx = map.xy_idx(1, 1);
    map.tiles[idx] = TileType::Floor;
    assert!(!map.is_opaque(idx));
    map.set_view_blocked(idx);
    assert!(map.is_opaque(idx));
    let wall = map.xy_idx(2, 2);
    assert!(map.is_opaque(wall));
}

#[test]
fn content_index_clears() {
    let mut map = Grid::with_dimensions(4, 4, 1);
    map.tile_content[3].push(42);
    map.tile_content[3].push(7);
    map.clear_content_index();
    assert!(map.tile_content.iter().all(|c| c.is_empty()));
}

#[test]
fn an_all_wall_grid_is_sweep_stable() {
    let mut map = Grid::with_dimensions(9, 7, 1);
    let before = map.tiles.clone();
    automata_sweep(&mut map);
    assert_eq!(map.tiles, before);
}

#[test]
fn a_sweep_fills_lone_floor_pockets() {
    // a single open tile has eight wall neighbors, so the sweep closes it
    let mut map = Grid::with_dimensions(7, 7, 1);
    let lone = map.xy_idx(3, 3);
    map.tiles[lone] = TileType::Floor;
    automata_sweep(&mut map);
    assert_eq!(map.tiles[lone], TileType::Wall);
}

#[test]
fn culling_removes_disconnected_pockets_and_finds_the_exit() {
    // two floor pockets; only the left one is reachable from the start
    let mut map = Grid::with_dimensions(9, 5, 1);
    let reachable = [(1, 1), (2, 1), (3, 1), (3, 2)];
    let isolated = [(6, 2), (7, 2)];
    for (x, y) in reachable {
        let idx = map.xy_idx(x, y);
        map.tiles[idx] = TileType::Floor;
    }
    for (x, y) in isolated {
        let idx = map.xy_idx(x, y);
        map.tiles[idx] = TileType::Floor;
    }
    let start = map.xy_idx(1, 1);
    let exit = remove_unreachable_areas_returning_most_distant(&mut map, start);
    for (x, y) in isolated {
        let idx = map.xy_idx(x, y);
        assert_eq!(map.tiles[idx], TileType::Wall);
    }
    for (x, y) in reachable {
        let idx = map.xy_idx(x, y);
        assert_eq!(map.tiles[idx], TileType::Floor);
    }
    // the greatest distance is two moves, first reached in raster order
    // at (3, 1)
    assert_eq!(exit, map.xy_idx(3, 1));
}

#[test]
fn culling_with_a_lone_start_keeps_the_start_as_exit() {
    let mut map = Grid::with_dimensions(5, 5, 1);
    let start = map.xy_idx(2, 2);
    map.tiles[start] = TileType::Floor;
    let exit = remove_unreachable_areas_returning_most_distant(&mut map, start);
    assert_eq!(exit, start);
    assert_eq!(map.tiles[start], TileType::Floor);
}

#[test]
fn diagonal_moves_cut_corners_between_blocking_tiles() {
    // the movement rule checks only the destination, so a diagonal move
    // may pass between two orthogonally adjacent walls; this records the
    // preserved behavior rather than tightening it
    let mut map = Grid::with_dimensions(5, 5, 1);
    for (x, y) in [(1, 1), (2, 2)] {
        let idx = map.xy_idx(x, y);
        map.tiles[idx] = TileType::Floor;
    }
    // (2, 1) and (1, 2) stay walls: the only connection is the diagonal
    let start = map.xy_idx(1, 1);
    let exit = remove_unreachable_areas_returning_most_distant(&mut map, start);
    let across = map.xy_idx(2, 2);
    assert_eq!(map.tiles[across], TileType::Floor);
    assert_eq!(exit, across);
}

#[test]
fn voronoi_drops_undersized_regions() {
    // a single floor tile forms a one-tile region, below the minimum
    let mut map = Grid::with_dimensions(5, 5, 1);
    let lone = map.xy_idx(2, 2);
    map.tiles[lone] = TileType::Floor;
    let mut rng = Rng::seeded(9);
    let regions = generate_voronoi_spawn_regions(&map, &mut rng);
    assert!(regions.is_empty());
}

#[test]
fn voronoi_groups_an_open_room_into_one_region() {
    let mut map = Grid::with_dimensions(6, 6, 1);
    let mut floors = Vec::new();
    for y in 1..5 {
        for x in 1..5 {
            let idx = map.xy_idx(x, y);
            map.tiles[idx] = TileType::Floor;
            floors.push(idx);
        }
    }
    let mut rng = Rng::seeded(123);
    let regions = generate_voronoi_spawn_regions(&map, &mut rng);
    assert_eq!(regions.len(), 1);
    assert_eq!(regions[0], floors);
}

#[test]
fn wall_glyphs_follow_revealed_neighbors() {
    let mut map = Grid::with_dimensions(7, 7, 1);
    // reveal a plus of wall tiles around the center
    for (x, y) in [(3, 3), (3, 2), (3, 4), (2, 3), (4, 3)] {
        let idx = map.xy_idx(x, y);
        map.revealed_tiles[idx] = true;
    }
    // all four neighbors revealed walls: the plain wall fallback
    assert_eq!(wall_glyph(&map, 3, 3), 35);
    // only north revealed: vertical run
    assert_eq!(wall_glyph(&map, 3, 4), 186);
    // border tiles always draw the plain wall
    assert_eq!(wall_glyph(&map, 0, 0), 35);
}

#[test]
fn template_reading_filters_row_breaks() {
    let cells = read_ascii_to_vec("ab\r\ncd\n\u{a0}e");
    assert_eq!(cells, vec!['a', 'b', 'c', 'd', ' ', 'e']);
}

#[test]
fn available_exits_enumerate_open_neighbors() {
    let mut map = Grid::with_dimensions(5, 5, 1);
    for (x, y) in [(2, 2), (1, 2), (3, 2), (2, 1)] {
        let idx = map.xy_idx(x, y);
        map.tiles[idx] = TileType::Floor;
    }
    map.populate_blocked();
    let center = map.xy_idx(2, 2);
    let exits = map.get_available_exits(center);
    // cardinals first (west, east, north), no open south or diagonals
    assert_eq!(
        exits,
        vec![map.xy_idx(1, 2), map.xy_idx(3, 2), map.xy_idx(2, 1)]
    );
}

#[test]
fn seeded_roll_has_its_exact_value() {
    // one xorshift step from state 1 gives 0x40822041; against a
    // hundred-sided die that is a roll of sixty-two
    let mut r = Rng::seeded(1);
    assert_eq!(r.roll_dice(100), 62);
}

#[test]
fn raw_catalog_lookup_by_name() {
    let mut raws = Raws::empty();
    raws.items.push(Item { name: "Health Potion".to_string() });
    raws.mobs.push(Mob { name: "Goblin".to_string() });
    assert!(raws.knows_name("Goblin"));
    assert!(raws.knows_name("Health Potion"));
    assert!(!raws.knows_name("Dragon"));
}
